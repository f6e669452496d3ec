use vstd::prelude::*;

use crate::model::{status_after, Error, FriendRequestResponse, Friendship, FriendshipStatus, Timestamp};

verus! {

impl Friendship {
    /// A new request from `user_id` to `friend_id`, waiting for an answer.
    pub open spec fn request(user_id: i32, friend_id: i32, now: Timestamp) -> Friendship {
        Friendship { user_id, friend_id, status: FriendshipStatus::Pending, created_at: now, responded_at: None }
    }

    /// The accepted edge in the other direction that an acceptance creates.
    pub open spec fn reverse_accepted(self, now: Timestamp) -> Friendship {
        Friendship {
            user_id: self.friend_id,
            friend_id: self.user_id,
            status: FriendshipStatus::Accepted,
            created_at: now,
            responded_at: Some(now),
        }
    }

    /// The edge once marked accepted at `now`.
    pub open spec fn accepted_at(self, now: Timestamp) -> Friendship {
        Friendship { status: FriendshipStatus::Accepted, responded_at: Some(now), ..self }
    }

    /// The edge once answered with `response` at `now`.
    pub open spec fn answered(self, response: FriendRequestResponse, now: Timestamp) -> Friendship {
        Friendship { status: status_after(response), responded_at: Some(now), ..self }
    }

    /// Answers a pending request: the edge takes the answer's status and the time of
    /// the answer. On acceptance the result is the new edge in the other direction;
    /// on rejection there is none. An edge that is not pending is refused and left
    /// as it was.
    pub fn respond(&mut self, response: FriendRequestResponse, now: Timestamp) -> (r: Result<Option<Friendship>, Error>)
        ensures
            r is Ok <==> old(self).status == FriendshipStatus::Pending,
            r is Err ==> r == Err::<Option<Friendship>, Error>(Error::PreconditionViolation)
                && *final(self) == *old(self),
            r matches Ok(reverse) ==> *final(self) == old(self).answered(response, now) && reverse == (
                match response {
                    FriendRequestResponse::Accept => Some(old(self).reverse_accepted(now)),
                    FriendRequestResponse::Reject => None,
                }),
    {
        match self.status {
            FriendshipStatus::Pending => {},
            _ => {
                return Err(Error::PreconditionViolation);
            },
        }
        self.status = FriendshipStatus::from(response);
        self.responded_at = Some(now);
        match response {
            FriendRequestResponse::Accept => Ok(
                Some(
                    Friendship {
                        user_id: self.friend_id,
                        friend_id: self.user_id,
                        status: FriendshipStatus::Accepted,
                        created_at: now,
                        responded_at: Some(now),
                    },
                ),
            ),
            FriendRequestResponse::Reject => Ok(None),
        }
    }
}

} // verus!
