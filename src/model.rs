use vstd::prelude::*;

verus! {

/// A point in time, in microseconds since the Unix epoch.
#[derive(Clone, Copy, Debug, PartialEq, Eq, Structural)]
pub struct Timestamp {
    pub micros: i64,
}

/// What can go wrong in an operation of the core.
#[derive(Clone, Copy, Debug, PartialEq, Eq, Structural)]
pub enum Error {
    /// A referenced user, bet, stake or friendship does not exist.
    NotFound,
    /// The operation was invoked against the wrong state.
    PreconditionViolation,
    /// A value breaks a rule of the data (a non-positive stake, a duplicate row).
    ConstraintViolation,
    /// The store could not hold the result (a counter or an id out of range).
    StoreFailure,
}

/// A registered user. Its identity is `id`; `username` is unique as well.
#[derive(Debug, PartialEq)]
pub struct User {
    pub id: i32,
    pub username: String,
    pub email: String,
    pub password_hash: String,
    pub created_at: Timestamp,
    pub updated_at: Timestamp,
}

impl Clone for User {
    fn clone(&self) -> (r: Self)
        ensures
            r == *self,
    {
        User {
            id: self.id,
            username: self.username.clone(),
            email: self.email.clone(),
            password_hash: self.password_hash.clone(),
            created_at: self.created_at,
            updated_at: self.updated_at,
        }
    }
}

/// Lifecycle of a bet: `Active` until closed, `Finished` until paid out, then `PayedOut`.
#[derive(Clone, Copy, Debug, PartialEq, Eq, Structural)]
pub enum BetStatus {
    Active,
    Finished,
    PayedOut,
}

impl BetStatus {
    /// Position of the status along the lifecycle.
    pub open spec fn rank(self) -> int {
        match self {
            BetStatus::Active => 0,
            BetStatus::Finished => 1,
            BetStatus::PayedOut => 2,
        }
    }

    /// `next` is `self` or the status that directly follows it.
    pub open spec fn may_become(self, next: BetStatus) -> bool {
        next == self || next.rank() == self.rank() + 1
    }
}

/// A wager created by a user, on which other users stake for or against.
#[derive(Debug, PartialEq)]
pub struct Bet {
    pub id: i32,
    pub creator_id: i32,
    pub description: String,
    pub status: BetStatus,
    pub stop_bets_at: Option<Timestamp>,
    pub created_at: Timestamp,
    pub updated_at: Timestamp,
    pub paid_out: bool,
    pub paid_out_at: Option<Timestamp>,
}

impl Clone for Bet {
    fn clone(&self) -> (r: Self)
        ensures
            r == *self,
    {
        Bet {
            id: self.id,
            creator_id: self.creator_id,
            description: self.description.clone(),
            status: self.status,
            stop_bets_at: self.stop_bets_at,
            created_at: self.created_at,
            updated_at: self.updated_at,
            paid_out: self.paid_out,
            paid_out_at: self.paid_out_at,
        }
    }
}

impl Bet {
    /// The paid-out flag and its timestamp are set together, exactly in the terminal state.
    pub open spec fn payout_consistent(&self) -> bool {
        &&& self.paid_out == (self.status == BetStatus::PayedOut)
        &&& self.paid_out_at.is_some() == self.paid_out
    }
}

/// Running totals of one user's settled stakes.
#[derive(Clone, Copy, Debug, PartialEq, Eq, Structural)]
pub struct Score {
    pub user_id: i32,
    pub total_wins: i32,
    pub total_losses: i32,
    pub points_earned: i32,
}

/// One user's stake on one bet: `bet_amount` on the side `for_bet`.
#[derive(Clone, Copy, Debug, PartialEq, Eq, Structural)]
pub struct BetParticipant {
    pub bet_id: i32,
    pub user_id: i32,
    pub for_bet: bool,
    pub bet_amount: i32,
    pub paid_out: bool,
}

/// State of a directed friendship edge.
#[derive(Clone, Copy, Debug, PartialEq, Eq, Structural)]
pub enum FriendshipStatus {
    Pending,
    Accepted,
    Rejected,
}

/// A directed friendship edge from `user_id` (the requester) to `friend_id`.
#[derive(Clone, Copy, Debug, PartialEq, Eq, Structural)]
pub struct Friendship {
    pub user_id: i32,
    pub friend_id: i32,
    pub status: FriendshipStatus,
    pub created_at: Timestamp,
    pub responded_at: Option<Timestamp>,
}

/// The recipient's answer to a pending friend request.
#[derive(Clone, Copy, Debug, PartialEq, Eq, Structural)]
pub enum FriendRequestResponse {
    Accept,
    Reject,
}

/// The status that a pending edge takes on the given answer.
pub open spec fn status_after(response: FriendRequestResponse) -> FriendshipStatus {
    match response {
        FriendRequestResponse::Accept => FriendshipStatus::Accepted,
        FriendRequestResponse::Reject => FriendshipStatus::Rejected,
    }
}

impl From<FriendRequestResponse> for FriendshipStatus {
    fn from(response: FriendRequestResponse) -> (r: FriendshipStatus)
        ensures
            r == status_after(response),
    {
        match response {
            FriendRequestResponse::Accept => FriendshipStatus::Accepted,
            FriendRequestResponse::Reject => FriendshipStatus::Rejected,
        }
    }
}

impl vstd::std_specs::convert::FromSpecImpl<FriendRequestResponse> for FriendshipStatus {
    open spec fn obeys_from_spec() -> bool {
        true
    }

    open spec fn from_spec(response: FriendRequestResponse) -> FriendshipStatus {
        status_after(response)
    }
}

/// The fields of a request to register a user.
pub struct CreateUser {
    pub username: String,
    pub email: String,
    pub password: String,
}

/// A request that names a user.
pub struct Username {
    pub username: String,
}

/// The fields of a request to create a bet for the user named `username`.
pub struct CreateBet {
    pub username: String,
    pub description: String,
    pub stop_bets_at: Option<Timestamp>,
}

/// Turns a password into the credential that is stored. Credentials are opaque to
/// this core: the stored value is the password itself.
pub fn hash_password(password: String) -> (r: String)
    ensures
        r@ == password@,
{
    password
}

} // verus!
