use vstd::prelude::*;

use crate::model::{hash_password, Bet, BetParticipant, BetStatus, Error, FriendRequestResponse, Friendship, FriendshipStatus, Score, Timestamp, User};
use crate::store::Store;

verus! {

impl User {
    /// Registers a user from a plain password, with an all-zero score record.
    pub fn new(store: &mut Store, username: String, email: String, password: String, now: Timestamp) -> (r: Result<User, Error>)
        requires
            old(store)@.wf(),
        ensures
            old(store)@.evolves_to(final(store)@),
            r is Err ==> final(store)@ == old(store)@,
            r is Ok <==> !old(store)@.username_taken(username@) && old(store)@.users.len() < i32::MAX,
            r matches Ok(u) ==> u.id == old(store)@.users.len() + 1 && u.username == username
                && u.email == email && u.password_hash@ == password@ && u.created_at == now
                && u.updated_at == now && old(store)@.user_added(final(store)@, u),
    {
        let password_hash = hash_password(password);
        store.create_user(username, email, password_hash, now)
    }

    /// The user with the given id.
    pub fn read_from_id(store: &Store, id: i32) -> (r: Result<User, Error>)
        requires
            store@.wf(),
        ensures
            r is Ok <==> store@.user_exists(id as int),
            r is Err ==> r == Err::<User, Error>(Error::NotFound),
            r matches Ok(u) ==> u == store@.users[id - 1],
    {
        store.read_user_with_id(id)
    }

    /// The user registered under `username`.
    pub fn read_from_name(store: &Store, username: &str) -> (r: Result<User, Error>)
        requires
            store@.wf(),
        ensures
            r is Ok <==> store@.username_taken(username@),
            r is Err ==> r == Err::<User, Error>(Error::NotFound),
            r matches Ok(u) ==> store@.users.contains(u) && u.username@ == username@,
    {
        store.read_user_with_username(username)
    }

    /// This user's score record.
    pub fn score(&self, store: &Store) -> (r: Result<Score, Error>)
        requires
            store@.wf(),
        ensures
            r is Ok <==> store@.user_exists(self.id as int),
            r is Err ==> r == Err::<Score, Error>(Error::NotFound),
            r matches Ok(s) ==> s == store@.score_of(self.id as int),
    {
        store.read_user_score(self.id)
    }

    /// Every edge that this user requested, whatever its status.
    pub fn friendships_all(&self, store: &Store) -> (r: Vec<Friendship>)
        ensures
            r@ == store@.friendships.filter(|f: Friendship| f.user_id == self.id),
    {
        store.get_friendships(self.id)
    }

    /// The accepted edges that start at this user.
    pub fn friendships_accepted(&self, store: &Store) -> (r: Vec<Friendship>)
        ensures
            r@ == store@.friendships.filter(
                |f: Friendship| f.user_id == self.id && f.status == FriendshipStatus::Accepted,
            ),
    {
        store.get_accepted_friendships(self.id)
    }

    /// Sends a friend request from this user to `to_user`.
    pub fn send_friend_request(&self, store: &mut Store, to_user: &User, now: Timestamp) -> (r: Result<Friendship, Error>)
        requires
            old(store)@.wf(),
        ensures
            old(store)@.evolves_to(final(store)@),
            r is Err ==> final(store)@ == old(store)@,
            r matches Err(e) ==> old(store)@.send_error(self.id as int, to_user.id as int) == Some(e),
            r is Ok <==> old(store)@.send_error(self.id as int, to_user.id as int).is_none(),
            r matches Ok(f) ==> f == Friendship::request(self.id, to_user.id, now)
                && old(store)@.request_sent(final(store)@, self.id as int, to_user.id as int, now),
    {
        store.send_friend_request(self.id, to_user.id, now)
    }

    /// Accepts the pending request that `responding_to` sent this user.
    pub fn accept_friend_request(&self, store: &mut Store, responding_to: &User, now: Timestamp) -> (r: Result<(), Error>)
        requires
            old(store)@.wf(),
        ensures
            old(store)@.evolves_to(final(store)@),
            r is Err ==> final(store)@ == old(store)@,
            r matches Err(e) ==> old(store)@.respond_error(self.id as int, responding_to.id as int, FriendRequestResponse::Accept) == Some(e),
            r is Ok <==> old(store)@.respond_error(self.id as int, responding_to.id as int, FriendRequestResponse::Accept).is_none(),
            r is Ok ==> old(store)@.request_answered(final(store)@, self.id as int, responding_to.id as int, FriendRequestResponse::Accept, now),
    {
        match store.respond_to_friend_request(self.id, responding_to.id, FriendRequestResponse::Accept, now) {
            Ok(_) => Ok(()),
            Err(e) => Err(e),
        }
    }

    /// Rejects the pending request that `responding_to` sent this user.
    pub fn reject_friend_request(&self, store: &mut Store, responding_to: &User, now: Timestamp) -> (r: Result<(), Error>)
        requires
            old(store)@.wf(),
        ensures
            old(store)@.evolves_to(final(store)@),
            r is Err ==> final(store)@ == old(store)@,
            r matches Err(e) ==> old(store)@.respond_error(self.id as int, responding_to.id as int, FriendRequestResponse::Reject) == Some(e),
            r is Ok <==> old(store)@.respond_error(self.id as int, responding_to.id as int, FriendRequestResponse::Reject).is_none(),
            r is Ok ==> old(store)@.request_answered(final(store)@, self.id as int, responding_to.id as int, FriendRequestResponse::Reject, now),
    {
        match store.respond_to_friend_request(self.id, responding_to.id, FriendRequestResponse::Reject, now) {
            Ok(_) => Ok(()),
            Err(e) => Err(e),
        }
    }

    /// The bets this user created.
    pub fn bets_created(&self, store: &Store) -> (r: Vec<Bet>)
        ensures
            r@ == store@.bets.filter(|b: Bet| b.creator_id == self.id),
    {
        store.get_bets_by_user(self.id)
    }

    /// Creates a bet of this user with no staking deadline.
    pub fn create_timeless_bet(&self, store: &mut Store, description: String, now: Timestamp) -> (r: Result<Bet, Error>)
        requires
            old(store)@.wf(),
        ensures
            old(store)@.evolves_to(final(store)@),
            r is Err ==> final(store)@ == old(store)@,
            r matches Err(e) ==> old(store)@.create_bet_error(self.id as int) == Some(e),
            r is Ok <==> old(store)@.create_bet_error(self.id as int).is_none(),
            r matches Ok(b) ==> b == Bet::fresh((old(store)@.bets.len() + 1) as i32, self.id, description, None, now)
                && old(store)@.bet_added(final(store)@, b),
    {
        store.create_timeless_bet(self.id, description, now)
    }

    /// Creates a bet of this user with an advisory staking deadline.
    pub fn create_timed_bet(&self, store: &mut Store, description: String, stop_bets_at: Timestamp, now: Timestamp) -> (r: Result<Bet, Error>)
        requires
            old(store)@.wf(),
        ensures
            old(store)@.evolves_to(final(store)@),
            r is Err ==> final(store)@ == old(store)@,
            r matches Err(e) ==> old(store)@.create_bet_error(self.id as int) == Some(e),
            r is Ok <==> old(store)@.create_bet_error(self.id as int).is_none(),
            r matches Ok(b) ==> b == Bet::fresh((old(store)@.bets.len() + 1) as i32, self.id, description, Some(stop_bets_at), now)
                && old(store)@.bet_added(final(store)@, b),
    {
        store.create_timed_bet(self.id, description, stop_bets_at, now)
    }

    /// The stakes this user placed.
    pub fn bets(&self, store: &Store) -> (r: Vec<BetParticipant>)
        ensures
            r@ == store@.participants.filter(|p: BetParticipant| p.user_id == self.id),
    {
        store.get_bet_participants_by_bet_user(self.id)
    }

    /// Stakes `amount` of this user on `bet`, on the side `for_bet`.
    pub fn particpate_in_bet(&self, store: &mut Store, bet: &Bet, amount: i32, for_bet: bool) -> (r: Result<BetParticipant, Error>)
        requires
            old(store)@.wf(),
        ensures
            old(store)@.evolves_to(final(store)@),
            r is Err ==> final(store)@ == old(store)@,
            r matches Err(e) ==> old(store)@.stake_error(self.id as int, bet.id as int, amount as int) == Some(e),
            r is Ok <==> old(store)@.stake_error(self.id as int, bet.id as int, amount as int).is_none(),
            r matches Ok(p) ==> p == (BetParticipant { bet_id: bet.id, user_id: self.id, for_bet, bet_amount: amount, paid_out: false })
                && final(store)@.participants == old(store)@.participants.push(p)
                && final(store)@.users == old(store)@.users && final(store)@.scores == old(store)@.scores
                && final(store)@.bets == old(store)@.bets && final(store)@.friendships == old(store)@.friendships,
    {
        store.create_bet_participant(self.id, bet.id, amount, for_bet)
    }
}

impl Bet {
    /// Closes this bet in the store: the stored bet, which must be `Active`, becomes
    /// `Finished`, and this value is replaced by the stored row as it now stands.
    pub fn close(&mut self, store: &mut Store, now: Timestamp) -> (r: Result<(), Error>)
        requires
            old(store)@.wf(),
        ensures
            old(store)@.evolves_to(final(store)@),
            r is Err ==> final(store)@ == old(store)@ && *final(self) == *old(self),
            r is Ok <==> old(store)@.bet_exists(old(self).id as int)
                && old(store)@.bet(old(self).id as int).status == BetStatus::Active,
            r matches Err(e) ==> e == (if old(store)@.bet_exists(old(self).id as int) {
                Error::PreconditionViolation
            } else {
                Error::NotFound
            }),
            r is Ok ==> *final(self) == old(store)@.bet(old(self).id as int).closed(now)
                && old(store)@.bet_replaced(final(store)@, old(self).id - 1, *final(self))
                && final(store)@.bet(old(self).id as int) == *final(self),
    {
        match store.close_bet(self.id, now) {
            Ok(row) => {
                *self = row;
                Ok(())
            },
            Err(e) => Err(e),
        }
    }

    /// Pays this bet out in the store against `bet_outcome`: every stake on it is
    /// settled exactly once into its user's score, the stored bet, which must be
    /// `Finished`, becomes `PayedOut`, and this value is replaced by the stored row as
    /// it now stands. On any error nothing changes.
    pub fn payout(&mut self, store: &mut Store, bet_outcome: bool, now: Timestamp) -> (r: Result<(), Error>)
        requires
            old(store)@.wf(),
        ensures
            old(store)@.evolves_to(final(store)@),
            r is Err ==> final(store)@ == old(store)@ && *final(self) == *old(self),
            r matches Err(e) ==> old(store)@.payout_error(old(self).id as int, bet_outcome) == Some(e),
            r is Ok <==> old(store)@.payout_error(old(self).id as int, bet_outcome).is_none(),
            r is Ok ==> *final(self) == old(store)@.bet(old(self).id as int).settled(now)
                && old(store)@.paid_out_to(final(store)@, old(self).id as int, bet_outcome, now)
                && final(store)@.bet(old(self).id as int) == *final(self),
    {
        match store.payout_bet(self.id, bet_outcome, now) {
            Ok(row) => {
                *self = row;
                Ok(())
            },
            Err(e) => Err(e),
        }
    }

    /// The bet with the given id.
    pub fn read_by_id(store: &Store, id: i32) -> (r: Result<Bet, Error>)
        requires
            store@.wf(),
        ensures
            r is Ok <==> store@.bet_exists(id as int),
            r is Err ==> r == Err::<Bet, Error>(Error::NotFound),
            r matches Ok(b) ==> b == store@.bet(id as int),
    {
        store.get_bet_by_id(id)
    }

    /// The bets in the given status.
    pub fn read_all_by_status(store: &Store, status: BetStatus) -> (r: Vec<Bet>)
        ensures
            r@ == store@.bets.filter(|b: Bet| b.status == status),
    {
        store.get_bets_by_status(status)
    }

    /// The stakes on this bet.
    pub fn participants(&self, store: &Store) -> (r: Vec<BetParticipant>)
        ensures
            r@ == store@.participants.filter(|p: BetParticipant| p.bet_id == self.id),
    {
        store.get_bet_participants(self.id)
    }
}

impl BetParticipant {
    /// The first stake placed on the bet with the given id.
    pub fn read_from_id(store: &Store, id: i32) -> (r: Result<BetParticipant, Error>)
        ensures
            r is Ok <==> exists|k: int| 0 <= k < store@.participants.len() && #[trigger] store@.participants[k].bet_id == id,
            r is Err ==> r == Err::<BetParticipant, Error>(Error::NotFound),
            r matches Ok(p) ==> exists|k: int|
                0 <= k < store@.participants.len() && #[trigger] store@.participants[k] == p && p.bet_id == id
                    && forall|j: int| 0 <= j < k ==> #[trigger] store@.participants[j].bet_id != id,
    {
        store.get_bet_participant_by_bet_id(id)
    }

    /// The user who placed this stake.
    pub fn user(&self, store: &Store) -> (r: Result<User, Error>)
        requires
            store@.wf(),
        ensures
            r is Ok <==> store@.user_exists(self.user_id as int),
            r is Err ==> r == Err::<User, Error>(Error::NotFound),
            r matches Ok(u) ==> u == store@.users[self.user_id - 1],
    {
        store.read_user_with_id(self.user_id)
    }
}

impl Score {
    /// The score record of the user registered under `username`.
    pub fn from_username(store: &Store, username: &str) -> (r: Result<Score, Error>)
        requires
            store@.wf(),
        ensures
            r is Ok <==> store@.username_taken(username@),
            r is Err ==> r == Err::<Score, Error>(Error::NotFound),
            r matches Ok(s) ==> exists|i: int|
                0 <= i < store@.users.len() && #[trigger] store@.users[i].username@ == username@ && s
                    == store@.scores[i],
    {
        let user = match store.read_user_with_username(username) {
            Ok(u) => u,
            Err(e) => {
                return Err(e);
            },
        };
        let r = store.read_user_score(user.id);
        proof {
            let i = choose|i: int| 0 <= i < store@.users.len() && store@.users[i] == user;
            assert(store@.users[i].id == i + 1);
        }
        r
    }
}

} // verus!
