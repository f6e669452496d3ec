use vstd::prelude::*;

use crate::model::{
    Bet, BetParticipant, BetStatus, Error, FriendRequestResponse, Friendship,
    FriendshipStatus, Score, Timestamp, User,
};
use crate::score::{
    create_default_score, default_score, loss_fits, payout_participant, score_not_below, settled,
    stake_wins, win_fits,
};

verus! {

/// The tables of the store, as sequences of rows.
pub struct StoreView {
    pub users: Seq<User>,
    pub scores: Seq<Score>,
    pub bets: Seq<Bet>,
    pub participants: Seq<BetParticipant>,
    pub friendships: Seq<Friendship>,
}

/// The settlement of `p` fits the counters of `s`.
pub open spec fn stake_fits(s: Score, p: BetParticipant, outcome: bool) -> bool {
    if stake_wins(p, outcome) {
        win_fits(s, p.bet_amount as int)
    } else {
        loss_fits(s)
    }
}

impl StoreView {
    /// `id` names a stored user.
    pub open spec fn user_exists(self, id: int) -> bool {
        1 <= id <= self.users.len()
    }

    /// `id` names a stored bet.
    pub open spec fn bet_exists(self, id: int) -> bool {
        1 <= id <= self.bets.len()
    }

    /// The bet with the given id.
    pub open spec fn bet(self, id: int) -> Bet {
        self.bets[id - 1]
    }

    /// The score record of the user with the given id.
    pub open spec fn score_of(self, user_id: int) -> Score {
        self.scores[user_id - 1]
    }

    /// Some user is registered under `name`.
    pub open spec fn username_taken(self, name: Seq<char>) -> bool {
        exists|i: int| 0 <= i < self.users.len() && #[trigger] self.users[i].username@ == name
    }

    /// `user_id` holds a stake on `bet_id`.
    pub open spec fn has_stake(self, bet_id: int, user_id: int) -> bool {
        exists|k: int|
            0 <= k < self.participants.len() && #[trigger] self.participants[k].bet_id == bet_id
                && self.participants[k].user_id == user_id
    }

    /// There is an edge from `from` to `to`.
    pub open spec fn has_edge(self, from: int, to: int) -> bool {
        exists|k: int|
            0 <= k < self.friendships.len() && #[trigger] self.friendships[k].user_id == from
                && self.friendships[k].friend_id == to
    }

    /// Users and score records are numbered from 1 in order, one record per user,
    /// and no two users share a name.
    pub open spec fn users_wf(self) -> bool {
        &&& self.users.len() == self.scores.len()
        &&& self.users.len() <= i32::MAX
        &&& forall|i: int| 0 <= i < self.users.len() ==> #[trigger] self.users[i].id == i + 1
        &&& forall|i: int| 0 <= i < self.scores.len() ==> #[trigger] self.scores[i].user_id == i + 1
        &&& forall|i: int, j: int|
            0 <= i < self.users.len() && 0 <= j < self.users.len() && i != j
                ==> #[trigger] self.users[i].username@ != #[trigger] self.users[j].username@
    }

    /// Bets are numbered from 1 in order, each created by a stored user, each with
    /// its paid-out flag and time in step with its status.
    pub open spec fn bets_wf(self) -> bool {
        &&& self.bets.len() <= i32::MAX
        &&& forall|i: int|
            0 <= i < self.bets.len() ==> {
                &&& #[trigger] self.bets[i].id == i + 1
                &&& self.user_exists(self.bets[i].creator_id as int)
                &&& self.bets[i].payout_consistent()
            }
    }

    /// Each stake names a stored bet and user, has a positive amount, is paid
    /// exactly when its bet is paid out, and no user stakes twice on one bet.
    pub open spec fn participants_wf(self) -> bool {
        &&& forall|k: int|
            0 <= k < self.participants.len() ==> {
                let p = #[trigger] self.participants[k];
                &&& self.bet_exists(p.bet_id as int)
                &&& self.user_exists(p.user_id as int)
                &&& p.bet_amount > 0
                &&& p.paid_out == (self.bet(p.bet_id as int).status == BetStatus::PayedOut)
            }
        &&& forall|k: int, l: int|
            0 <= k < self.participants.len() && 0 <= l < self.participants.len() && k != l
                && #[trigger] self.participants[k].bet_id == #[trigger] self.participants[l].bet_id
                ==> self.participants[k].user_id != self.participants[l].user_id
    }

    /// Each edge joins stored users, carries a response time exactly when answered,
    /// and no two edges share a direction between the same two users.
    pub open spec fn friendships_wf(self) -> bool {
        &&& forall|k: int|
            0 <= k < self.friendships.len() ==> {
                let f = #[trigger] self.friendships[k];
                &&& self.user_exists(f.user_id as int)
                &&& self.user_exists(f.friend_id as int)
                &&& (f.status == FriendshipStatus::Pending) == f.responded_at.is_none()
            }
        &&& forall|k: int, l: int|
            0 <= k < self.friendships.len() && 0 <= l < self.friendships.len() && k != l
                && #[trigger] self.friendships[k].user_id == #[trigger] self.friendships[l].user_id
                ==> self.friendships[k].friend_id != self.friendships[l].friend_id
    }

    /// The store's invariant: ids are positions, every reference names a stored row,
    /// each user has one score record, each user stakes at most once per bet, each
    /// direction between two users has at most one edge, and a stake is paid out
    /// exactly when its bet is.
    pub open spec fn wf(self) -> bool {
        &&& self.users_wf()
        &&& self.bets_wf()
        &&& self.participants_wf()
        &&& self.friendships_wf()
    }

    /// Every stored bet keeps its status or takes the next one; new bets are `Active`.
    pub open spec fn bets_advance_to(self, next: StoreView) -> bool {
        &&& next.bets.len() >= self.bets.len()
        &&& forall|i: int|
            0 <= i < self.bets.len() ==> #[trigger] self.bets[i].status.may_become(next.bets[i].status)
        &&& forall|i: int|
            self.bets.len() <= i < next.bets.len() ==> #[trigger] next.bets[i].status == BetStatus::Active
    }

    /// No score record loses a win, a loss or a point.
    pub open spec fn scores_grow_to(self, next: StoreView) -> bool {
        &&& next.scores.len() >= self.scores.len()
        &&& forall|i: int|
            0 <= i < self.scores.len() ==> score_not_below(self.scores[i], #[trigger] next.scores[i])
    }

    /// What every operation guarantees of the state it leaves.
    pub open spec fn evolves_to(self, next: StoreView) -> bool {
        &&& next.wf()
        &&& self.bets_advance_to(next)
        &&& self.scores_grow_to(next)
    }

    /// `next` differs from `self` in the bet table alone, where `i` holds `b`.
    pub open spec fn bet_replaced(self, next: StoreView, i: int, b: Bet) -> bool {
        &&& next.bets == self.bets.update(i, b)
        &&& next.users == self.users
        &&& next.scores == self.scores
        &&& next.participants == self.participants
        &&& next.friendships == self.friendships
    }

    /// `next` is `self` with the bet `b` added.
    pub open spec fn bet_added(self, next: StoreView, b: Bet) -> bool {
        &&& next.bets == self.bets.push(b)
        &&& next.users == self.users
        &&& next.scores == self.scores
        &&& next.participants == self.participants
        &&& next.friendships == self.friendships
    }

    /// Why creating a bet of `creator_id` fails, if it does.
    pub open spec fn create_bet_error(self, creator_id: int) -> Option<Error> {
        if !self.user_exists(creator_id) {
            Some(Error::NotFound)
        } else if self.bets.len() >= i32::MAX {
            Some(Error::StoreFailure)
        } else {
            None
        }
    }

    /// Why a stake of `amount` by `user_id` on `bet_id` is refused, if it is.
    pub open spec fn stake_error(self, user_id: int, bet_id: int, amount: int) -> Option<Error> {
        if !self.user_exists(user_id) || !self.bet_exists(bet_id) {
            Some(Error::NotFound)
        } else if self.bet(bet_id).status != BetStatus::Active {
            Some(Error::PreconditionViolation)
        } else if amount <= 0 || self.has_stake(bet_id, user_id) {
            Some(Error::ConstraintViolation)
        } else {
            None
        }
    }

    /// Some stake on `bet_id` would not fit its user's counters once settled.
    pub open spec fn payout_overflows(self, bet_id: int, outcome: bool) -> bool {
        exists|k: int|
            0 <= k < self.participants.len() && #[trigger] self.participants[k].bet_id == bet_id
                && !stake_fits(self.score_of(self.participants[k].user_id as int), self.participants[k], outcome)
    }

    /// Why paying out `bet_id` is refused, if it is.
    pub open spec fn payout_error(self, bet_id: int, outcome: bool) -> Option<Error> {
        if !self.bet_exists(bet_id) {
            Some(Error::NotFound)
        } else if self.bet(bet_id).status != BetStatus::Finished {
            Some(Error::PreconditionViolation)
        } else if self.payout_overflows(bet_id, outcome) {
            Some(Error::StoreFailure)
        } else {
            None
        }
    }

    /// `next` is `self` with `bet_id` paid out at `now` against `outcome`: the bet is
    /// `PayedOut`, each of its stakes is marked paid, the user of each such stake has
    /// exactly that stake settled into their record, and nothing else changed.
    pub open spec fn paid_out_to(self, next: StoreView, bet_id: int, outcome: bool, now: Timestamp) -> bool {
        &&& next.bets == self.bets.update(bet_id - 1, self.bet(bet_id).settled(now))
        &&& next.users == self.users
        &&& next.friendships == self.friendships
        &&& next.participants.len() == self.participants.len()
        &&& forall|k: int|
            0 <= k < self.participants.len() ==> #[trigger] next.participants[k] == (
                if self.participants[k].bet_id == bet_id {
                    BetParticipant { paid_out: true, ..self.participants[k] }
                } else {
                    self.participants[k]
                })
        &&& next.scores.len() == self.scores.len()
        &&& forall|k: int|
            0 <= k < self.participants.len() && #[trigger] self.participants[k].bet_id == bet_id
                ==> next.score_of(self.participants[k].user_id as int) == settled(
                self.score_of(self.participants[k].user_id as int),
                self.participants[k],
                outcome,
            )
        &&& forall|i: int|
            0 <= i < self.scores.len() && !self.has_stake(bet_id, i + 1) ==> #[trigger] next.scores[i]
                == self.scores[i]
    }

    /// The position of the edge from `from` to `to`, where there is one.
    pub open spec fn edge_at(self, from: int, to: int) -> int {
        choose|k: int|
            0 <= k < self.friendships.len() && #[trigger] self.friendships[k].user_id == from
                && self.friendships[k].friend_id == to
    }

    /// The edge from `from` to `to`, where there is one.
    pub open spec fn edge(self, from: int, to: int) -> Friendship {
        self.friendships[self.edge_at(from, to)]
    }

    /// Why a friend request from `from` to `to` is refused, if it is.
    pub open spec fn send_error(self, from: int, to: int) -> Option<Error> {
        if !self.user_exists(from) || !self.user_exists(to) {
            Some(Error::NotFound)
        } else if self.has_edge(from, to) {
            Some(Error::ConstraintViolation)
        } else {
            None
        }
    }

    /// Why `recipient`'s answer to the request of `requester` is refused, if it is.
    pub open spec fn respond_error(self, recipient: int, requester: int, response: FriendRequestResponse) -> Option<Error> {
        if !self.has_edge(requester, recipient) {
            Some(Error::NotFound)
        } else if self.edge(requester, recipient).status != FriendshipStatus::Pending {
            Some(Error::PreconditionViolation)
        } else {
            None
        }
    }

    /// `next` is `self` with one more edge: a pending request from `from` to `to`.
    pub open spec fn request_sent(self, next: StoreView, from: int, to: int, now: Timestamp) -> bool {
        &&& next.friendships == self.friendships.push(Friendship::request(from as i32, to as i32, now))
        &&& next.users == self.users
        &&& next.scores == self.scores
        &&& next.bets == self.bets
        &&& next.participants == self.participants
    }

    /// `next` is `self` once `recipient` answered the request of `requester` with
    /// `response` at `now`: that edge takes the answer, and an acceptance makes the
    /// edge in the other direction accepted, adding it where there was none.
    pub open spec fn request_answered(
        self,
        next: StoreView,
        recipient: int,
        requester: int,
        response: FriendRequestResponse,
        now: Timestamp,
    ) -> bool {
        let k = self.edge_at(requester, recipient);
        let answered = self.friendships.update(k, self.friendships[k].answered(response, now));
        &&& next.friendships == (match response {
            FriendRequestResponse::Accept => if self.has_edge(recipient, requester) {
                let j = self.edge_at(recipient, requester);
                answered.update(j, self.friendships[j].accepted_at(now))
            } else {
                answered.push(self.friendships[k].reverse_accepted(now))
            },
            FriendRequestResponse::Reject => answered,
        })
        &&& next.users == self.users
        &&& next.scores == self.scores
        &&& next.bets == self.bets
        &&& next.participants == self.participants
    }

    /// `next` is `self` with one more user, registered under the given fields.
    pub open spec fn user_added(self, next: StoreView, u: User) -> bool {
        &&& next.users == self.users.push(u)
        &&& next.scores == self.scores.push(default_score(u.id))
        &&& next.bets == self.bets
        &&& next.participants == self.participants
        &&& next.friendships == self.friendships
    }
}

/// Among the first `k` stakes of `v` there is one of `user_id` on `bet_id`.
spec fn staked_before(v: StoreView, bet_id: int, user_id: int, k: int) -> bool {
    exists|j: int|
        0 <= j < k && #[trigger] v.participants[j].bet_id == bet_id && v.participants[j].user_id == user_id
}

/// Filtering a prefix one element longer adds that element when it passes.
proof fn lemma_filter_prefix<A>(s: Seq<A>, i: int, pred: spec_fn(A) -> bool)
    requires
        0 <= i < s.len(),
    ensures
        s.subrange(0, i + 1).filter(pred) == (if pred(s[i]) {
            s.subrange(0, i).filter(pred).push(s[i])
        } else {
            s.subrange(0, i).filter(pred)
        }),
{
    reveal(Seq::filter);
    assert(s.subrange(0, i + 1).drop_last() =~= s.subrange(0, i));
}

/// The rows of users, scores, bets, stakes and friendships, with the operations of
/// the core over them. Every operation either applies whole or leaves the store as
/// it was.
pub struct Store {
    users: Vec<User>,
    scores: Vec<Score>,
    bets: Vec<Bet>,
    participants: Vec<BetParticipant>,
    friendships: Vec<Friendship>,
}

impl View for Store {
    type V = StoreView;

    closed spec fn view(&self) -> StoreView {
        StoreView {
            users: self.users@,
            scores: self.scores@,
            bets: self.bets@,
            participants: self.participants@,
            friendships: self.friendships@,
        }
    }
}

impl Store {
    /// An empty store.
    pub fn new() -> (r: Store)
        ensures
            r@.wf(),
            r@.users.len() == 0,
            r@.bets.len() == 0,
            r@.participants.len() == 0,
            r@.friendships.len() == 0,
    {
        Store {
            users: Vec::new(),
            scores: Vec::new(),
            bets: Vec::new(),
            participants: Vec::new(),
            friendships: Vec::new(),
        }
    }

    fn username_index(&self, username: &String) -> (r: Option<usize>)
        ensures
            r matches Some(i) ==> i < self@.users.len() && self@.users[i as int].username@ == username@,
            r is None ==> !self@.username_taken(username@),
    {
        let mut i: usize = 0;
        while i < self.users.len()
            invariant
                i <= self.users@.len(),
                forall|j: int| 0 <= j < i ==> self.users@[j].username@ != username@,
            decreases self.users@.len() - i,
        {
            if self.users[i].username == *username {
                return Some(i);
            }
            i = i + 1;
        }
        None
    }

    /// Registers a user with its credential, and the user's all-zero score record.
    /// The new user's id is one more than the number of users before.
    pub fn create_user(&mut self, username: String, email: String, password_hash: String, now: Timestamp) -> (r: Result<User, Error>)
        requires
            old(self)@.wf(),
        ensures
            old(self)@.evolves_to(final(self)@),
            r is Err ==> final(self)@ == old(self)@,
            r matches Err(e) ==> e == (if old(self)@.username_taken(username@) {
                Error::ConstraintViolation
            } else {
                Error::StoreFailure
            }),
            r is Ok <==> !old(self)@.username_taken(username@) && old(self)@.users.len() < i32::MAX,
            r matches Ok(u) ==> u == (User {
                id: (old(self)@.users.len() + 1) as i32,
                username,
                email,
                password_hash,
                created_at: now,
                updated_at: now,
            }) && old(self)@.user_added(final(self)@, u),
    {
        if self.username_index(&username).is_some() {
            return Err(Error::ConstraintViolation);
        }
        if self.users.len() >= i32::MAX as usize {
            return Err(Error::StoreFailure);
        }
        let id = (self.users.len() + 1) as i32;
        let user = User { id, username, email, password_hash, created_at: now, updated_at: now };
        let result = user.clone();
        self.users.push(user);
        self.scores.push(create_default_score(id));
        proof {
            let pre = old(self)@;
            let post = self@;
            assert forall|i: int, j: int|
                0 <= i < post.users.len() && 0 <= j < post.users.len() && i != j
                    implies #[trigger] post.users[i].username@ != #[trigger] post.users[j].username@ by {
                if i < pre.users.len() && j < pre.users.len() {
                    assert(pre.users[i] == post.users[i]);
                    assert(pre.users[j] == post.users[j]);
                } else if i < pre.users.len() {
                    assert(pre.users[i] == post.users[i]);
                } else {
                    assert(pre.users[j] == post.users[j]);
                }
            }
            assert(post.users_wf());
            assert(post.bets_wf());
            assert(post.participants_wf());
            assert(post.friendships_wf());
        }
        Ok(result)
    }

    /// The user with the given id.
    pub fn read_user_with_id(&self, id: i32) -> (r: Result<User, Error>)
        requires
            self@.wf(),
        ensures
            r is Ok <==> self@.user_exists(id as int),
            r is Err ==> r == Err::<User, Error>(Error::NotFound),
            r matches Ok(u) ==> u == self@.users[id - 1],
    {
        if id < 1 || id as usize > self.users.len() {
            return Err(Error::NotFound);
        }
        Ok(self.users[(id - 1) as usize].clone())
    }

    /// The user registered under `username`.
    pub fn read_user_with_username(&self, username: &str) -> (r: Result<User, Error>)
        requires
            self@.wf(),
        ensures
            r is Ok <==> self@.username_taken(username@),
            r is Err ==> r == Err::<User, Error>(Error::NotFound),
            r matches Ok(u) ==> self@.users.contains(u) && u.username@ == username@,
    {
        let name = username.to_owned();
        match self.username_index(&name) {
            Some(i) => Ok(self.users[i].clone()),
            None => Err(Error::NotFound),
        }
    }

    /// The score record of the user with the given id.
    pub fn read_user_score(&self, user_id: i32) -> (r: Result<Score, Error>)
        requires
            self@.wf(),
        ensures
            r is Ok <==> self@.user_exists(user_id as int),
            r is Err ==> r == Err::<Score, Error>(Error::NotFound),
            r matches Ok(s) ==> s == self@.score_of(user_id as int) && s.user_id == user_id,
    {
        if user_id < 1 || user_id as usize > self.scores.len() {
            return Err(Error::NotFound);
        }
        Ok(self.scores[(user_id - 1) as usize])
    }

    fn insert_bet(&mut self, creator_id: i32, description: String, stop_bets_at: Option<Timestamp>, now: Timestamp) -> (r: Result<Bet, Error>)
        requires
            old(self)@.wf(),
        ensures
            old(self)@.evolves_to(final(self)@),
            r is Err ==> final(self)@ == old(self)@,
            r matches Err(e) ==> old(self)@.create_bet_error(creator_id as int) == Some(e),
            r is Ok <==> old(self)@.create_bet_error(creator_id as int).is_none(),
            r matches Ok(b) ==> b == Bet::fresh(
                (old(self)@.bets.len() + 1) as i32,
                creator_id,
                description,
                stop_bets_at,
                now,
            ) && old(self)@.bet_added(final(self)@, b),
    {
        if creator_id < 1 || creator_id as usize > self.users.len() {
            return Err(Error::NotFound);
        }
        if self.bets.len() >= i32::MAX as usize {
            return Err(Error::StoreFailure);
        }
        let bet = Bet {
            id: (self.bets.len() + 1) as i32,
            creator_id,
            description,
            status: BetStatus::Active,
            stop_bets_at,
            created_at: now,
            updated_at: now,
            paid_out: false,
            paid_out_at: None,
        };
        let result = bet.clone();
        self.bets.push(bet);
        proof {
            let pre = old(self)@;
            let post = self@;
            assert forall|k: int| 0 <= k < post.participants.len() implies {
                let p = #[trigger] post.participants[k];
                &&& post.bet_exists(p.bet_id as int)
                &&& post.user_exists(p.user_id as int)
                &&& p.bet_amount > 0
                &&& p.paid_out == (post.bet(p.bet_id as int).status == BetStatus::PayedOut)
            } by {
                assert(pre.participants[k] == post.participants[k]);
                assert(pre.bets[pre.participants[k].bet_id - 1] == post.bets[pre.participants[k].bet_id - 1]);
            }
            assert(post.participants_wf());
            assert(post.bets_wf());
        }
        Ok(result)
    }

    /// Creates a bet of the given user with no staking deadline. It starts `Active`
    /// and not paid out; its id is one more than the number of bets before.
    pub fn create_timeless_bet(&mut self, creator_id: i32, description: String, now: Timestamp) -> (r: Result<Bet, Error>)
        requires
            old(self)@.wf(),
        ensures
            old(self)@.evolves_to(final(self)@),
            r is Err ==> final(self)@ == old(self)@,
            r matches Err(e) ==> old(self)@.create_bet_error(creator_id as int) == Some(e),
            r is Ok <==> old(self)@.create_bet_error(creator_id as int).is_none(),
            r matches Ok(b) ==> b == Bet::fresh(
                (old(self)@.bets.len() + 1) as i32,
                creator_id,
                description,
                None,
                now,
            ) && old(self)@.bet_added(final(self)@, b),
    {
        self.insert_bet(creator_id, description, None, now)
    }

    /// Creates a bet of the given user that records a staking deadline. The deadline
    /// is advisory: closing the bet in time is the caller's part.
    pub fn create_timed_bet(&mut self, creator_id: i32, description: String, stop_bets_at: Timestamp, now: Timestamp) -> (r: Result<Bet, Error>)
        requires
            old(self)@.wf(),
        ensures
            old(self)@.evolves_to(final(self)@),
            r is Err ==> final(self)@ == old(self)@,
            r matches Err(e) ==> old(self)@.create_bet_error(creator_id as int) == Some(e),
            r is Ok <==> old(self)@.create_bet_error(creator_id as int).is_none(),
            r matches Ok(b) ==> b == Bet::fresh(
                (old(self)@.bets.len() + 1) as i32,
                creator_id,
                description,
                Some(stop_bets_at),
                now,
            ) && old(self)@.bet_added(final(self)@, b),
    {
        self.insert_bet(creator_id, description, Some(stop_bets_at), now)
    }

    /// Creates a bet of the given user, with a staking deadline where one is given.
    pub fn create_bet(&mut self, creator_id: i32, description: String, stop_bets_at: Option<Timestamp>, now: Timestamp) -> (r: Result<Bet, Error>)
        requires
            old(self)@.wf(),
        ensures
            old(self)@.evolves_to(final(self)@),
            r is Err ==> final(self)@ == old(self)@,
            r matches Err(e) ==> old(self)@.create_bet_error(creator_id as int) == Some(e),
            r is Ok <==> old(self)@.create_bet_error(creator_id as int).is_none(),
            r matches Ok(b) ==> b == Bet::fresh(
                (old(self)@.bets.len() + 1) as i32,
                creator_id,
                description,
                stop_bets_at,
                now,
            ) && old(self)@.bet_added(final(self)@, b),
    {
        match stop_bets_at {
            Some(deadline) => self.create_timed_bet(creator_id, description, deadline, now),
            None => self.create_timeless_bet(creator_id, description, now),
        }
    }

    /// The bet with the given id.
    pub fn get_bet_by_id(&self, id: i32) -> (r: Result<Bet, Error>)
        requires
            self@.wf(),
        ensures
            r is Ok <==> self@.bet_exists(id as int),
            r is Err ==> r == Err::<Bet, Error>(Error::NotFound),
            r matches Ok(b) ==> b == self@.bet(id as int) && b.id == id,
    {
        if id < 1 || id as usize > self.bets.len() {
            return Err(Error::NotFound);
        }
        Ok(self.bets[(id - 1) as usize].clone())
    }

    /// The bets created by the given user, in order of creation.
    pub fn get_bets_by_user(&self, user_id: i32) -> (r: Vec<Bet>)
        ensures
            r@ == self@.bets.filter(|b: Bet| b.creator_id == user_id),
    {
        let ghost pred = |b: Bet| b.creator_id == user_id;
        let mut r: Vec<Bet> = Vec::new();
        let mut i: usize = 0;
        while i < self.bets.len()
            invariant
                i <= self.bets@.len(),
                pred == (|b: Bet| b.creator_id == user_id),
                r@ == self.bets@.subrange(0, i as int).filter(pred),
            decreases self.bets@.len() - i,
        {
            proof {
                lemma_filter_prefix(self.bets@, i as int, pred);
            }
            if self.bets[i].creator_id == user_id {
                r.push(self.bets[i].clone());
            }
            i = i + 1;
        }
        assert(self.bets@.subrange(0, i as int) =~= self.bets@);
        r
    }

    /// The bets in the given status, in order of creation.
    pub fn get_bets_by_status(&self, status: BetStatus) -> (r: Vec<Bet>)
        ensures
            r@ == self@.bets.filter(|b: Bet| b.status == status),
    {
        let ghost pred = |b: Bet| b.status == status;
        let mut r: Vec<Bet> = Vec::new();
        let mut i: usize = 0;
        while i < self.bets.len()
            invariant
                i <= self.bets@.len(),
                pred == (|b: Bet| b.status == status),
                r@ == self.bets@.subrange(0, i as int).filter(pred),
            decreases self.bets@.len() - i,
        {
            proof {
                lemma_filter_prefix(self.bets@, i as int, pred);
            }
            if self.bets[i].status == status {
                r.push(self.bets[i].clone());
            }
            i = i + 1;
        }
        assert(self.bets@.subrange(0, i as int) =~= self.bets@);
        r
    }

    /// Closes an `Active` bet: it becomes `Finished` and takes no more stakes. A
    /// missing bet is `NotFound`; a bet in any other status is refused.
    pub fn close_bet(&mut self, bet_id: i32, now: Timestamp) -> (r: Result<Bet, Error>)
        requires
            old(self)@.wf(),
        ensures
            old(self)@.evolves_to(final(self)@),
            r is Err ==> final(self)@ == old(self)@,
            r is Ok <==> old(self)@.bet_exists(bet_id as int)
                && old(self)@.bet(bet_id as int).status == BetStatus::Active,
            r matches Err(e) ==> e == (if old(self)@.bet_exists(bet_id as int) {
                Error::PreconditionViolation
            } else {
                Error::NotFound
            }),
            r matches Ok(b) ==> b == old(self)@.bet(bet_id as int).closed(now)
                && old(self)@.bet_replaced(final(self)@, bet_id - 1, b),
    {
        if bet_id < 1 || bet_id as usize > self.bets.len() {
            return Err(Error::NotFound);
        }
        let i = (bet_id - 1) as usize;
        let mut bet = self.bets[i].clone();
        match bet.mark_finished(now) {
            Ok(()) => {},
            Err(e) => {
                return Err(e);
            },
        }
        let result = bet.clone();
        self.bets.set(i, bet);
        proof {
            let pre = old(self)@;
            let post = self@;
            assert forall|k: int| 0 <= k < post.participants.len() implies {
                let p = #[trigger] post.participants[k];
                &&& post.bet_exists(p.bet_id as int)
                &&& post.user_exists(p.user_id as int)
                &&& p.bet_amount > 0
                &&& p.paid_out == (post.bet(p.bet_id as int).status == BetStatus::PayedOut)
            } by {
                assert(pre.participants[k] == post.participants[k]);
            }
            assert(post.participants_wf());
            assert forall|k: int| 0 <= k < post.bets.len() implies {
                &&& #[trigger] post.bets[k].id == k + 1
                &&& post.user_exists(post.bets[k].creator_id as int)
                &&& post.bets[k].payout_consistent()
            } by {
                assert(pre.bets[k].id == k + 1);
            }
            assert(post.bets_wf());
        }
        Ok(result)
    }
    fn stake_index(&self, bet_id: i32, user_id: i32) -> (r: Option<usize>)
        ensures
            r matches Some(k) ==> k < self@.participants.len() && self@.participants[k as int].bet_id
                == bet_id && self@.participants[k as int].user_id == user_id,
            r is None ==> !self@.has_stake(bet_id as int, user_id as int),
    {
        let mut k: usize = 0;
        while k < self.participants.len()
            invariant
                k <= self.participants@.len(),
                forall|j: int|
                    0 <= j < k ==> !(#[trigger] self.participants@[j].bet_id == bet_id
                        && self.participants@[j].user_id == user_id),
            decreases self.participants@.len() - k,
        {
            if self.participants[k].bet_id == bet_id && self.participants[k].user_id == user_id {
                return Some(k);
            }
            k = k + 1;
        }
        None
    }

    /// Places a stake of `amount` by the user on the bet, on the side `for_bet`. The
    /// bet must be `Active`, the amount positive, and the user must not have staked
    /// on this bet before. The stake starts unpaid.
    pub fn create_bet_participant(&mut self, user_id: i32, bet_id: i32, amount: i32, for_bet: bool) -> (r: Result<BetParticipant, Error>)
        requires
            old(self)@.wf(),
        ensures
            old(self)@.evolves_to(final(self)@),
            r is Err ==> final(self)@ == old(self)@,
            r matches Err(e) ==> old(self)@.stake_error(user_id as int, bet_id as int, amount as int) == Some(e),
            r is Ok <==> old(self)@.stake_error(user_id as int, bet_id as int, amount as int).is_none(),
            r matches Ok(p) ==> p == (BetParticipant { bet_id, user_id, for_bet, bet_amount: amount, paid_out: false })
                && final(self)@.participants == old(self)@.participants.push(p)
                && final(self)@.users == old(self)@.users && final(self)@.scores == old(self)@.scores
                && final(self)@.bets == old(self)@.bets && final(self)@.friendships == old(self)@.friendships,
    {
        if user_id < 1 || user_id as usize > self.users.len() || bet_id < 1 || bet_id as usize > self.bets.len() {
            return Err(Error::NotFound);
        }
        match self.bets[(bet_id - 1) as usize].status {
            BetStatus::Active => {},
            _ => {
                return Err(Error::PreconditionViolation);
            },
        }
        if amount <= 0 || self.stake_index(bet_id, user_id).is_some() {
            return Err(Error::ConstraintViolation);
        }
        let p = BetParticipant { bet_id, user_id, for_bet, bet_amount: amount, paid_out: false };
        self.participants.push(p);
        proof {
            let pre = old(self)@;
            let post = self@;
            assert forall|k: int| 0 <= k < post.participants.len() implies {
                let q = #[trigger] post.participants[k];
                &&& post.bet_exists(q.bet_id as int)
                &&& post.user_exists(q.user_id as int)
                &&& q.bet_amount > 0
                &&& q.paid_out == (post.bet(q.bet_id as int).status == BetStatus::PayedOut)
            } by {
                if k < pre.participants.len() {
                    assert(pre.participants[k] == post.participants[k]);
                }
            }
            assert forall|k: int, l: int|
                0 <= k < post.participants.len() && 0 <= l < post.participants.len() && k != l
                    && #[trigger] post.participants[k].bet_id == #[trigger] post.participants[l].bet_id
                    implies post.participants[k].user_id != post.participants[l].user_id by {
                if k < pre.participants.len() && l < pre.participants.len() {
                    assert(pre.participants[k] == post.participants[k]);
                    assert(pre.participants[l] == post.participants[l]);
                } else if k < pre.participants.len() {
                    assert(pre.participants[k] == post.participants[k]);
                } else {
                    assert(pre.participants[l] == post.participants[l]);
                }
            }
            assert(post.participants_wf());
        }
        Ok(p)
    }

    /// The stakes on the given bet, in order of staking.
    pub fn get_bet_participants(&self, bet_id: i32) -> (r: Vec<BetParticipant>)
        ensures
            r@ == self@.participants.filter(|p: BetParticipant| p.bet_id == bet_id),
    {
        let ghost pred = |p: BetParticipant| p.bet_id == bet_id;
        let mut r: Vec<BetParticipant> = Vec::new();
        let mut i: usize = 0;
        while i < self.participants.len()
            invariant
                i <= self.participants@.len(),
                pred == (|p: BetParticipant| p.bet_id == bet_id),
                r@ == self.participants@.subrange(0, i as int).filter(pred),
            decreases self.participants@.len() - i,
        {
            proof {
                lemma_filter_prefix(self.participants@, i as int, pred);
            }
            if self.participants[i].bet_id == bet_id {
                r.push(self.participants[i]);
            }
            i = i + 1;
        }
        assert(self.participants@.subrange(0, i as int) =~= self.participants@);
        r
    }

    /// The stakes of the given user, in order of staking.
    pub fn get_bet_participants_by_bet_user(&self, user_id: i32) -> (r: Vec<BetParticipant>)
        ensures
            r@ == self@.participants.filter(|p: BetParticipant| p.user_id == user_id),
    {
        let ghost pred = |p: BetParticipant| p.user_id == user_id;
        let mut r: Vec<BetParticipant> = Vec::new();
        let mut i: usize = 0;
        while i < self.participants.len()
            invariant
                i <= self.participants@.len(),
                pred == (|p: BetParticipant| p.user_id == user_id),
                r@ == self.participants@.subrange(0, i as int).filter(pred),
            decreases self.participants@.len() - i,
        {
            proof {
                lemma_filter_prefix(self.participants@, i as int, pred);
            }
            if self.participants[i].user_id == user_id {
                r.push(self.participants[i]);
            }
            i = i + 1;
        }
        assert(self.participants@.subrange(0, i as int) =~= self.participants@);
        r
    }

    /// The first stake placed on the given bet.
    pub fn get_bet_participant_by_bet_id(&self, bet_id: i32) -> (r: Result<BetParticipant, Error>)
        ensures
            r is Ok <==> exists|k: int| 0 <= k < self@.participants.len() && #[trigger] self@.participants[k].bet_id == bet_id,
            r is Err ==> r == Err::<BetParticipant, Error>(Error::NotFound),
            r matches Ok(p) ==> exists|k: int|
                0 <= k < self@.participants.len() && #[trigger] self@.participants[k] == p && p.bet_id == bet_id
                    && forall|j: int| 0 <= j < k ==> #[trigger] self@.participants[j].bet_id != bet_id,
    {
        let mut k: usize = 0;
        while k < self.participants.len()
            invariant
                k <= self.participants@.len(),
                forall|j: int| 0 <= j < k ==> #[trigger] self.participants@[j].bet_id != bet_id,
            decreases self.participants@.len() - k,
        {
            if self.participants[k].bet_id == bet_id {
                assert(self@.participants[k as int] == self.participants@[k as int]);
                assert(forall|j: int| 0 <= j < k ==> #[trigger] self@.participants[j].bet_id != bet_id);
                return Ok(self.participants[k]);
            }
            k = k + 1;
        }
        Err(Error::NotFound)
    }
    /// Pays out a `Finished` bet against `bet_outcome` as one unit: every stake on it
    /// is settled exactly once (marked paid, and one win or one loss recorded for its
    /// user), then the bet becomes `PayedOut` with its paid-out flag and time set. A
    /// missing bet is `NotFound`; a bet in any other status is refused; if some
    /// settlement would overflow a counter, nothing is applied.
    pub fn payout_bet(&mut self, bet_id: i32, bet_outcome: bool, now: Timestamp) -> (r: Result<Bet, Error>)
        requires
            old(self)@.wf(),
        ensures
            old(self)@.evolves_to(final(self)@),
            r is Err ==> final(self)@ == old(self)@,
            r matches Err(e) ==> old(self)@.payout_error(bet_id as int, bet_outcome) == Some(e),
            r is Ok <==> old(self)@.payout_error(bet_id as int, bet_outcome).is_none(),
            r matches Ok(b) ==> b == old(self)@.bet(bet_id as int).settled(now)
                && old(self)@.paid_out_to(final(self)@, bet_id as int, bet_outcome, now),
    {
        if bet_id < 1 || bet_id as usize > self.bets.len() {
            return Err(Error::NotFound);
        }
        let bi = (bet_id - 1) as usize;
        match self.bets[bi].status {
            BetStatus::Finished => {},
            _ => {
                return Err(Error::PreconditionViolation);
            },
        }
        let ghost pre = self@;
        let mut k: usize = 0;
        while k < self.participants.len()
            invariant
                self@ == pre,
                pre.wf(),
                1 <= bet_id <= pre.bets.len(),
                pre.bet(bet_id as int).status == BetStatus::Finished,
                k <= pre.participants.len(),
                forall|j: int|
                    0 <= j < k && #[trigger] pre.participants[j].bet_id == bet_id ==> stake_fits(
                        pre.score_of(pre.participants[j].user_id as int),
                        pre.participants[j],
                        bet_outcome,
                    ),
            decreases pre.participants.len() - k,
        {
            let p = self.participants[k];
            if p.bet_id == bet_id {
                assert(pre.participants[k as int] == p);
                let s = self.scores[(p.user_id - 1) as usize];
                let fits = if p.for_bet == bet_outcome {
                    s.total_wins < i32::MAX && s.points_earned <= i32::MAX - p.bet_amount
                } else {
                    s.total_losses < i32::MAX
                };
                if !fits {
                    assert(!stake_fits(pre.score_of(p.user_id as int), pre.participants[k as int], bet_outcome));
                    assert(pre.payout_overflows(bet_id as int, bet_outcome));
                    return Err(Error::StoreFailure);
                }
            }
            k = k + 1;
        }
        assert(!pre.payout_overflows(bet_id as int, bet_outcome));
        k = 0;
        while k < self.participants.len()
            invariant
                pre.wf(),
                1 <= bet_id <= pre.bets.len(),
                pre.bet(bet_id as int).status == BetStatus::Finished,
                !pre.payout_overflows(bet_id as int, bet_outcome),
                k <= self.participants@.len(),
                self.participants@.len() == pre.participants.len(),
                self.scores@.len() == pre.scores.len(),
                self.users@ == pre.users,
                self.bets@ == pre.bets,
                self.friendships@ == pre.friendships,
                forall|j: int|
                    0 <= j < k ==> #[trigger] self.participants@[j] == (if pre.participants[j].bet_id == bet_id {
                        BetParticipant { paid_out: true, ..pre.participants[j] }
                    } else {
                        pre.participants[j]
                    }),
                forall|j: int| k <= j < pre.participants.len() ==> #[trigger] self.participants@[j] == pre.participants[j],
                forall|j: int|
                    0 <= j < k && #[trigger] pre.participants[j].bet_id == bet_id
                        ==> self.scores@[pre.participants[j].user_id - 1] == settled(
                        pre.score_of(pre.participants[j].user_id as int),
                        pre.participants[j],
                        bet_outcome,
                    ),
                forall|i: int|
                    0 <= i < pre.scores.len() && !staked_before(pre, bet_id as int, i + 1, k as int)
                        ==> #[trigger] self.scores@[i] == pre.scores[i],
                forall|i: int| 0 <= i < pre.scores.len() ==> #[trigger] self.scores@[i].user_id == i + 1,
                forall|i: int|
                    0 <= i < pre.scores.len() ==> score_not_below(pre.scores[i], #[trigger] self.scores@[i]),
            decreases pre.participants.len() - k,
        {
            if self.participants[k].bet_id == bet_id {
                let mut p = self.participants[k];
                let u = (p.user_id - 1) as usize;
                let mut s = self.scores[u];
                proof {
                    assert(p == pre.participants[k as int]);
                    assert(pre.participants_wf());
                    assert forall|j: int| 0 <= j < k && #[trigger] pre.participants[j].bet_id == bet_id
                        implies pre.participants[j].user_id != p.user_id by {
                        assert(pre.participants[j].bet_id == pre.participants[k as int].bet_id);
                    }
                    assert(!staked_before(pre, bet_id as int, u + 1, k as int));
                    assert(s == pre.scores[u as int]);
                    assert(stake_fits(pre.score_of(p.user_id as int), pre.participants[k as int], bet_outcome));
                }
                let settled_ok = payout_participant(&mut p, &mut s, bet_outcome);
                assert(settled_ok is Ok);
                self.participants.set(k, p);
                self.scores.set(u, s);
                proof {
                    assert forall|i: int|
                        0 <= i < pre.scores.len() && !staked_before(pre, bet_id as int, i + 1, k + 1)
                            implies #[trigger] self.scores@[i] == pre.scores[i] by {
                        assert(pre.participants[k as int].bet_id == bet_id);
                        if staked_before(pre, bet_id as int, i + 1, k as int) {
                            let j = choose|j: int|
                                0 <= j < k && #[trigger] pre.participants[j].bet_id == bet_id
                                    && pre.participants[j].user_id == i + 1;
                            assert(pre.participants[j].bet_id == bet_id);
                        }
                    }
                    assert forall|j: int|
                        0 <= j < k + 1 && #[trigger] pre.participants[j].bet_id == bet_id
                            implies self.scores@[pre.participants[j].user_id - 1] == settled(
                            pre.score_of(pre.participants[j].user_id as int),
                            pre.participants[j],
                            bet_outcome,
                        ) by {
                        if j < k {
                            assert(pre.participants[j].bet_id == pre.participants[k as int].bet_id);
                        }
                    }
                }
            } else {
                proof {
                    assert forall|i: int|
                        0 <= i < pre.scores.len() && !staked_before(pre, bet_id as int, i + 1, k + 1)
                            implies #[trigger] self.scores@[i] == pre.scores[i] by {
                        if staked_before(pre, bet_id as int, i + 1, k as int) {
                            let j = choose|j: int|
                                0 <= j < k && #[trigger] pre.participants[j].bet_id == bet_id
                                    && pre.participants[j].user_id == i + 1;
                            assert(pre.participants[j].bet_id == bet_id);
                        }
                    }
                }
            }
            k = k + 1;
        }
        let mut bet = self.bets[bi].clone();
        let flipped = bet.mark_paid_out(now);
        assert(flipped is Ok);
        let result = bet.clone();
        self.bets.set(bi, bet);
        proof {
            let post = self@;
            assert forall|i: int| 0 <= i < pre.scores.len() && !pre.has_stake(bet_id as int, i + 1)
                implies #[trigger] post.scores[i] == pre.scores[i] by {
                if staked_before(pre, bet_id as int, i + 1, pre.participants.len() as int) {
                    let j = choose|j: int|
                        0 <= j < pre.participants.len() && #[trigger] pre.participants[j].bet_id == bet_id
                            && pre.participants[j].user_id == i + 1;
                    assert(pre.participants[j].bet_id == bet_id);
                }
            }
            assert forall|k: int| 0 <= k < post.participants.len() implies {
                let q = #[trigger] post.participants[k];
                &&& post.bet_exists(q.bet_id as int)
                &&& post.user_exists(q.user_id as int)
                &&& q.bet_amount > 0
                &&& q.paid_out == (post.bet(q.bet_id as int).status == BetStatus::PayedOut)
            } by {
                assert(pre.participants[k].bet_id == post.participants[k].bet_id);
            }
            assert forall|k: int, l: int|
                0 <= k < post.participants.len() && 0 <= l < post.participants.len() && k != l
                    && #[trigger] post.participants[k].bet_id == #[trigger] post.participants[l].bet_id
                    implies post.participants[k].user_id != post.participants[l].user_id by {
                assert(pre.participants[k].bet_id == post.participants[k].bet_id);
                assert(pre.participants[l].bet_id == post.participants[l].bet_id);
            }
            assert(post.participants_wf());
            assert forall|i: int| 0 <= i < post.bets.len() implies {
                &&& #[trigger] post.bets[i].id == i + 1
                &&& post.user_exists(post.bets[i].creator_id as int)
                &&& post.bets[i].payout_consistent()
            } by {
                assert(pre.bets[i].id == i + 1);
            }
            assert(post.bets_wf());
            assert(post.users_wf());
            assert(post.friendships_wf());
            assert(pre.bets_advance_to(post));
            assert(pre.scores_grow_to(post));
        }
        Ok(result)
    }
    fn edge_index(&self, from: i32, to: i32) -> (r: Option<usize>)
        requires
            self@.wf(),
        ensures
            r matches Some(k) ==> k < self@.friendships.len() && self@.friendships[k as int].user_id == from
                && self@.friendships[k as int].friend_id == to && self@.edge_at(from as int, to as int) == k,
            r is None ==> !self@.has_edge(from as int, to as int),
    {
        let mut k: usize = 0;
        while k < self.friendships.len()
            invariant
                self@.wf(),
                k <= self.friendships@.len(),
                forall|j: int|
                    0 <= j < k ==> !(#[trigger] self.friendships@[j].user_id == from
                        && self.friendships@[j].friend_id == to),
            decreases self.friendships@.len() - k,
        {
            if self.friendships[k].user_id == from && self.friendships[k].friend_id == to {
                proof {
                    let v = self@;
                    assert(v.friendships == self.friendships@);
                    assert(v.friendships[k as int].user_id == from && v.friendships[k as int].friend_id == to);
                    let c = v.edge_at(from as int, to as int);
                    assert(0 <= c < v.friendships.len() && v.friendships[c].user_id == from
                        && v.friendships[c].friend_id == to);
                    assert(v.friendships_wf());
                    if c != k {
                        assert(v.friendships[c].user_id == v.friendships[k as int].user_id);
                    }
                }
                return Some(k);
            }
            k = k + 1;
        }
        None
    }

    /// Sends a friend request: a new pending edge from `sender_id` to `recipient_id`.
    /// Both users must exist, and there must be no edge in that direction yet.
    pub fn send_friend_request(&mut self, sender_id: i32, recipient_id: i32, now: Timestamp) -> (r: Result<Friendship, Error>)
        requires
            old(self)@.wf(),
        ensures
            old(self)@.evolves_to(final(self)@),
            r is Err ==> final(self)@ == old(self)@,
            r matches Err(e) ==> old(self)@.send_error(sender_id as int, recipient_id as int) == Some(e),
            r is Ok <==> old(self)@.send_error(sender_id as int, recipient_id as int).is_none(),
            r matches Ok(f) ==> f == Friendship::request(sender_id, recipient_id, now)
                && old(self)@.request_sent(final(self)@, sender_id as int, recipient_id as int, now),
    {
        if sender_id < 1 || sender_id as usize > self.users.len() || recipient_id < 1 || recipient_id as usize
            > self.users.len() {
            return Err(Error::NotFound);
        }
        if self.edge_index(sender_id, recipient_id).is_some() {
            return Err(Error::ConstraintViolation);
        }
        let f = Friendship {
            user_id: sender_id,
            friend_id: recipient_id,
            status: FriendshipStatus::Pending,
            created_at: now,
            responded_at: None,
        };
        self.friendships.push(f);
        proof {
            let pre = old(self)@;
            let post = self@;
            assert forall|k: int, l: int|
                0 <= k < post.friendships.len() && 0 <= l < post.friendships.len() && k != l
                    && #[trigger] post.friendships[k].user_id == #[trigger] post.friendships[l].user_id
                    implies post.friendships[k].friend_id != post.friendships[l].friend_id by {
                if k < pre.friendships.len() && l < pre.friendships.len() {
                    assert(pre.friendships[k] == post.friendships[k]);
                    assert(pre.friendships[l] == post.friendships[l]);
                } else if k < pre.friendships.len() {
                    assert(pre.friendships[k] == post.friendships[k]);
                } else {
                    assert(pre.friendships[l] == post.friendships[l]);
                }
            }
            assert forall|k: int| 0 <= k < post.friendships.len() implies {
                let e = #[trigger] post.friendships[k];
                &&& post.user_exists(e.user_id as int)
                &&& post.user_exists(e.friend_id as int)
                &&& (e.status == FriendshipStatus::Pending) == e.responded_at.is_none()
            } by {
                if k < pre.friendships.len() {
                    assert(pre.friendships[k] == post.friendships[k]);
                }
            }
            assert(post.friendships_wf());
        }
        Ok(f)
    }

    /// The edge from `sender_id` to `recipient_id`.
    pub fn get_friendship(&self, sender_id: i32, recipient_id: i32) -> (r: Result<Friendship, Error>)
        requires
            self@.wf(),
        ensures
            r is Ok <==> self@.has_edge(sender_id as int, recipient_id as int),
            r is Err ==> r == Err::<Friendship, Error>(Error::NotFound),
            r matches Ok(f) ==> f == self@.edge(sender_id as int, recipient_id as int) && f.user_id == sender_id
                && f.friend_id == recipient_id,
    {
        match self.edge_index(sender_id, recipient_id) {
            Some(k) => Ok(self.friendships[k]),
            None => Err(Error::NotFound),
        }
    }

    /// Every edge that the given user requested, whatever its status.
    pub fn get_friendships(&self, user_id: i32) -> (r: Vec<Friendship>)
        ensures
            r@ == self@.friendships.filter(|f: Friendship| f.user_id == user_id),
    {
        let ghost pred = |f: Friendship| f.user_id == user_id;
        let mut r: Vec<Friendship> = Vec::new();
        let mut i: usize = 0;
        while i < self.friendships.len()
            invariant
                i <= self.friendships@.len(),
                pred == (|f: Friendship| f.user_id == user_id),
                r@ == self.friendships@.subrange(0, i as int).filter(pred),
            decreases self.friendships@.len() - i,
        {
            proof {
                lemma_filter_prefix(self.friendships@, i as int, pred);
            }
            if self.friendships[i].user_id == user_id {
                r.push(self.friendships[i]);
            }
            i = i + 1;
        }
        assert(self.friendships@.subrange(0, i as int) =~= self.friendships@);
        r
    }

    /// The accepted edges that start at the given user.
    pub fn get_accepted_friendships(&self, user_id: i32) -> (r: Vec<Friendship>)
        ensures
            r@ == self@.friendships.filter(
                |f: Friendship| f.user_id == user_id && f.status == FriendshipStatus::Accepted,
            ),
    {
        let ghost pred = |f: Friendship| f.user_id == user_id && f.status == FriendshipStatus::Accepted;
        let mut r: Vec<Friendship> = Vec::new();
        let mut i: usize = 0;
        while i < self.friendships.len()
            invariant
                i <= self.friendships@.len(),
                pred == (|f: Friendship| f.user_id == user_id && f.status == FriendshipStatus::Accepted),
                r@ == self.friendships@.subrange(0, i as int).filter(pred),
            decreases self.friendships@.len() - i,
        {
            proof {
                lemma_filter_prefix(self.friendships@, i as int, pred);
            }
            let f = self.friendships[i];
            if f.user_id == user_id && f.status == FriendshipStatus::Accepted {
                r.push(f);
            }
            i = i + 1;
        }
        assert(self.friendships@.subrange(0, i as int) =~= self.friendships@);
        r
    }

    /// `user_id` answers the pending request that `responding_to` sent them. The
    /// request takes the answer and its time. An acceptance also makes the edge in the
    /// other direction accepted: an existing one (say, the recipient's own request
    /// to the requester) takes that status and time, otherwise a new accepted edge is
    /// added; that edge is returned beside the answered one. A missing request is
    /// `NotFound`, and one that is no longer pending is refused.
    pub fn respond_to_friend_request(
        &mut self,
        user_id: i32,
        responding_to: i32,
        response: FriendRequestResponse,
        now: Timestamp,
    ) -> (r: Result<(Friendship, Option<Friendship>), Error>)
        requires
            old(self)@.wf(),
        ensures
            old(self)@.evolves_to(final(self)@),
            r is Err ==> final(self)@ == old(self)@,
            r matches Err(e) ==> old(self)@.respond_error(user_id as int, responding_to as int, response) == Some(e),
            r is Ok <==> old(self)@.respond_error(user_id as int, responding_to as int, response).is_none(),
            r matches Ok((answered, reverse)) ==> {
                let edge = old(self)@.edge(responding_to as int, user_id as int);
                &&& answered == edge.answered(response, now)
                &&& reverse == (match response {
                    FriendRequestResponse::Accept => Some(
                        if old(self)@.has_edge(user_id as int, responding_to as int) {
                            old(self)@.edge(user_id as int, responding_to as int).accepted_at(now)
                        } else {
                            edge.reverse_accepted(now)
                        },
                    ),
                    FriendRequestResponse::Reject => None,
                })
                &&& old(self)@.request_answered(final(self)@, user_id as int, responding_to as int, response, now)
            },
    {
        let k = match self.edge_index(responding_to, user_id) {
            Some(k) => k,
            None => {
                return Err(Error::NotFound);
            },
        };
        match self.friendships[k].status {
            FriendshipStatus::Pending => {},
            _ => {
                return Err(Error::PreconditionViolation);
            },
        }
        let reverse_index = match response {
            FriendRequestResponse::Accept => self.edge_index(user_id, responding_to),
            FriendRequestResponse::Reject => None,
        };
        let mut edge = self.friendships[k];
        let fresh = match edge.respond(response, now) {
            Ok(fresh) => fresh,
            Err(e) => {
                return Err(e);
            },
        };
        self.friendships.set(k, edge);
        let ghost mid = self.friendships@;
        let reverse = match fresh {
            Some(f) => match reverse_index {
                Some(j) => {
                    let prior = self.friendships[j];
                    let accepted = Friendship {
                        user_id: prior.user_id,
                        friend_id: prior.friend_id,
                        status: FriendshipStatus::Accepted,
                        created_at: prior.created_at,
                        responded_at: Some(now),
                    };
                    self.friendships.set(j, accepted);
                    Some(accepted)
                },
                None => {
                    self.friendships.push(f);
                    Some(f)
                },
            },
            None => None,
        };
        proof {
            let pre = old(self)@;
            let post = self@;
            let n = pre.friendships.len();
            assert(mid == pre.friendships.update(k as int, pre.friendships[k as int].answered(response, now)));
            assert forall|a: int, b: int|
                0 <= a < post.friendships.len() && 0 <= b < post.friendships.len() && a != b
                    && #[trigger] post.friendships[a].user_id == #[trigger] post.friendships[b].user_id
                    implies post.friendships[a].friend_id != post.friendships[b].friend_id by {
                if a < n && b < n {
                    assert(pre.friendships[a].user_id == post.friendships[a].user_id);
                    assert(pre.friendships[b].user_id == post.friendships[b].user_id);
                    assert(pre.friendships[a].friend_id == post.friendships[a].friend_id);
                    assert(pre.friendships[b].friend_id == post.friendships[b].friend_id);
                } else if a < n {
                    assert(pre.friendships[a].user_id == post.friendships[a].user_id);
                    assert(pre.friendships[a].friend_id == post.friendships[a].friend_id);
                    if post.friendships[a].friend_id == post.friendships[b].friend_id {
                        assert(pre.has_edge(user_id as int, responding_to as int));
                    }
                } else {
                    assert(pre.friendships[b].user_id == post.friendships[b].user_id);
                    assert(pre.friendships[b].friend_id == post.friendships[b].friend_id);
                    if post.friendships[a].friend_id == post.friendships[b].friend_id {
                        assert(pre.has_edge(user_id as int, responding_to as int));
                    }
                }
            }
            assert forall|a: int| 0 <= a < post.friendships.len() implies {
                let e = #[trigger] post.friendships[a];
                &&& post.user_exists(e.user_id as int)
                &&& post.user_exists(e.friend_id as int)
                &&& (e.status == FriendshipStatus::Pending) == e.responded_at.is_none()
            } by {
                assert(pre.friendships[k as int] == pre.friendships[k as int]);
                if a < n {
                    assert(pre.friendships[a].user_id == post.friendships[a].user_id);
                    assert(pre.friendships[a].friend_id == post.friendships[a].friend_id);
                    if a != k && (reverse_index is None || a != reverse_index.unwrap()) {
                        assert(pre.friendships[a] == post.friendships[a]);
                    }
                }
            }
            assert(post.friendships_wf());
            assert(post.users_wf());
            assert(post.bets_wf());
            assert(post.participants_wf());
            match response {
                FriendRequestResponse::Accept => {
                    if pre.has_edge(user_id as int, responding_to as int) {
                        let j = reverse_index.unwrap();
                        assert(post.friendships =~= mid.update(
                            j as int,
                            pre.friendships[j as int].accepted_at(now),
                        ));
                    } else {
                        assert(post.friendships =~= mid.push(pre.friendships[k as int].reverse_accepted(now)));
                    }
                },
                FriendRequestResponse::Reject => {
                    assert(post.friendships =~= mid);
                },
            }
        }
        Ok((edge, reverse))
    }
    /// Every stake of the given user, in order of staking, each beside the bet it
    /// was placed on.
    pub fn get_bets_with_user(&self, user_id: i32) -> (r: Vec<(Bet, BetParticipant)>)
        requires
            self@.wf(),
        ensures
            r@ == self@.participants.filter(|p: BetParticipant| p.user_id == user_id).map_values(
                |p: BetParticipant| (self@.bet(p.bet_id as int), p),
            ),
    {
        let ghost pred = |p: BetParticipant| p.user_id == user_id;
        let ghost join = |p: BetParticipant| (self@.bet(p.bet_id as int), p);
        let mut r: Vec<(Bet, BetParticipant)> = Vec::new();
        let mut i: usize = 0;
        while i < self.participants.len()
            invariant
                self@.wf(),
                i <= self.participants@.len(),
                pred == (|p: BetParticipant| p.user_id == user_id),
                join == (|p: BetParticipant| (self@.bet(p.bet_id as int), p)),
                r@ == self.participants@.subrange(0, i as int).filter(pred).map_values(join),
            decreases self.participants@.len() - i,
        {
            proof {
                lemma_filter_prefix(self.participants@, i as int, pred);
            }
            let p = self.participants[i];
            if p.user_id == user_id {
                proof {
                    assert(self@.participants[i as int] == p);
                }
                let bet = self.bets[(p.bet_id - 1) as usize].clone();
                let ghost before = self.participants@.subrange(0, i as int).filter(pred);
                r.push((bet, p));
                assert(before.push(p).map_values(join) =~= before.map_values(join).push(join(p)));
            }
            i = i + 1;
        }
        assert(self.participants@.subrange(0, i as int) =~= self.participants@);
        r
    }
}

} // verus!
