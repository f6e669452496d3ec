use vstd::prelude::*;

use crate::model::{status_after, BetParticipant, BetStatus, Error, FriendRequestResponse, FriendshipStatus, Timestamp};
use crate::score::{score_not_below, settle_error, stake_wins};
use crate::store::{stake_fits, StoreView};

verus! {

/// Over any run of operations, each bet's status only moves forward along
/// Active, Finished, PayedOut: a bet that exists at one state exists at every later
/// state, with a status at least as far along. (Each single step keeps the status
/// or takes the next one, which `bets_advance_to` states.)
pub proof fn lemma_bet_status_never_regresses(states: Seq<StoreView>, i: int, j: int, b: int)
    requires
        forall|n: int|
            #![trigger states[n]]
            0 <= n < states.len() - 1 ==> states[n].bets_advance_to(states[n + 1]),
        0 <= i <= j < states.len(),
        0 <= b < states[i].bets.len(),
    ensures
        b < states[j].bets.len(),
        states[i].bets[b].status.rank() <= states[j].bets[b].status.rank(),
    decreases j - i,
{
    if i < j {
        lemma_bet_status_never_regresses(states, i, j - 1, b);
        let n = j - 1;
        assert(states[n].bets_advance_to(states[n + 1]));
        assert(states[n].bets[b].status.may_become(states[j].bets[b].status));
    }
}

/// Over any run of operations, no score counter ever decreases: a record that
/// exists at one state exists at every later state, with at least as many wins,
/// losses and points.
pub proof fn lemma_scores_never_decrease(states: Seq<StoreView>, i: int, j: int, u: int)
    requires
        forall|n: int|
            #![trigger states[n]]
            0 <= n < states.len() - 1 ==> states[n].scores_grow_to(states[n + 1]),
        0 <= i <= j < states.len(),
        0 <= u < states[i].scores.len(),
    ensures
        u < states[j].scores.len(),
        score_not_below(states[i].scores[u], states[j].scores[u]),
    decreases j - i,
{
    if i < j {
        lemma_scores_never_decrease(states, i, j - 1, u);
        let n = j - 1;
        assert(states[n].scores_grow_to(states[n + 1]));
        assert(score_not_below(states[n].scores[u], states[j].scores[u]));
    }
}

/// A bet is paid out at most once: once a payout succeeded, every stake of the bet
/// is marked paid (so settling any of them again is refused), and a second payout
/// of the bet, whatever its outcome, is refused as a precondition violation, which
/// leaves the store, and so every score, unchanged.
pub proof fn lemma_payout_exactly_once(
    before: StoreView,
    after: StoreView,
    bet_id: int,
    outcome: bool,
    now: Timestamp,
    second_outcome: bool,
)
    requires
        before.wf(),
        before.payout_error(bet_id, outcome).is_none(),
        before.paid_out_to(after, bet_id, outcome, now),
    ensures
        after.bet(bet_id).status == BetStatus::PayedOut,
        after.payout_error(bet_id, second_outcome) == Some(Error::PreconditionViolation),
        forall|k: int|
            0 <= k < after.participants.len() && #[trigger] after.participants[k].bet_id == bet_id ==> {
                &&& after.participants[k].paid_out
                &&& settle_error(after.score_of(after.participants[k].user_id as int), after.participants[k], second_outcome)
                    == Some(Error::PreconditionViolation)
            },
{
    assert forall|k: int|
        0 <= k < after.participants.len() && #[trigger] after.participants[k].bet_id == bet_id
            implies after.participants[k].paid_out by {
        assert(after.participants[k] == (if before.participants[k].bet_id == bet_id {
            crate::model::BetParticipant { paid_out: true, ..before.participants[k] }
        } else {
            before.participants[k]
        }));
    }
}

/// A friend request from `a` to `b` adds one pending edge from `a` to `b`; `b` can
/// then answer it. Accepting makes that edge accepted and adds an accepted edge
/// from `b` to `a`; rejecting makes it rejected and leaves no edge from `b` to `a`.
/// This holds between two distinct users where no edge from `b` to `a` existed
/// before the request.
pub proof fn lemma_friend_request_answered(
    s0: StoreView,
    s1: StoreView,
    s2: StoreView,
    a: int,
    b: int,
    response: FriendRequestResponse,
    sent_at: Timestamp,
    answered_at: Timestamp,
)
    requires
        s0.wf(),
        s1.wf(),
        s0.send_error(a, b).is_none(),
        a != b,
        !s0.has_edge(b, a),
        s0.request_sent(s1, a, b, sent_at),
        s1.request_answered(s2, b, a, response, answered_at),
    ensures
        s1.friendships.len() == s0.friendships.len() + 1,
        s1.has_edge(a, b),
        s1.edge(a, b).status == FriendshipStatus::Pending,
        s1.respond_error(b, a, response).is_none(),
        s2.has_edge(a, b),
        s2.edge(a, b).status == status_after(response),
        response == FriendRequestResponse::Accept ==> s2.has_edge(b, a) && s2.edge(b, a).status
            == FriendshipStatus::Accepted,
        response == FriendRequestResponse::Reject ==> !s2.has_edge(b, a),
{
    let n = s0.friendships.len() as int;
    assert(s1.friendships[n].user_id == a && s1.friendships[n].friend_id == b);
    let k = s1.edge_at(a, b);
    if k != n {
        assert(s1.friendships[k].user_id == s1.friendships[n].user_id);
    }
    assert(k == n);
    if s1.has_edge(b, a) {
        let j = choose|j: int|
            0 <= j < s1.friendships.len() && #[trigger] s1.friendships[j].user_id == b
                && s1.friendships[j].friend_id == a;
        if j < n {
            assert(s0.friendships[j] == s1.friendships[j]);
            assert(s0.has_edge(b, a));
        }
    }
    assert(!s1.has_edge(b, a));
    assert(s2.friendships[n].user_id == a && s2.friendships[n].friend_id == b);
    assert(s2.friendships[n].status == status_after(response));
    let k2 = s2.edge_at(a, b);
    if k2 != n {
        if k2 < s1.friendships.len() {
            assert(s1.friendships[k2].user_id == s1.friendships[n].user_id);
        } else {
            assert(s2.friendships[k2] == s1.friendships[n].reverse_accepted(answered_at));
        }
    }
    match response {
        FriendRequestResponse::Accept => {
            let m = n + 1;
            assert(s2.friendships[m].user_id == b && s2.friendships[m].friend_id == a);
            let k3 = s2.edge_at(b, a);
            if k3 != m {
                if k3 == n {
                } else {
                    assert(s1.friendships[k3].user_id == b);
                }
            }
        },
        FriendRequestResponse::Reject => {
            if s2.has_edge(b, a) {
                let j = choose|j: int|
                    0 <= j < s2.friendships.len() && #[trigger] s2.friendships[j].user_id == b
                        && s2.friendships[j].friend_id == a;
                if j != n {
                    assert(s1.friendships[j].user_id == b);
                }
            }
        },
    }
}

/// How many stakes of `user_id` on `bet_id` in `s` win (`won`) or lose (`!won`)
/// against `outcome`.
pub open spec fn stake_count(s: Seq<BetParticipant>, bet_id: int, user_id: int, outcome: bool, won: bool) -> int
    decreases s.len(),
{
    if s.len() == 0 {
        0
    } else {
        let p = s.last();
        stake_count(s.drop_last(), bet_id, user_id, outcome, won) + (if p.bet_id == bet_id && p.user_id
            == user_id && stake_wins(p, outcome) == won {
            1int
        } else {
            0int
        })
    }
}

/// The summed amounts of the stakes of `user_id` on `bet_id` in `s` that win
/// against `outcome`.
pub open spec fn won_amount(s: Seq<BetParticipant>, bet_id: int, user_id: int, outcome: bool) -> int
    decreases s.len(),
{
    if s.len() == 0 {
        0
    } else {
        let p = s.last();
        won_amount(s.drop_last(), bet_id, user_id, outcome) + (if p.bet_id == bet_id && p.user_id == user_id
            && stake_wins(p, outcome) {
            p.bet_amount as int
        } else {
            0int
        })
    }
}

/// No user holds two stakes on one bet in `s`.
pub open spec fn one_stake_per_user(s: Seq<BetParticipant>) -> bool {
    forall|k: int, l: int|
        0 <= k < s.len() && 0 <= l < s.len() && k != l && #[trigger] s[k].bet_id == #[trigger] s[l].bet_id
            ==> s[k].user_id != s[l].user_id
}

/// With one stake per user and bet, the count and sum above see at most that stake.
proof fn lemma_single_stake(s: Seq<BetParticipant>, bet_id: int, user_id: int, outcome: bool)
    requires
        one_stake_per_user(s),
    ensures
        forall|won: bool|
            #[trigger] stake_count(s, bet_id, user_id, outcome, won) == (if exists|k: int|
                0 <= k < s.len() && #[trigger] s[k].bet_id == bet_id && s[k].user_id == user_id
                    && stake_wins(s[k], outcome) == won {
                1int
            } else {
                0int
            }),
        won_amount(s, bet_id, user_id, outcome) == (if exists|k: int|
            0 <= k < s.len() && #[trigger] s[k].bet_id == bet_id && s[k].user_id == user_id && stake_wins(
                s[k],
                outcome,
            ) {
            s[choose|k: int|
                0 <= k < s.len() && #[trigger] s[k].bet_id == bet_id && s[k].user_id == user_id && stake_wins(
                    s[k],
                    outcome,
                )].bet_amount as int
        } else {
            0int
        }),
    decreases s.len(),
{
    if s.len() > 0 {
        let t = s.drop_last();
        let n = s.len() - 1;
        assert forall|k: int, l: int|
            0 <= k < t.len() && 0 <= l < t.len() && k != l && #[trigger] t[k].bet_id == #[trigger] t[l].bet_id
                implies t[k].user_id != t[l].user_id by {
            assert(s[k].bet_id == s[l].bet_id);
        }
        lemma_single_stake(t, bet_id, user_id, outcome);
        let p = s[n];
        if p.bet_id == bet_id && p.user_id == user_id {
            assert forall|k: int| 0 <= k < t.len() implies !(#[trigger] t[k].bet_id == bet_id && t[k].user_id
                == user_id) by {
                if t[k].bet_id == bet_id && t[k].user_id == user_id {
                    assert(s[k] == t[k]);
                    assert(s[k].bet_id == s[n].bet_id);
                }
            }
        } else {
            assert forall|k: int|
                0 <= k < s.len() && #[trigger] s[k].bet_id == bet_id && s[k].user_id == user_id implies k < n
                    && t[k] == s[k] by {}
        }
        assert forall|won: bool|
            #[trigger] stake_count(s, bet_id, user_id, outcome, won) == (if exists|k: int|
                0 <= k < s.len() && #[trigger] s[k].bet_id == bet_id && s[k].user_id == user_id
                    && stake_wins(s[k], outcome) == won {
                1int
            } else {
                0int
            }) by {
            assert(stake_count(t, bet_id, user_id, outcome, won) == (if exists|k: int|
                0 <= k < t.len() && #[trigger] t[k].bet_id == bet_id && t[k].user_id == user_id
                    && stake_wins(t[k], outcome) == won {
                1int
            } else {
                0int
            }));
            if p.bet_id == bet_id && p.user_id == user_id && stake_wins(p, outcome) == won {
                assert(s[n].bet_id == bet_id);
            } else if exists|k: int|
                0 <= k < t.len() && #[trigger] t[k].bet_id == bet_id && t[k].user_id == user_id
                    && stake_wins(t[k], outcome) == won {
                let k = choose|k: int|
                    0 <= k < t.len() && #[trigger] t[k].bet_id == bet_id && t[k].user_id == user_id
                        && stake_wins(t[k], outcome) == won;
                assert(s[k] == t[k]);
            }
        }
        if p.bet_id == bet_id && p.user_id == user_id && stake_wins(p, outcome) {
            assert(s[n].bet_id == bet_id);
            let c = choose|k: int|
                0 <= k < s.len() && #[trigger] s[k].bet_id == bet_id && s[k].user_id == user_id && stake_wins(
                    s[k],
                    outcome,
                );
            if c != n {
                assert(s[c].bet_id == s[n].bet_id);
            }
        } else if exists|k: int|
            0 <= k < t.len() && #[trigger] t[k].bet_id == bet_id && t[k].user_id == user_id && stake_wins(
                t[k],
                outcome,
            ) {
            let k = choose|k: int|
                0 <= k < t.len() && #[trigger] t[k].bet_id == bet_id && t[k].user_id == user_id && stake_wins(
                    t[k],
                    outcome,
                );
            assert(s[k] == t[k]);
            let c = choose|k: int|
                0 <= k < s.len() && #[trigger] s[k].bet_id == bet_id && s[k].user_id == user_id && stake_wins(
                    s[k],
                    outcome,
                );
            if c != k {
                assert(s[c].bet_id == s[k].bet_id);
            }
        }
    }
}

/// Paying out a bet settles each of its stakes exactly once: for every user, the
/// wins gained equal the number of that user's winning stakes on the bet, the
/// losses gained equal the number of losing ones, the points gained equal the
/// summed amounts of the winning ones, so wins and losses together grow by the
/// number of that user's stakes on the bet.
pub proof fn lemma_payout_counts(
    before: StoreView,
    after: StoreView,
    bet_id: int,
    outcome: bool,
    now: Timestamp,
    user_id: int,
)
    requires
        before.wf(),
        before.payout_error(bet_id, outcome).is_none(),
        before.paid_out_to(after, bet_id, outcome, now),
        before.user_exists(user_id),
    ensures
        after.score_of(user_id).total_wins - before.score_of(user_id).total_wins == stake_count(
            before.participants,
            bet_id,
            user_id,
            outcome,
            true,
        ),
        after.score_of(user_id).total_losses - before.score_of(user_id).total_losses == stake_count(
            before.participants,
            bet_id,
            user_id,
            outcome,
            false,
        ),
        after.score_of(user_id).points_earned - before.score_of(user_id).points_earned == won_amount(
            before.participants,
            bet_id,
            user_id,
            outcome,
        ),
        (after.score_of(user_id).total_wins - before.score_of(user_id).total_wins) + (after.score_of(
            user_id,
        ).total_losses - before.score_of(user_id).total_losses) == before.participants.filter(
            |p: BetParticipant| p.bet_id == bet_id && p.user_id == user_id,
        ).len(),
{
    let s = before.participants;
    assert(one_stake_per_user(s));
    lemma_single_stake(s, bet_id, user_id, outcome);
    assert(stake_count(s, bet_id, user_id, outcome, true) == stake_count(s, bet_id, user_id, outcome, true));
    assert(stake_count(s, bet_id, user_id, outcome, false) == stake_count(s, bet_id, user_id, outcome, false));
    lemma_filter_single(s, bet_id, user_id);
    if before.has_stake(bet_id, user_id) {
        let k = choose|k: int|
            0 <= k < s.len() && #[trigger] s[k].bet_id == bet_id && s[k].user_id == user_id;
        assert(s[k].bet_id == bet_id);
        assert(!before.payout_overflows(bet_id, outcome));
        assert(stake_fits(before.score_of(user_id), s[k], outcome));
        if stake_wins(s[k], outcome) {
            let c = choose|j: int|
                0 <= j < s.len() && #[trigger] s[j].bet_id == bet_id && s[j].user_id == user_id && stake_wins(
                    s[j],
                    outcome,
                );
            if c != k {
                assert(s[c].bet_id == s[k].bet_id);
            }
        } else {
            assert(forall|j: int|
                0 <= j < s.len() && #[trigger] s[j].bet_id == bet_id && s[j].user_id == user_id ==> j == k
                    || s[j].bet_id != s[k].bet_id || s[j].user_id != s[k].user_id);
        }
    } else {
        assert(after.scores[user_id - 1] == before.scores[user_id - 1]);
    }
}

/// With one stake per user and bet, a user has one stake on a bet or none.
proof fn lemma_filter_single(s: Seq<BetParticipant>, bet_id: int, user_id: int)
    requires
        one_stake_per_user(s),
    ensures
        s.filter(|p: BetParticipant| p.bet_id == bet_id && p.user_id == user_id).len() == (if exists|k: int|
            0 <= k < s.len() && #[trigger] s[k].bet_id == bet_id && s[k].user_id == user_id {
            1int
        } else {
            0int
        }),
    decreases s.len(),
{
    reveal(Seq::filter);
    if s.len() > 0 {
        let t = s.drop_last();
        let n = s.len() - 1;
        assert forall|k: int, l: int|
            0 <= k < t.len() && 0 <= l < t.len() && k != l && #[trigger] t[k].bet_id == #[trigger] t[l].bet_id
                implies t[k].user_id != t[l].user_id by {
            assert(s[k].bet_id == s[l].bet_id);
        }
        lemma_filter_single(t, bet_id, user_id);
        if s[n].bet_id == bet_id && s[n].user_id == user_id {
            assert forall|k: int| 0 <= k < t.len() implies !(#[trigger] t[k].bet_id == bet_id && t[k].user_id
                == user_id) by {
                if t[k].bet_id == bet_id && t[k].user_id == user_id {
                    assert(s[k] == t[k]);
                    assert(s[k].bet_id == s[n].bet_id);
                }
            }
        } else if exists|k: int| 0 <= k < t.len() && #[trigger] t[k].bet_id == bet_id && t[k].user_id == user_id {
            let k = choose|k: int| 0 <= k < t.len() && #[trigger] t[k].bet_id == bet_id && t[k].user_id == user_id;
            assert(s[k] == t[k]);
        } else {
            assert forall|k: int|
                0 <= k < s.len() && #[trigger] s[k].bet_id == bet_id implies s[k].user_id != user_id by {
                if k < n {
                    assert(s[k] == t[k]);
                }
            }
        }
    }
}

} // verus!
