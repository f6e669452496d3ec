use vstd::prelude::*;

use crate::model::{BetParticipant, Error, Score};

verus! {

/// The stake wins when it was placed on the side that the outcome resolved to.
pub open spec fn stake_wins(p: BetParticipant, outcome: bool) -> bool {
    p.for_bet == outcome
}

/// A fresh record of zeros for the user.
pub open spec fn default_score(user_id: i32) -> Score {
    Score { user_id, total_wins: 0, total_losses: 0, points_earned: 0 }
}

/// The record after one more win worth `amount` points.
pub open spec fn after_win(s: Score, amount: int) -> Score {
    Score {
        user_id: s.user_id,
        total_wins: (s.total_wins + 1) as i32,
        total_losses: s.total_losses,
        points_earned: (s.points_earned + amount) as i32,
    }
}

/// The record after one more loss.
pub open spec fn after_loss(s: Score) -> Score {
    Score {
        user_id: s.user_id,
        total_wins: s.total_wins,
        total_losses: (s.total_losses + 1) as i32,
        points_earned: s.points_earned,
    }
}

/// A win worth `amount` still fits the record's counters.
pub open spec fn win_fits(s: Score, amount: int) -> bool {
    s.total_wins + 1 <= i32::MAX && s.points_earned + amount <= i32::MAX
}

/// A loss still fits the record's counters.
pub open spec fn loss_fits(s: Score) -> bool {
    s.total_losses + 1 <= i32::MAX
}

/// No counter of `b` is below that of `a`.
pub open spec fn score_not_below(a: Score, b: Score) -> bool {
    &&& b.user_id == a.user_id
    &&& b.total_wins >= a.total_wins
    &&& b.total_losses >= a.total_losses
    &&& b.points_earned >= a.points_earned
}

/// The record of `p`'s user once `p` is settled against `outcome`.
pub open spec fn settled(s: Score, p: BetParticipant, outcome: bool) -> Score {
    if stake_wins(p, outcome) {
        after_win(s, p.bet_amount as int)
    } else {
        after_loss(s)
    }
}

/// Why settling the (unpaid) stake `p` into `s` fails, if it does.
pub open spec fn record_error(s: Score, p: BetParticipant, win: bool) -> Option<Error> {
    if s.user_id != p.user_id {
        Some(Error::NotFound)
    } else if p.bet_amount <= 0 {
        Some(Error::ConstraintViolation)
    } else if win && !win_fits(s, p.bet_amount as int) {
        Some(Error::StoreFailure)
    } else if !win && !loss_fits(s) {
        Some(Error::StoreFailure)
    } else {
        None
    }
}

/// Why settling `p` into `s` against `outcome` fails, if it does.
pub open spec fn settle_error(s: Score, p: BetParticipant, outcome: bool) -> Option<Error> {
    if p.paid_out {
        Some(Error::PreconditionViolation)
    } else {
        record_error(s, p, stake_wins(p, outcome))
    }
}

/// Creates the all-zero score record that every new user starts with.
pub fn create_default_score(user_id: i32) -> (r: Score)
    ensures
        r == default_score(user_id),
{
    Score { user_id, total_wins: 0, total_losses: 0, points_earned: 0 }
}

/// Credits a winning stake: one more win, and the stake's amount added to the points.
pub fn update_score_winning_bet(score: &mut Score, participant: &BetParticipant) -> (r: Result<(), Error>)
    ensures
        r.is_err() <==> record_error(*old(score), *participant, true).is_some(),
        r matches Err(e) ==> record_error(*old(score), *participant, true) == Some(e)
            && *final(score) == *old(score),
        r is Ok ==> *final(score) == after_win(*old(score), participant.bet_amount as int),
        score_not_below(*old(score), *final(score)),
{
    if score.user_id != participant.user_id {
        return Err(Error::NotFound);
    }
    if participant.bet_amount <= 0 {
        return Err(Error::ConstraintViolation);
    }
    if score.total_wins == i32::MAX || score.points_earned > i32::MAX - participant.bet_amount {
        return Err(Error::StoreFailure);
    }
    score.total_wins = score.total_wins + 1;
    score.points_earned = score.points_earned + participant.bet_amount;
    Ok(())
}

/// Records a losing stake: one more loss, points unchanged.
pub fn update_score_losing_bet(score: &mut Score, participant: &BetParticipant) -> (r: Result<(), Error>)
    ensures
        r.is_err() <==> record_error(*old(score), *participant, false).is_some(),
        r matches Err(e) ==> record_error(*old(score), *participant, false) == Some(e)
            && *final(score) == *old(score),
        r is Ok ==> *final(score) == after_loss(*old(score)),
        score_not_below(*old(score), *final(score)),
{
    if score.user_id != participant.user_id {
        return Err(Error::NotFound);
    }
    if participant.bet_amount <= 0 {
        return Err(Error::ConstraintViolation);
    }
    if score.total_losses == i32::MAX {
        return Err(Error::StoreFailure);
    }
    score.total_losses = score.total_losses + 1;
    Ok(())
}

/// Settles one stake against the bet's outcome: the stake is marked paid and its
/// user's record gains one win (with the stake's amount in points) or one loss.
/// A stake that is already paid is refused, so no stake is ever counted twice;
/// on any error neither the stake nor the record changes.
pub fn payout_participant(participant: &mut BetParticipant, score: &mut Score, bet_outcome: bool) -> (r: Result<(), Error>)
    ensures
        r.is_err() <==> settle_error(*old(score), *old(participant), bet_outcome).is_some(),
        r matches Err(e) ==> settle_error(*old(score), *old(participant), bet_outcome) == Some(e)
            && *final(score) == *old(score) && *final(participant) == *old(participant),
        r is Ok ==> *final(score) == settled(*old(score), *old(participant), bet_outcome)
            && *final(participant) == (BetParticipant { paid_out: true, ..*old(participant) }),
        score_not_below(*old(score), *final(score)),
{
    if participant.paid_out {
        return Err(Error::PreconditionViolation);
    }
    let win = participant.for_bet == bet_outcome;
    let recorded = if win {
        update_score_winning_bet(score, participant)
    } else {
        update_score_losing_bet(score, participant)
    };
    match recorded {
        Ok(()) => {
            participant.paid_out = true;
            Ok(())
        },
        Err(e) => Err(e),
    }
}

} // verus!
