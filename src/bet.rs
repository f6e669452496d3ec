use vstd::prelude::*;

use crate::model::{Bet, BetStatus, Error, Timestamp};

verus! {

impl Bet {
    /// A new bet of `creator_id`, open for stakes.
    pub open spec fn fresh(id: i32, creator_id: i32, description: String, stop_bets_at: Option<Timestamp>, now: Timestamp) -> Bet {
        Bet {
            id,
            creator_id,
            description,
            status: BetStatus::Active,
            stop_bets_at,
            created_at: now,
            updated_at: now,
            paid_out: false,
            paid_out_at: None,
        }
    }

    /// The bet once closed at `now`.
    pub open spec fn closed(self, now: Timestamp) -> Bet {
        Bet { status: BetStatus::Finished, updated_at: now, ..self }
    }

    /// The bet once paid out at `now`.
    pub open spec fn settled(self, now: Timestamp) -> Bet {
        Bet { status: BetStatus::PayedOut, updated_at: now, paid_out: true, paid_out_at: Some(now), ..self }
    }

    /// Stops this row from taking stakes: `Active` becomes `Finished`. Any other
    /// status is refused and the row is left as it was. Closing a stored bet is
    /// `Bet::close` (or `Store::close_bet`).
    pub fn mark_finished(&mut self, now: Timestamp) -> (r: Result<(), Error>)
        ensures
            r is Ok <==> old(self).status == BetStatus::Active,
            r is Ok ==> *final(self) == old(self).closed(now),
            r is Err ==> r == Err::<(), Error>(Error::PreconditionViolation) && *final(self) == *old(self),
    {
        match self.status {
            BetStatus::Active => {
                self.status = BetStatus::Finished;
                self.updated_at = now;
                Ok(())
            },
            _ => Err(Error::PreconditionViolation),
        }
    }

    /// Moves this `Finished` row to its terminal state `PayedOut`, setting the
    /// paid-out flag and its timestamp together. Any other status is refused and the
    /// row is left as it was. Paying out a stored bet, stakes included, is
    /// `Bet::payout` (or `Store::payout_bet`).
    pub fn mark_paid_out(&mut self, now: Timestamp) -> (r: Result<(), Error>)
        ensures
            r is Ok <==> old(self).status == BetStatus::Finished,
            r is Ok ==> *final(self) == old(self).settled(now),
            r is Err ==> r == Err::<(), Error>(Error::PreconditionViolation) && *final(self) == *old(self),
    {
        match self.status {
            BetStatus::Finished => {
                self.status = BetStatus::PayedOut;
                self.updated_at = now;
                self.paid_out = true;
                self.paid_out_at = Some(now);
                Ok(())
            },
            _ => Err(Error::PreconditionViolation),
        }
    }
}

} // verus!
