use vstd::prelude::*;

use crate::error::{CompetitionResult, ErrorCode};

verus! {

/// Whether a participant takes part in the draws.
#[derive(Clone, Copy, Debug, PartialEq, Eq, Structural)]
pub enum CompetitorStatus {
    Active,
    Disqualified,
}

/// One participant's record in one competition.
#[derive(Clone, Copy, Debug, PartialEq, Eq)]
pub struct Competitor {
    pub authority: [u8; 32],
    pub competition: [u8; 32],
    pub user_stats: [u8; 32],
    /// Tickets of the current round: the half-open range `(min_draw, max_draw]`.
    pub min_draw: u128,
    pub max_draw: u128,
    /// Share base at which `unclaimed_winnings` was last counted.
    pub unclaimed_winnings_base: u128,
    pub unclaimed_winnings: u64,
    /// Round this record is synchronised to.
    pub competition_round_number: u64,
    /// Watermarks of the external cumulative score.
    pub previous_snapshot_score: u64,
    pub latest_snapshot_score: u64,
    /// Tickets carried over, or claimed without trading.
    pub bonus_score: u64,
    pub status: CompetitorStatus,
}

impl Default for CompetitorStatus {
    fn default() -> (r: Self)
        ensures
            r == CompetitorStatus::Active,
    {
        CompetitorStatus::Active
    }
}

/// An all-zero identity.
pub open spec fn is_zero_key(k: [u8; 32]) -> bool {
    forall|i: int| 0 <= i < 32 ==> #[trigger] k@[i] == 0
}

impl Default for Competitor {
    fn default() -> (r: Self)
        ensures
            is_zero_key(r.authority) && is_zero_key(r.competition) && is_zero_key(r.user_stats),
            r.min_draw == 0 && r.max_draw == 0 && r.unclaimed_winnings_base == 0,
            r.unclaimed_winnings == 0 && r.competition_round_number == 0,
            r.previous_snapshot_score == 0 && r.latest_snapshot_score == 0,
            r.bonus_score == 0,
            r.status == CompetitorStatus::Active,
    {
        Competitor {
            authority: [0u8; 32],
            competition: [0u8; 32],
            user_stats: [0u8; 32],
            min_draw: 0,
            max_draw: 0,
            unclaimed_winnings_base: 0,
            unclaimed_winnings: 0,
            competition_round_number: 0,
            previous_snapshot_score: 0,
            latest_snapshot_score: 0,
            bonus_score: 0,
            status: CompetitorStatus::Active,
        }
    }
}

} // verus!

verus! {

/// Fee units that make one ticket: ten cents of fees at six decimals.
pub const FEE_PER_TICKET: u64 = 100;

/// Tickets that a cumulative fee total is worth.
pub open spec fn snapshot_score(total_fee_paid: u64) -> int {
    total_fee_paid as int / 100
}

impl Competitor {
    pub fn is_active(&self) -> (r: CompetitionResult<bool>)
        ensures
            r == Ok::<bool, ErrorCode>(self.status == CompetitorStatus::Active),
    {
        Ok(self.status == CompetitorStatus::Active)
    }

    /// The external cumulative score, `total_fee_paid`, in tickets.
    pub fn calculate_snapshot_score(&self, total_fee_paid: u64) -> (r: u64)
        ensures
            r == snapshot_score(total_fee_paid),
    {
        total_fee_paid / FEE_PER_TICKET
    }

    /// Tickets earned since the last watermark, plus the carried-over bonus.
    pub fn calculate_round_score(&self, total_fee_paid: u64) -> (r: CompetitionResult<u64>)
        ensures
            r is Ok <==> (self.previous_snapshot_score <= snapshot_score(total_fee_paid)
                && snapshot_score(total_fee_paid) - self.previous_snapshot_score + self.bonus_score
                <= u64::MAX),
            r matches Ok(v) ==> v == snapshot_score(total_fee_paid) - self.previous_snapshot_score
                + self.bonus_score,
            r matches Err(e) ==> e == ErrorCode::DriftError,
    {
        let current = self.calculate_snapshot_score(total_fee_paid);
        if current < self.previous_snapshot_score {
            return Err(ErrorCode::DriftError);
        }
        match (current - self.previous_snapshot_score).checked_add(self.bonus_score) {
            Some(v) => Ok(v),
            None => Err(ErrorCode::DriftError),
        }
    }

    /// Takes one free ticket for the next settlement.
    pub fn claim_entry(&mut self) -> (r: CompetitionResult)
        ensures
            r is Ok,
            *final(self) == (Competitor {
                bonus_score: if old(self).bonus_score < u64::MAX {
                    (old(self).bonus_score + 1) as u64
                } else {
                    old(self).bonus_score
                },
                ..*old(self)
            }),
    {
        self.bonus_score = self.bonus_score.saturating_add(1);
        Ok(())
    }
}

} // verus!
