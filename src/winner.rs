use vstd::prelude::*;

use crate::competition::{
    next_round_expiry, next_round_expiry_ok, settlement_complete_error, winner_error, Competition,
    CompetitionRoundStatus,
};
use crate::competitor::Competitor;
use crate::error::{CompetitionResult, ErrorCode};
use crate::market::{InsuranceFund, SpotMarket};
use crate::math::PERCENTAGE_PRECISION;
use crate::utils::{
    apply_rebase_to_competition_prize, apply_rebase_to_competitor_unclaimed_winnings, rebase_error,
    rebase_ok, rebased_competition, rebased_competitor,
};

verus! {

/// Places that receive a fixed part of the prize when there are more than
/// three winners.
pub const TOP_PLACES: u32 = 3;

/// `a + b`, staying at the maximum.
pub open spec fn saturating_add(a: u128, b: u128) -> u128 {
    if a + b > u128::MAX {
        u128::MAX
    } else {
        (a + b) as u128
    }
}

/// Whether the next winner draw can be derived without overflow.
pub open spec fn next_winner_randomness_ok(c: Competition) -> bool {
    &&& c.number_of_winners > 0
    &&& c.total_score_settled as int / (c.number_of_winners as int) + 1 <= u128::MAX
    &&& c.prize_randomness * c.number_of_winners_settled <= u128::MAX
    &&& (c.total_score_settled as int / (c.number_of_winners as int) + 1) * (c.prize_randomness
        * c.number_of_winners_settled) <= u128::MAX
}

/// The offset of the next winner draw: a product of the round's figures, plus
/// 17, mixed by exclusive or with the prize draw and the current draw shifted
/// left by three bits.
pub open spec fn winner_randomness_offset(c: Competition) -> u128 {
    let product = ((c.total_score_settled as int / (c.number_of_winners as int) + 1) * (
    c.prize_randomness * c.number_of_winners_settled)) as u128;
    saturating_add(product, 17) ^ c.prize_randomness ^ (c.winner_randomness << 3u128)
}

/// The winner draw for the next place: the current draw plus the offset,
/// modulo the ticket count plus one, and at least 1.
pub open spec fn next_winner_randomness(c: Competition) -> u128 {
    let m = saturating_add(c.winner_randomness, winner_randomness_offset(c)) % saturating_add(
        c.total_score_settled,
        1,
    );
    if m < 1 {
        1
    } else {
        m
    }
}

/// Part of the prize (in millionths) for the next place when there are more
/// than three winners: 50%, 20% and 15% for the first three, and an equal
/// split of the remaining 15% for the others.
pub open spec fn winner_prize_ratio(c: Competition) -> int {
    if c.number_of_winners_settled == 0 {
        500_000
    } else if c.number_of_winners_settled == 1 {
        200_000
    } else if c.number_of_winners_settled == 2 {
        150_000
    } else {
        150_000int / (c.number_of_winners - 3)
    }
}

/// Whether the next place's prize can be computed.
pub open spec fn next_winner_prize_ok(c: Competition) -> bool {
    &&& c.number_of_winners > 0
    &&& c.number_of_winners > 3 ==> c.prize_amount * winner_prize_ratio(c) <= u128::MAX
    &&& c.prize_amount_settled <= c.prize_amount
}

/// The next place's prize: an equal split for up to three winners, else its
/// fixed part; never more than what remains of the prize.
pub open spec fn next_winner_prize(c: Competition) -> int {
    let share = if c.number_of_winners <= 3 {
        c.prize_amount as int / (c.number_of_winners as int)
    } else {
        c.prize_amount * winner_prize_ratio(c) / 1_000_000
    };
    let remaining = c.prize_amount - c.prize_amount_settled;
    if share < remaining {
        share
    } else {
        remaining
    }
}

/// Result of settling `w` as the next winner, with the competition and the
/// competitor after it; a failed step changes neither.
pub open spec fn winner_settlement(c: Competition, w: Competitor, f: InsuranceFund) -> (
    CompetitionResult,
    Competition,
    Competitor,
) {
    if c.number_of_winners == c.number_of_winners_settled {
        if c.status == CompetitionRoundStatus::WinnerAndPrizeRandomnessComplete {
            (
                Ok(()),
                Competition { status: CompetitionRoundStatus::WinnerSettlementComplete, ..c },
                w,
            )
        } else {
            (Err(ErrorCode::InvalidStatusUpdateDetected), c, w)
        }
    } else if winner_error(c, w) is Some {
        (Err(winner_error(c, w).unwrap()), c, w)
    } else if w.unclaimed_winnings != 0 && !rebase_ok(
        w.unclaimed_winnings_base,
        f.shares_base,
        u64::MAX as int,
    ) {
        (Err(rebase_error(w.unclaimed_winnings_base, f.shares_base)), c, w)
    } else if !rebase_ok(c.prize_base, f.shares_base, u128::MAX as int) {
        (Err(rebase_error(c.prize_base, f.shares_base)), c, w)
    } else {
        let w1 = if w.unclaimed_winnings != 0 {
            rebased_competitor(w, f.shares_base)
        } else {
            w
        };
        let c1 = rebased_competition(c, f.shares_base);
        let amount = next_winner_prize(c1);
        if !next_winner_prize_ok(c1) || amount > u64::MAX || c1.prize_amount_settled + amount
            > u128::MAX || c1.number_of_winners_settled == u32::MAX {
            (Err(ErrorCode::DriftError), c, w)
        } else {
            let c2 = Competition {
                outstanding_unclaimed_winnings: saturating_add(
                    c1.outstanding_unclaimed_winnings,
                    amount as u128,
                ),
                prize_amount_settled: (c1.prize_amount_settled + amount) as u128,
                number_of_winners_settled: (c1.number_of_winners_settled + 1) as u32,
                ..c1
            };
            let w2 = Competitor {
                unclaimed_winnings: if w1.unclaimed_winnings + amount > u64::MAX {
                    u64::MAX
                } else {
                    (w1.unclaimed_winnings + amount) as u64
                },
                unclaimed_winnings_base: c1.prize_base,
                bonus_score: if c.number_of_winners_settled < 3 || c.number_of_winners <= 5 {
                    0
                } else {
                    w1.bonus_score
                },
                ..w1
            };
            if !(c2.number_of_winners_settled <= c2.number_of_winners) {
                (Err(ErrorCode::CompetitionInvariantIssue), c, w)
            } else if c2.number_of_winners_settled == c2.number_of_winners {
                (
                    Ok(()),
                    Competition { status: CompetitionRoundStatus::WinnerSettlementComplete, ..c2 },
                    w2,
                )
            } else if !next_winner_randomness_ok(c2) {
                (Err(ErrorCode::DriftError), c, w)
            } else {
                (Ok(()), Competition { winner_randomness: next_winner_randomness(c2), ..c2 }, w2)
            }
        }
    }
}

/// The competition after a successful round reset at `now`.
pub open spec fn reset_competition(c: Competition, now: i64) -> Competition {
    Competition {
        number_of_winners_settled: 0,
        total_score_settled: 0,
        number_of_competitors_settled: 0,
        round_number: (c.round_number + 1) as u64,
        next_round_expiry_ts: next_round_expiry(
            c.next_round_expiry_ts as int,
            c.round_duration as int,
            now as int,
        ) as i64,
        winner_randomness: 0,
        prize_randomness: 0,
        prize_randomness_max: 0,
        prize_amount: 0,
        prize_amount_settled: 0,
        status: CompetitionRoundStatus::Active,
        ..c
    }
}

/// Result of resetting the round at `now`, with the competition after it.
pub open spec fn round_reset(c: Competition, now: i64) -> (CompetitionResult, Competition) {
    if settlement_complete_error(c) is Some {
        (Err(settlement_complete_error(c).unwrap()), c)
    } else if c.round_number == u64::MAX || !next_round_expiry_ok(c, now) {
        (Err(ErrorCode::DriftError), c)
    } else {
        (Ok(()), reset_competition(c, now))
    }
}

impl Competition {
    /// Derives the winner draw of the next place from the current one, so
    /// that one oracle draw yields a reproducible sequence of winners.
    pub fn calculate_next_winner_randomness(&self) -> (r: CompetitionResult<u128>)
        ensures
            r is Ok <==> next_winner_randomness_ok(*self),
            r matches Ok(v) ==> v == next_winner_randomness(*self),
            r matches Ok(v) ==> 1 <= v && (v <= self.total_score_settled || v == 1),
            r matches Err(e) ==> e == ErrorCode::DriftError,
    {
        let nw = self.number_of_winners as u128;
        if nw == 0 {
            return Err(ErrorCode::DriftError);
        }
        let per_winner = self.total_score_settled / nw;
        if per_winner == u128::MAX {
            return Err(ErrorCode::DriftError);
        }
        let draws = match self.prize_randomness.checked_mul(self.number_of_winners_settled as u128) {
            Some(d) => d,
            None => {
                return Err(ErrorCode::DriftError);
            },
        };
        let product = match (per_winner + 1).checked_mul(draws) {
            Some(p) => p,
            None => {
                return Err(ErrorCode::DriftError);
            },
        };
        let offset = product.saturating_add(17) ^ self.prize_randomness ^ (self.winner_randomness
            << 3u128);
        let next = self.winner_randomness.saturating_add(offset)
            % self.total_score_settled.saturating_add(1);
        if next < 1 {
            Ok(1)
        } else {
            Ok(next)
        }
    }

    /// The prize of the next place, in pool shares.
    pub fn calculate_next_winner_prize_amount(&self) -> (r: CompetitionResult<u128>)
        ensures
            r is Ok <==> next_winner_prize_ok(*self),
            r matches Ok(v) ==> v == next_winner_prize(*self),
            r matches Err(e) ==> e == ErrorCode::DriftError,
    {
        if self.number_of_winners == 0 {
            return Err(ErrorCode::DriftError);
        }
        let share = if self.number_of_winners <= TOP_PLACES {
            // equal split when there are few winners
            self.prize_amount / (self.number_of_winners as u128)
        } else {
            let ratio: u128 = if self.number_of_winners_settled == 0 {
                500_000
            } else if self.number_of_winners_settled == 1 {
                200_000
            } else if self.number_of_winners_settled == 2 {
                150_000
            } else {
                // the consolation places split what the top three leave
                150_000 / ((self.number_of_winners - TOP_PLACES) as u128)
            };
            match self.prize_amount.checked_mul(ratio) {
                Some(p) => p / PERCENTAGE_PRECISION,
                None => {
                    return Err(ErrorCode::DriftError);
                },
            }
        };
        if self.prize_amount_settled > self.prize_amount {
            return Err(ErrorCode::DriftError);
        }
        let remaining = self.prize_amount - self.prize_amount_settled;
        if share < remaining {
            Ok(share)
        } else {
            Ok(remaining)
        }
    }
    /// Settles the next place: checks that `competitor` holds the drawn
    /// ticket, brings its winnings and the prize to the pool's current share
    /// base, credits the place's prize and derives the next draw. The round
    /// moves to `WinnerSettlementComplete` with its last winner, or when
    /// called once every place is settled.
    pub fn settle_winner(&mut self, competitor: &mut Competitor, spot_market: &SpotMarket) -> (r:
        CompetitionResult)
        ensures
            (r, *final(self), *final(competitor)) == winner_settlement(
                *old(self),
                *old(competitor),
                spot_market.insurance_fund,
            ),
    {
        if self.number_of_winners == self.number_of_winners_settled {
            if self.status != CompetitionRoundStatus::WinnerAndPrizeRandomnessComplete {
                return Err(ErrorCode::InvalidStatusUpdateDetected);
            }
            self.status = CompetitionRoundStatus::WinnerSettlementComplete;
            return Ok(());
        }
        self.validate_competitor_is_winner(competitor)?;
        let mut winner = *competitor;
        if winner.unclaimed_winnings != 0 {
            apply_rebase_to_competitor_unclaimed_winnings(&mut winner, spot_market)?;
        }
        let mut next = *self;
        apply_rebase_to_competition_prize(&mut next, spot_market)?;
        let amount = next.calculate_next_winner_prize_amount()?;
        if amount > u64::MAX as u128 {
            return Err(ErrorCode::DriftError);
        }
        let prize_amount_settled = match next.prize_amount_settled.checked_add(amount) {
            Some(v) => v,
            None => {
                return Err(ErrorCode::DriftError);
            },
        };
        if next.number_of_winners_settled == u32::MAX {
            return Err(ErrorCode::DriftError);
        }
        winner.unclaimed_winnings = winner.unclaimed_winnings.saturating_add(amount as u64);
        winner.unclaimed_winnings_base = next.prize_base;
        // winners of consolation places in a large draw keep their bonus
        if self.number_of_winners_settled < TOP_PLACES || self.number_of_winners <= 5 {
            winner.bonus_score = 0;
        }
        next.outstanding_unclaimed_winnings = next.outstanding_unclaimed_winnings.saturating_add(
            amount,
        );
        next.prize_amount_settled = prize_amount_settled;
        next.number_of_winners_settled = next.number_of_winners_settled + 1;
        if next.number_of_winners_settled > next.number_of_winners {
            return Err(ErrorCode::CompetitionInvariantIssue);
        }
        if next.number_of_winners == next.number_of_winners_settled {
            next.status = CompetitionRoundStatus::WinnerSettlementComplete;
        } else {
            next.winner_randomness = next.calculate_next_winner_randomness()?;
        }
        *self = next;
        *competitor = winner;
        Ok(())
    }

    /// Starts the next round once every winner is settled: clears the round's
    /// counters and draws, advances the round number and the round end.
    pub fn reset_round(&mut self, now: i64) -> (r: CompetitionResult)
        ensures
            (r, *final(self)) == round_reset(*old(self), now),
    {
        self.validate_round_settlement_complete()?;
        if self.round_number == u64::MAX {
            return Err(ErrorCode::DriftError);
        }
        let next_round_expiry_ts = self.calculate_next_round_expiry_ts(now)?;
        self.number_of_winners_settled = 0;
        self.total_score_settled = 0;
        self.number_of_competitors_settled = 0;
        self.round_number = self.round_number + 1;
        self.next_round_expiry_ts = next_round_expiry_ts;
        self.winner_randomness = 0;
        self.prize_randomness = 0;
        self.prize_randomness_max = 0;
        self.prize_amount = 0;
        self.prize_amount_settled = 0;
        self.status = CompetitionRoundStatus::Active;
        Ok(())
    }
}

} // verus!
