use vstd::prelude::*;

use crate::competition::{resolved_error, Competition, CompetitionRoundStatus};
use crate::error::{CompetitionResult, ErrorCode};
use crate::market::{InsuranceFund, SpotMarket};
use crate::math::{
    amount_for_shares, div_ceil, if_shares_to_vault_amount, safe_div_ceil,
    shares_for_amount, shares_for_amount_ok, vault_amount_to_if_shares, PERCENTAGE_PRECISION_U64,
    QUOTE_PRECISION,
};

verus! {

/// Cap of the smallest prize bucket: 1,000 quote tokens.
pub const SMALL_PRIZE_CAP: u128 = 1000 * QUOTE_PRECISION;

/// Cap of the middle prize bucket: 5,000 quote tokens.
pub const MEDIUM_PRIZE_CAP: u128 = 5000 * QUOTE_PRECISION;

/// Pool shares owned by the protocol and not yet promised to past winners.
pub open spec fn protocol_owned_shares(c: Competition, f: InsuranceFund) -> int {
    if f.total_shares - f.user_shares > c.outstanding_unclaimed_winnings {
        f.total_shares - f.user_shares - c.outstanding_unclaimed_winnings
    } else {
        0
    }
}

/// Token value of the protocol-owned shares.
pub open spec fn protocol_owned_amount(c: Competition, f: InsuranceFund, vault_balance: u64) -> int {
    amount_for_shares(protocol_owned_shares(c, f), f.total_shares as int, vault_balance as int)
}

/// The protocol-owned amount above the sponsor's floor.
pub open spec fn amount_above_floor(c: Competition, f: InsuranceFund, vault_balance: u64) -> int {
    let a = protocol_owned_amount(c, f, vault_balance);
    if a > c.sponsor_info.min_sponsor_amount {
        a - c.sponsor_info.min_sponsor_amount
    } else {
        0
    }
}

/// Whether the largest prize can be computed on these values.
pub open spec fn sponsor_max_prize_ok(c: Competition, f: InsuranceFund, vault_balance: u64) -> bool {
    &&& f.user_shares <= f.total_shares
    &&& amount_above_floor(c, f, vault_balance) * c.sponsor_info.max_sponsor_fraction <= u64::MAX
}

/// The largest prize: the sponsor's fraction of what lies above the floor.
pub open spec fn sponsor_max_prize(c: Competition, f: InsuranceFund, vault_balance: u64) -> int {
    amount_above_floor(c, f, vault_balance) * c.sponsor_info.max_sponsor_fraction / 1_000_000
}

/// The three prize sizes, ascending: at most 1,000 tokens and a tenth of the
/// largest prize; at most 5,000 tokens and half of it; the largest prize.
pub open spec fn prize_buckets(max_prize: int) -> Seq<int> {
    seq![
        if SMALL_PRIZE_CAP < max_prize / 10 { SMALL_PRIZE_CAP as int } else { max_prize / 10 },
        if MEDIUM_PRIZE_CAP < max_prize / 2 { MEDIUM_PRIZE_CAP as int } else { max_prize / 2 },
        max_prize,
    ]
}

/// Sum of the three buckets.
pub open spec fn bucket_sum(max_prize: int) -> int {
    prize_buckets(max_prize)[0] + prize_buckets(max_prize)[1] + prize_buckets(max_prize)[2]
}

/// The odds weight of a bucket: the inverse of its part of the bucket sum,
/// rounded up or down; 0 for an empty bucket.
pub open spec fn bucket_ratio(sum: int, bucket: int, round_up: bool) -> int {
    if bucket <= 0 {
        0
    } else if round_up {
        div_ceil(sum, bucket)
    } else {
        sum / bucket
    }
}

/// Odds weights of the buckets: rounded up for the two small ones and down for
/// the largest, so that the largest prize is never made likelier.
pub open spec fn prize_ratios(max_prize: int) -> Seq<int> {
    seq![
        bucket_ratio(bucket_sum(max_prize), prize_buckets(max_prize)[0], true),
        bucket_ratio(bucket_sum(max_prize), prize_buckets(max_prize)[1], true),
        bucket_ratio(bucket_sum(max_prize), prize_buckets(max_prize)[2], false),
    ]
}

/// Sum of the three odds weights: the range of the prize draw.
pub open spec fn ratio_sum(ratios: Seq<int>) -> int {
    ratios[0] + ratios[1] + ratios[2]
}

/// The first bucket whose cumulative weight reaches `draw`; 3 when none does.
pub open spec fn selected_bucket(ratios: Seq<int>, draw: int) -> int {
    if draw <= ratios[0] {
        0
    } else if draw <= ratios[0] + ratios[1] {
        1
    } else if draw <= ratios[0] + ratios[1] + ratios[2] {
        2
    } else {
        3
    }
}

/// The prize draw brought back into range where the bounds shrank after it
/// was requested.
pub open spec fn effective_draw(draw: u128, draw_max: u128, sum: int) -> int {
    if sum < draw_max {
        draw as int % sum
    } else {
        draw as int
    }
}

/// What `calculate_prize_amount` gives: the drawn prize in pool shares and
/// the index of its bucket, or why there is none.
pub open spec fn prize_outcome(c: Competition, f: InsuranceFund, vault_balance: u64) -> CompetitionResult<(u128, usize)> {
    if !sponsor_max_prize_ok(c, f, vault_balance) {
        Err(ErrorCode::DriftError)
    } else {
        let m = sponsor_max_prize(c, f, vault_balance);
        let sum = ratio_sum(prize_ratios(m));
        if sum < c.prize_randomness_max && sum == 0 {
            Err(ErrorCode::DriftError)
        } else {
            let i = selected_bucket(
                prize_ratios(m),
                effective_draw(c.prize_randomness, c.prize_randomness_max, sum),
            );
            if i >= 3 {
                Err(ErrorCode::CompetitionWinnerNotDetermined)
            } else if !shares_for_amount_ok(
                prize_buckets(m)[i],
                f.total_shares as int,
                vault_balance as int,
            ) {
                Err(ErrorCode::DriftError)
            } else {
                Ok(
                    (
                        shares_for_amount(
                            prize_buckets(m)[i],
                            f.total_shares as int,
                            vault_balance as int,
                        ) as u128,
                        i as usize,
                    ),
                )
            }
        }
    }
}

/// The buckets never exceed the largest prize, and each odds weight stays
/// below the bucket sum plus one.
pub proof fn lemma_ratios_bounded(m: int)
    requires
        0 <= m <= u64::MAX,
    ensures
        forall|i: int| 0 <= i < 3 ==> 0 <= #[trigger] prize_buckets(m)[i] <= m,
        0 <= bucket_sum(m) <= 3 * m,
        forall|i: int| 0 <= i < 3 ==> 0 <= #[trigger] prize_ratios(m)[i] <= bucket_sum(m) + 1,
{
    let s = bucket_sum(m);
    assert forall|i: int| 0 <= i < 3 implies 0 <= #[trigger] prize_ratios(m)[i] <= s + 1 by {
        let b = prize_buckets(m)[i];
        if b > 0 {
            vstd::arithmetic::div_mod::lemma_div_is_ordered_by_denominator(s, 1, b);
            vstd::arithmetic::div_mod::lemma_div_pos_is_pos(s, b);
        }
    }
}

/// Prize buckets and their odds weights for a largest prize of `max_prize`.
pub fn prize_buckets_and_ratios(max_prize: u64) -> (r: ([u128; 3], [u128; 3]))
    ensures
        forall|i: int| 0 <= i < 3 ==> #[trigger] r.0@[i] == prize_buckets(max_prize as int)[i],
        forall|i: int| 0 <= i < 3 ==> #[trigger] r.1@[i] == prize_ratios(max_prize as int)[i],
{
    let m = max_prize as u128;
    let b0 = if SMALL_PRIZE_CAP < m / 10 {
        SMALL_PRIZE_CAP
    } else {
        m / 10
    };
    let b1 = if MEDIUM_PRIZE_CAP < m / 2 {
        MEDIUM_PRIZE_CAP
    } else {
        m / 2
    };
    let b2 = m;
    let sum = b0 + b1 + b2;
    // round up for the two smaller buckets and down for the largest
    let r0 = if b0 > 0 {
        match safe_div_ceil(sum, b0) {
            Some(v) => v,
            None => 0,
        }
    } else {
        0
    };
    let r1 = if b1 > 0 {
        match safe_div_ceil(sum, b1) {
            Some(v) => v,
            None => 0,
        }
    } else {
        0
    };
    let r2 = if b2 > 0 {
        sum / b2
    } else {
        0
    };
    let buckets = [b0, b1, b2];
    let ratios = [r0, r1, r2];
    assert(forall|i: int| 0 <= i < 3 ==> #[trigger] buckets@[i] == prize_buckets(max_prize as int)[i]);
    assert(forall|i: int| 0 <= i < 3 ==> #[trigger] ratios@[i] == prize_ratios(max_prize as int)[i]);
    (buckets, ratios)
}

impl Competition {
    /// The largest prize that the sponsor allows at the current pool state:
    /// its fraction of the protocol-owned pool value (minus outstanding
    /// winnings) above its floor.
    pub fn calculate_sponsor_max_prize(&self, spot_market: &SpotMarket, vault_balance: u64) -> (r:
        CompetitionResult<u64>)
        ensures
            r is Ok <==> sponsor_max_prize_ok(*self, spot_market.insurance_fund, vault_balance),
            r matches Ok(v) ==> v == sponsor_max_prize(
                *self,
                spot_market.insurance_fund,
                vault_balance,
            ),
            r matches Err(e) ==> e == ErrorCode::DriftError,
    {
        let f = &spot_market.insurance_fund;
        if f.user_shares > f.total_shares {
            return Err(ErrorCode::DriftError);
        }
        let shares = (f.total_shares - f.user_shares).saturating_sub(
            self.outstanding_unclaimed_winnings,
        );
        let amount = if_shares_to_vault_amount(shares, f.total_shares, vault_balance)?;
        let above_floor = amount.saturating_sub(self.sponsor_info.min_sponsor_amount);
        match above_floor.checked_mul(self.sponsor_info.max_sponsor_fraction) {
            Some(p) => Ok(p / PERCENTAGE_PRECISION_U64),
            None => Err(ErrorCode::DriftError),
        }
    }

    /// Prize buckets and odds weights at the current pool state.
    pub fn calculate_prize_buckets_and_ratios(
        &self,
        spot_market: &SpotMarket,
        vault_balance: u64,
    ) -> (r: CompetitionResult<([u128; 3], [u128; 3])>)
        ensures
            r is Ok <==> sponsor_max_prize_ok(*self, spot_market.insurance_fund, vault_balance),
            r matches Ok(v) ==> forall|i: int|
                0 <= i < 3 ==> #[trigger] v.0@[i] == prize_buckets(
                    sponsor_max_prize(*self, spot_market.insurance_fund, vault_balance),
                )[i],
            r matches Ok(v) ==> forall|i: int|
                0 <= i < 3 ==> #[trigger] v.1@[i] == prize_ratios(
                    sponsor_max_prize(*self, spot_market.insurance_fund, vault_balance),
                )[i],
            r matches Err(e) ==> e == ErrorCode::DriftError,
    {
        let max_prize = self.calculate_sponsor_max_prize(spot_market, vault_balance)?;
        Ok(prize_buckets_and_ratios(max_prize))
    }
    /// Draws the prize: walks the buckets accumulating their odds weights and
    /// takes the first whose cumulative weight reaches the prize draw, in pool
    /// shares at the current pool state. Where the draw's range shrank since
    /// it was requested, the draw is first taken modulo the new range.
    pub fn calculate_prize_amount(&self, spot_market: &SpotMarket, vault_balance: u64) -> (r:
        CompetitionResult<(u128, usize)>)
        ensures
            r == prize_outcome(*self, spot_market.insurance_fund, vault_balance),
    {
        let (buckets, ratios) = self.calculate_prize_buckets_and_ratios(
            spot_market,
            vault_balance,
        )?;
        proof {
            lemma_ratios_bounded(
                sponsor_max_prize(*self, spot_market.insurance_fund, vault_balance),
            );
            assert(ratios@[0] == prize_ratios(
                sponsor_max_prize(*self, spot_market.insurance_fund, vault_balance),
            )[0]);
            assert(ratios@[1] == prize_ratios(
                sponsor_max_prize(*self, spot_market.insurance_fund, vault_balance),
            )[1]);
            assert(ratios@[2] == prize_ratios(
                sponsor_max_prize(*self, spot_market.insurance_fund, vault_balance),
            )[2]);
        }
        let sum = ratios[0] + ratios[1] + ratios[2];
        // the pool changed since the draw was requested
        let draw = if sum < self.prize_randomness_max {
            if sum == 0 {
                return Err(ErrorCode::DriftError);
            }
            self.prize_randomness % sum
        } else {
            self.prize_randomness
        };
        let mut cumulative: u128 = ratios[0];
        let mut i: usize = 0;
        if draw > cumulative {
            cumulative = cumulative + ratios[1];
            i = 1;
            if draw > cumulative {
                cumulative = cumulative + ratios[2];
                i = 2;
                if draw > cumulative {
                    return Err(ErrorCode::CompetitionWinnerNotDetermined);
                }
            }
        }
        proof {
            assert(buckets@[i as int] == prize_buckets(
                sponsor_max_prize(*self, spot_market.insurance_fund, vault_balance),
            )[i as int]);
        }
        let shares = vault_amount_to_if_shares(
            buckets[i] as u64,
            spot_market.insurance_fund.total_shares,
            vault_balance,
        )?;
        Ok((shares, i))
    }

    /// Fixes the round's prize from the prize draw, with the share base it is
    /// counted in.
    pub fn resolve_prize_amount(&mut self, spot_market: &SpotMarket, vault_balance: u64) -> (r:
        CompetitionResult)
        ensures
            prize_outcome(*old(self), spot_market.insurance_fund, vault_balance) matches Ok(v)
                ==> r is Ok && *final(self) == (Competition {
                prize_amount: v.0,
                prize_base: spot_market.insurance_fund.shares_base,
                ..*old(self)
            }),
            prize_outcome(*old(self), spot_market.insurance_fund, vault_balance) matches Err(e)
                ==> r == Err::<(), ErrorCode>(e) && *final(self) == *old(self),
    {
        let (prize, _) = self.calculate_prize_amount(spot_market, vault_balance)?;
        self.prize_amount = prize;
        self.prize_base = spot_market.insurance_fund.shares_base;
        Ok(())
    }

    /// Once every competitor is settled, records the range of the prize draw
    /// and moves the round to `WinnerAndPrizeRandomnessRequested`.
    pub fn request_winner_and_prize_randomness(
        &mut self,
        spot_market: &SpotMarket,
        vault_balance: u64,
    ) -> (r: CompetitionResult)
        ensures
            resolved_error(*old(self)) matches Some(e) ==> r == Err::<(), ErrorCode>(e),
            resolved_error(*old(self)) is None && !sponsor_max_prize_ok(
                *old(self),
                spot_market.insurance_fund,
                vault_balance,
            ) ==> r == Err::<(), ErrorCode>(ErrorCode::DriftError),
            resolved_error(*old(self)) is None && sponsor_max_prize_ok(
                *old(self),
                spot_market.insurance_fund,
                vault_balance,
            ) && old(self).status != CompetitionRoundStatus::Active ==> r == Err::<(), ErrorCode>(
                ErrorCode::InvalidStatusUpdateDetected,
            ),
            resolved_error(*old(self)) is None && sponsor_max_prize_ok(
                *old(self),
                spot_market.insurance_fund,
                vault_balance,
            ) && old(self).status == CompetitionRoundStatus::Active ==> r is Ok,
            r is Ok ==> resolved_error(*old(self)) is None && sponsor_max_prize_ok(
                *old(self),
                spot_market.insurance_fund,
                vault_balance,
            ) && old(self).status == CompetitionRoundStatus::Active && *final(self) == (
            Competition {
                prize_randomness_max: ratio_sum(
                    prize_ratios(
                        sponsor_max_prize(*old(self), spot_market.insurance_fund, vault_balance),
                    ),
                ) as u128,
                status: CompetitionRoundStatus::WinnerAndPrizeRandomnessRequested,
                ..*old(self)
            }),
            r is Err ==> *final(self) == *old(self),
    {
        self.validate_round_resolved()?;
        let (_, ratios) = self.calculate_prize_buckets_and_ratios(spot_market, vault_balance)?;
        proof {
            lemma_ratios_bounded(
                sponsor_max_prize(*self, spot_market.insurance_fund, vault_balance),
            );
            assert(ratios@[0] == prize_ratios(
                sponsor_max_prize(*self, spot_market.insurance_fund, vault_balance),
            )[0]);
            assert(ratios@[1] == prize_ratios(
                sponsor_max_prize(*self, spot_market.insurance_fund, vault_balance),
            )[1]);
            assert(ratios@[2] == prize_ratios(
                sponsor_max_prize(*self, spot_market.insurance_fund, vault_balance),
            )[2]);
        }
        let mut next = *self;
        next.prize_randomness_max = ratios[0] + ratios[1] + ratios[2];
        next.update_status(CompetitionRoundStatus::WinnerAndPrizeRandomnessRequested)?;
        *self = next;
        Ok(())
    }

    /// Once the draws have arrived, fixes the prize and moves the round to
    /// `WinnerAndPrizeRandomnessComplete`.
    pub fn resolve_winner_and_prize_randomness(
        &mut self,
        spot_market: &SpotMarket,
        vault_balance: u64,
    ) -> (r: CompetitionResult)
        ensures
            resolved_error(*old(self)) matches Some(e) ==> r == Err::<(), ErrorCode>(e),
            resolved_error(*old(self)) is None ==> match prize_outcome(
                *old(self),
                spot_market.insurance_fund,
                vault_balance,
            ) {
                Err(e) => r == Err::<(), ErrorCode>(e),
                Ok(v) => if old(self).status
                    == CompetitionRoundStatus::WinnerAndPrizeRandomnessRequested {
                    r is Ok && *final(self) == (Competition {
                        prize_amount: v.0,
                        prize_base: spot_market.insurance_fund.shares_base,
                        status: CompetitionRoundStatus::WinnerAndPrizeRandomnessComplete,
                        ..*old(self)
                    })
                } else {
                    r == Err::<(), ErrorCode>(ErrorCode::InvalidStatusUpdateDetected)
                },
            },
            r is Err ==> *final(self) == *old(self),
    {
        self.validate_round_resolved()?;
        let mut next = *self;
        next.resolve_prize_amount(spot_market, vault_balance)?;
        next.update_status(CompetitionRoundStatus::WinnerAndPrizeRandomnessComplete)?;
        *self = next;
        Ok(())
    }
}

} // verus!
