use vstd::prelude::*;

use crate::competition::Competition;
use crate::competitor::Competitor;
use crate::error::{CompetitionResult, ErrorCode};
use crate::market::SpotMarket;
use crate::math::{checked_pow10, div_ceil, lemma_pow10_monotone, pow10, PRICE_PRECISION};

verus! {

/// Whether share amounts counted at `old_base` can be brought to `new_base`
/// within `limit`: the base only grows, and `10^(new_base - old_base)` fits.
pub open spec fn rebase_ok(old_base: u128, new_base: u128, limit: int) -> bool {
    old_base == new_base || (old_base < new_base && pow10((new_base - old_base) as nat) <= limit)
}

/// Why a rebase from `old_base` to `new_base` is refused, if it is.
pub open spec fn rebase_error(old_base: u128, new_base: u128) -> ErrorCode {
    if new_base < old_base {
        ErrorCode::InvalidIFRebase
    } else {
        ErrorCode::DriftError
    }
}

/// A share amount counted at `old_base`, counted at `new_base` instead.
pub open spec fn rebased(x: int, old_base: u128, new_base: u128) -> int {
    if old_base == new_base {
        x
    } else {
        x / pow10((new_base - old_base) as nat)
    }
}

/// The competition with its prize fields counted at share base `base`.
pub open spec fn rebased_competition(c: Competition, base: u128) -> Competition {
    Competition {
        prize_base: base,
        prize_amount: rebased(c.prize_amount as int, c.prize_base, base) as u128,
        prize_amount_settled: rebased(c.prize_amount_settled as int, c.prize_base, base) as u128,
        outstanding_unclaimed_winnings: rebased(
            c.outstanding_unclaimed_winnings as int,
            c.prize_base,
            base,
        ) as u128,
        ..c
    }
}

/// The competitor with its unclaimed winnings counted at share base `base`.
pub open spec fn rebased_competitor(c: Competitor, base: u128) -> Competitor {
    Competitor {
        unclaimed_winnings_base: base,
        unclaimed_winnings: rebased(c.unclaimed_winnings as int, c.unclaimed_winnings_base, base)
            as u64,
        ..c
    }
}

/// Brings the competition's prize fields to the pool's current share base,
/// dividing them by `10^k` where the base grew by `k`.
pub fn apply_rebase_to_competition_prize(
    competition: &mut Competition,
    spot_market: &SpotMarket,
) -> (r: CompetitionResult)
    ensures
        r is Ok <==> rebase_ok(
            old(competition).prize_base,
            spot_market.insurance_fund.shares_base,
            u128::MAX as int,
        ),
        r is Ok ==> *final(competition) == rebased_competition(
            *old(competition),
            spot_market.insurance_fund.shares_base,
        ),
        r matches Err(e) ==> e == rebase_error(
            old(competition).prize_base,
            spot_market.insurance_fund.shares_base,
        ) && *final(competition) == *old(competition),
{
    let base = spot_market.insurance_fund.shares_base;
    if base != competition.prize_base {
        if base < competition.prize_base {
            return Err(ErrorCode::InvalidIFRebase);
        }
        let divisor = match checked_pow10(base - competition.prize_base) {
            Some(d) => d,
            None => {
                return Err(ErrorCode::DriftError);
            },
        };
        proof {
            lemma_pow10_monotone(0, (base - competition.prize_base) as nat);
        }
        competition.prize_base = base;
        competition.prize_amount = competition.prize_amount / divisor;
        competition.prize_amount_settled = competition.prize_amount_settled / divisor;
        competition.outstanding_unclaimed_winnings = competition.outstanding_unclaimed_winnings
            / divisor;
    }
    Ok(())
}

/// Brings the competitor's unclaimed winnings to the pool's current share
/// base, dividing them by `10^k` where the base grew by `k`.
pub fn apply_rebase_to_competitor_unclaimed_winnings(
    competitor: &mut Competitor,
    spot_market: &SpotMarket,
) -> (r: CompetitionResult)
    ensures
        r is Ok <==> rebase_ok(
            old(competitor).unclaimed_winnings_base,
            spot_market.insurance_fund.shares_base,
            u64::MAX as int,
        ),
        r is Ok ==> *final(competitor) == rebased_competitor(
            *old(competitor),
            spot_market.insurance_fund.shares_base,
        ),
        r matches Err(e) ==> e == rebase_error(
            old(competitor).unclaimed_winnings_base,
            spot_market.insurance_fund.shares_base,
        ) && *final(competitor) == *old(competitor),
{
    let base = spot_market.insurance_fund.shares_base;
    if base != competitor.unclaimed_winnings_base {
        if base < competitor.unclaimed_winnings_base {
            return Err(ErrorCode::InvalidIFRebase);
        }
        let divisor = match checked_pow10(base - competitor.unclaimed_winnings_base) {
            Some(d) => d,
            None => {
                return Err(ErrorCode::DriftError);
            },
        };
        if divisor > u64::MAX as u128 {
            return Err(ErrorCode::DriftError);
        }
        proof {
            lemma_pow10_monotone(0, (base - competitor.unclaimed_winnings_base) as nat);
        }
        competitor.unclaimed_winnings_base = base;
        competitor.unclaimed_winnings = competitor.unclaimed_winnings / (divisor as u64);
    }
    Ok(())
}

/// The price used to value entries: the lower of the spot and the 5-minute
/// average price, at least 1.
pub open spec fn strict_price(spot_market: SpotMarket) -> int {
    let p = if spot_market.historical_oracle_data.last_oracle_price_twap_5min
        < spot_market.historical_oracle_data.last_oracle_price {
        spot_market.historical_oracle_data.last_oracle_price_twap_5min
    } else {
        spot_market.historical_oracle_data.last_oracle_price
    };
    if p < 1 {
        1
    } else {
        p as int
    }
}

/// Units of the market's token that buy `entries` entries, at 0.00005 quote
/// each, rounded up twice.
pub open spec fn deposit_tokens_for_entries(entries: u64, spot_market: SpotMarket) -> int {
    div_ceil(
        div_ceil(
            entries * PRICE_PRECISION * pow10(spot_market.decimals as nat),
            strict_price(spot_market),
        ),
        20000,
    )
}

/// Whether the deposit for `entries` entries can be computed and fits in 64
/// bits.
pub open spec fn deposit_ok(entries: u64, spot_market: SpotMarket) -> bool {
    &&& pow10(spot_market.decimals as nat) <= u128::MAX
    &&& entries * PRICE_PRECISION * pow10(spot_market.decimals as nat) <= u128::MAX
    &&& deposit_tokens_for_entries(entries, spot_market) <= u64::MAX
}

/// Tokens of the quote market to deposit into the revenue pool for `entries`
/// entries.
pub fn calculate_revenue_pool_deposit_tokens_from_entries(
    entries: u64,
    spot_market: &SpotMarket,
) -> (r: CompetitionResult<u64>)
    ensures
        r is Ok <==> deposit_ok(entries, *spot_market),
        r matches Ok(v) ==> v == deposit_tokens_for_entries(entries, *spot_market),
        r matches Err(e) ==> e == ErrorCode::DriftError,
{
    let quote_divisor: u128 = 20000;
    let twap = spot_market.historical_oracle_data.last_oracle_price_twap_5min;
    let last = spot_market.historical_oracle_data.last_oracle_price;
    let low = if twap < last {
        twap
    } else {
        last
    };
    let price: u128 = if low < 1 {
        1
    } else {
        low as u128
    };
    let scale = match checked_pow10(spot_market.decimals as u128) {
        Some(s) => s,
        None => {
            return Err(ErrorCode::DriftError);
        },
    };
    let value = (entries as u128) * PRICE_PRECISION;
    let value = match value.checked_mul(scale) {
        Some(v) => v,
        None => {
            return Err(ErrorCode::DriftError);
        },
    };
    let per_price = match crate::math::safe_div_ceil(value, price) {
        Some(v) => v,
        None => {
            return Err(ErrorCode::DriftError);
        },
    };
    let tokens = match crate::math::safe_div_ceil(per_price, quote_divisor) {
        Some(v) => v,
        None => {
            return Err(ErrorCode::DriftError);
        },
    };
    if tokens > u64::MAX as u128 {
        return Err(ErrorCode::DriftError);
    }
    Ok(tokens as u64)
}

} // verus!
