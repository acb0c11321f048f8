use vstd::prelude::*;

use crate::competition::{
    expired, settlement_started_error, Competition, CompetitionRoundStatus,
};
use crate::competitor::{snapshot_score, Competitor, CompetitorStatus};
use crate::error::{CompetitionResult, ErrorCode};
use crate::market::{InsuranceFund, SpotMarket};
use crate::utils::{
    apply_rebase_to_competitor_unclaimed_winnings, calculate_revenue_pool_deposit_tokens_from_entries,
    deposit_ok, deposit_tokens_for_entries, rebase_error, rebase_ok, rebased_competitor,
};

verus! {

/// Result of changing `c`'s status to `new_status`, with the competition and
/// the competitor after it. Disqualifying removes the competitor from the
/// count; requalifying adds it back, synchronised to the current round with a
/// fresh score watermark and no bonus.
pub open spec fn status_change(
    comp: Competition,
    c: Competitor,
    total_fee_paid: u64,
    new_status: CompetitorStatus,
    now: i64,
) -> (CompetitionResult, Competition, Competitor) {
    if settlement_started_error(comp, now) is Some {
        (Err(settlement_started_error(comp, now).unwrap()), comp, c)
    } else if c.status == CompetitorStatus::Active && new_status == CompetitorStatus::Disqualified {
        if comp.number_of_competitors == 0 {
            (Err(ErrorCode::DriftError), comp, c)
        } else {
            (
                Ok(()),
                Competition {
                    number_of_competitors: (comp.number_of_competitors - 1) as u128,
                    ..comp
                },
                Competitor { status: new_status, ..c },
            )
        }
    } else if c.status == CompetitorStatus::Disqualified && new_status == CompetitorStatus::Active {
        if comp.number_of_competitors == u128::MAX {
            (Err(ErrorCode::DriftError), comp, c)
        } else {
            (
                Ok(()),
                Competition {
                    number_of_competitors: (comp.number_of_competitors + 1) as u128,
                    ..comp
                },
                Competitor {
                    status: new_status,
                    competition_round_number: comp.round_number,
                    previous_snapshot_score: snapshot_score(total_fee_paid) as u64,
                    bonus_score: 0,
                    ..c
                },
            )
        }
    } else {
        (Ok(()), comp, c)
    }
}

/// Why a claim is refused before any amount is looked at, if it is.
pub open spec fn claim_error(
    comp: Competition,
    c: Competitor,
    f: InsuranceFund,
    stake_base: u128,
    n_shares: Option<u64>,
    now: i64,
) -> Option<ErrorCode> {
    if !(comp.status == CompetitionRoundStatus::Active || comp.status
        == CompetitionRoundStatus::WinnerSettlementComplete) {
        Some(ErrorCode::CompetitionRoundOngoing)
    } else if expired(comp, now) {
        Some(ErrorCode::CompetitionExpired)
    } else if f.shares_base != stake_base {
        Some(ErrorCode::CompetitorNeedsToRebaseInsuranceFundStake)
    } else if c.unclaimed_winnings == 0 {
        Some(ErrorCode::CompetitorHasNoUnclaimedWinnings)
    } else if n_shares is Some && c.unclaimed_winnings_base != f.shares_base {
        // an explicit amount must be counted at the current base
        Some(ErrorCode::CompetitorHasInvalidClaim)
    } else if !rebase_ok(c.unclaimed_winnings_base, f.shares_base, u64::MAX as int) {
        Some(rebase_error(c.unclaimed_winnings_base, f.shares_base))
    } else {
        None
    }
}

/// Result of claiming `n_shares` (all, when `None`) of `c`'s winnings, counted
/// at the pool's current share base, with the competition and the competitor
/// after it.
pub open spec fn winnings_claim(
    comp: Competition,
    c: Competitor,
    f: InsuranceFund,
    stake_base: u128,
    n_shares: Option<u64>,
    now: i64,
) -> (CompetitionResult<u64>, Competition, Competitor) {
    if claim_error(comp, c, f, stake_base, n_shares, now) is Some {
        (Err(claim_error(comp, c, f, stake_base, n_shares, now).unwrap()), comp, c)
    } else {
        let c1 = rebased_competitor(c, f.shares_base);
        let shares = match n_shares {
            Some(n) => n,
            None => c1.unclaimed_winnings,
        };
        if shares == 0 || shares > c1.unclaimed_winnings {
            (Err(ErrorCode::CompetitorHasInvalidClaim), comp, c)
        } else {
            (
                Ok(shares),
                Competition {
                    outstanding_unclaimed_winnings: if comp.outstanding_unclaimed_winnings
                        > shares {
                        (comp.outstanding_unclaimed_winnings - shares) as u128
                    } else {
                        0
                    },
                    ..comp
                },
                Competitor { unclaimed_winnings: (c1.unclaimed_winnings - shares) as u64, ..c1 },
            )
        }
    }
}

/// Most entries that one purchase may buy.
pub const MAX_ENTRIES_PER_CLAIM: u64 = 5_000_000;

/// Buys `entries` extra tickets for the competitor's next settlement and
/// returns the tokens of the quote market to deposit into the revenue pool
/// for them. At most five million entries at once.
pub fn claim_multiple_entries(
    competitor: &mut Competitor,
    entries: u64,
    spot_market: &SpotMarket,
) -> (r: CompetitionResult<u64>)
    ensures
        entries > MAX_ENTRIES_PER_CLAIM ==> r == Err::<u64, ErrorCode>(
            ErrorCode::CompetitorHasInvalidClaim,
        ),
        entries <= MAX_ENTRIES_PER_CLAIM ==> (r is Ok <==> (old(competitor).bonus_score + entries
            <= u64::MAX && deposit_ok(entries, *spot_market))),
        r matches Ok(v) ==> v == deposit_tokens_for_entries(entries, *spot_market)
            && *final(competitor) == (Competitor {
            bonus_score: (old(competitor).bonus_score + entries) as u64,
            ..*old(competitor)
        }),
        r matches Err(e) ==> *final(competitor) == *old(competitor) && (entries
            <= MAX_ENTRIES_PER_CLAIM ==> e == ErrorCode::DriftError),
{
    if entries > MAX_ENTRIES_PER_CLAIM {
        return Err(ErrorCode::CompetitorHasInvalidClaim);
    }
    let bonus = match competitor.bonus_score.checked_add(entries) {
        Some(b) => b,
        None => {
            return Err(ErrorCode::DriftError);
        },
    };
    let deposit = calculate_revenue_pool_deposit_tokens_from_entries(entries, spot_market)?;
    competitor.bonus_score = bonus;
    Ok(deposit)
}

impl Competitor {
    /// Disqualifies or requalifies the competitor; only before settlement of
    /// the round has started. `total_fee_paid` is its external cumulative
    /// score.
    pub fn update_status(
        &mut self,
        competition: &mut Competition,
        total_fee_paid: u64,
        new_status: CompetitorStatus,
        now: i64,
    ) -> (r: CompetitionResult)
        ensures
            (r, *final(competition), *final(self)) == status_change(
                *old(competition),
                *old(self),
                total_fee_paid,
                new_status,
                now,
            ),
    {
        competition.validate_round_settlement_hasnt_started(now)?;
        if self.status == CompetitorStatus::Active && new_status == CompetitorStatus::Disqualified {
            if competition.number_of_competitors == 0 {
                return Err(ErrorCode::DriftError);
            }
            competition.number_of_competitors = competition.number_of_competitors - 1;
        } else if self.status == CompetitorStatus::Disqualified && new_status
            == CompetitorStatus::Active {
            if competition.number_of_competitors == u128::MAX {
                return Err(ErrorCode::DriftError);
            }
            competition.number_of_competitors = competition.number_of_competitors + 1;
            self.competition_round_number = competition.round_number;
            self.previous_snapshot_score = self.calculate_snapshot_score(total_fee_paid);
            self.bonus_score = 0;
        }
        self.status = new_status;
        Ok(())
    }

    /// Claims `n_shares` of the competitor's winnings, or all of them, into
    /// the pool's share ledger. Only while the round is `Active` or
    /// `WinnerSettlementComplete`, before expiry, and with the stake
    /// (`stake_base`) at the pool's current share base. Returns the shares
    /// claimed.
    pub fn claim_winnings(
        &mut self,
        competition: &mut Competition,
        spot_market: &SpotMarket,
        stake_base: u128,
        n_shares: Option<u64>,
        now: i64,
    ) -> (r: CompetitionResult<u64>)
        ensures
            (r, *final(competition), *final(self)) == winnings_claim(
                *old(competition),
                *old(self),
                spot_market.insurance_fund,
                stake_base,
                n_shares,
                now,
            ),
    {
        if !(competition.status == CompetitionRoundStatus::Active || competition.status
            == CompetitionRoundStatus::WinnerSettlementComplete) {
            return Err(ErrorCode::CompetitionRoundOngoing);
        }
        if competition.is_expired(now)? {
            return Err(ErrorCode::CompetitionExpired);
        }
        if spot_market.insurance_fund.shares_base != stake_base {
            return Err(ErrorCode::CompetitorNeedsToRebaseInsuranceFundStake);
        }
        if self.unclaimed_winnings == 0 {
            return Err(ErrorCode::CompetitorHasNoUnclaimedWinnings);
        }
        if n_shares.is_some() && self.unclaimed_winnings_base
            != spot_market.insurance_fund.shares_base {
            return Err(ErrorCode::CompetitorHasInvalidClaim);
        }
        let mut next = *self;
        apply_rebase_to_competitor_unclaimed_winnings(&mut next, spot_market)?;
        // the amount asked for is counted at the current base
        let shares = match n_shares {
            Some(n) => n,
            None => next.unclaimed_winnings,
        };
        if shares == 0 || shares > next.unclaimed_winnings {
            return Err(ErrorCode::CompetitorHasInvalidClaim);
        }
        next.unclaimed_winnings = next.unclaimed_winnings - shares;
        competition.outstanding_unclaimed_winnings = competition.outstanding_unclaimed_winnings.saturating_sub(
            shares as u128,
        );
        *self = next;
        Ok(shares)
    }
}

} // verus!
