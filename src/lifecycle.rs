use vstd::prelude::*;

use crate::competition::{
    active_error, counters_consistent, resolved_error, settlement_started_error, Competition, CompetitionRoundStatus,
    SponsorInfo,
};
use crate::competitor::{snapshot_score, Competitor, CompetitorStatus};
use crate::error::{CompetitionResult, ErrorCode};
use crate::market::SpotMarket;
use crate::prize::prize_outcome;

verus! {

/// Settings chosen by the sponsor when a competition is created.
#[derive(Clone, Copy, Debug, PartialEq, Eq, Structural)]
pub struct CompetitionParams {
    pub next_round_expiry_ts: i64,
    /// End of the whole competition; 0 for never.
    pub competition_expiry_ts: i64,
    pub round_duration: u64,
    pub max_entries_per_competitor: u128,
    pub min_sponsor_amount: u64,
    pub max_sponsor_fraction: u64,
    pub number_of_winners: u32,
}

/// Settings that the sponsor may change; `None` keeps the current value.
#[derive(Clone, Copy, Debug, PartialEq, Eq, Structural)]
pub struct UpdateCompetitionParams {
    pub next_round_expiry_ts: Option<i64>,
    pub competition_expiry_ts: Option<i64>,
    pub round_duration: Option<u64>,
    pub max_entries_per_competitor: Option<u128>,
    pub min_sponsor_amount: Option<u64>,
    pub max_sponsor_fraction: Option<u64>,
    pub number_of_winners: Option<u32>,
}

/// The value kept by an optional update.
pub open spec fn updated<T>(current: T, new: Option<T>) -> T {
    match new {
        Some(v) => v,
        None => current,
    }
}

/// A new competition of `sponsor`, in round 0 and `Active`, with nothing
/// entered or won yet.
pub fn initialize_competition(sponsor: [u8; 32], params: CompetitionParams) -> (r: Competition)
    ensures
        r.sponsor_info == (SponsorInfo {
            sponsor,
            min_sponsor_amount: params.min_sponsor_amount,
            max_sponsor_fraction: params.max_sponsor_fraction,
        }),
        r.next_round_expiry_ts == params.next_round_expiry_ts,
        r.competition_expiry_ts == params.competition_expiry_ts,
        r.round_duration == params.round_duration,
        r.max_entries_per_competitor == params.max_entries_per_competitor,
        r.number_of_winners == params.number_of_winners,
        r.round_number == 0 && r.status == CompetitionRoundStatus::Active,
        r.number_of_competitors == 0 && r.number_of_competitors_settled == 0,
        r.total_score_settled == 0 && r.number_of_winners_settled == 0,
        r.prize_amount == 0 && r.prize_amount_settled == 0 && r.prize_base == 0,
        r.winner_randomness == 0 && r.prize_randomness == 0 && r.prize_randomness_max == 0,
        r.outstanding_unclaimed_winnings == 0,
        counters_consistent(r),
{
    Competition {
        sponsor_info: SponsorInfo {
            sponsor,
            min_sponsor_amount: params.min_sponsor_amount,
            max_sponsor_fraction: params.max_sponsor_fraction,
        },
        number_of_competitors: 0,
        number_of_competitors_settled: 0,
        total_score_settled: 0,
        max_entries_per_competitor: params.max_entries_per_competitor,
        prize_amount: 0,
        prize_amount_settled: 0,
        prize_base: 0,
        winner_randomness: 0,
        prize_randomness: 0,
        prize_randomness_max: 0,
        outstanding_unclaimed_winnings: 0,
        round_number: 0,
        next_round_expiry_ts: params.next_round_expiry_ts,
        competition_expiry_ts: params.competition_expiry_ts,
        round_duration: params.round_duration,
        number_of_winners: params.number_of_winners,
        number_of_winners_settled: 0,
        status: CompetitionRoundStatus::Active,
    }
}

/// Applies the sponsor's changes to the competition's settings.
pub fn update_competition(competition: &mut Competition, params: UpdateCompetitionParams)
    ensures
        *final(competition) == (Competition {
            next_round_expiry_ts: updated(
                old(competition).next_round_expiry_ts,
                params.next_round_expiry_ts,
            ),
            competition_expiry_ts: updated(
                old(competition).competition_expiry_ts,
                params.competition_expiry_ts,
            ),
            round_duration: updated(old(competition).round_duration, params.round_duration),
            max_entries_per_competitor: updated(
                old(competition).max_entries_per_competitor,
                params.max_entries_per_competitor,
            ),
            sponsor_info: SponsorInfo {
                min_sponsor_amount: updated(
                    old(competition).sponsor_info.min_sponsor_amount,
                    params.min_sponsor_amount,
                ),
                max_sponsor_fraction: updated(
                    old(competition).sponsor_info.max_sponsor_fraction,
                    params.max_sponsor_fraction,
                ),
                ..old(competition).sponsor_info
            },
            number_of_winners: updated(old(competition).number_of_winners, params.number_of_winners),
            ..*old(competition)
        }),
{
    if let Some(v) = params.next_round_expiry_ts {
        competition.next_round_expiry_ts = v;
    }
    if let Some(v) = params.competition_expiry_ts {
        competition.competition_expiry_ts = v;
    }
    if let Some(v) = params.round_duration {
        competition.round_duration = v;
    }
    if let Some(v) = params.max_entries_per_competitor {
        competition.max_entries_per_competitor = v;
    }
    if let Some(v) = params.min_sponsor_amount {
        competition.sponsor_info.min_sponsor_amount = v;
    }
    if let Some(v) = params.max_sponsor_fraction {
        competition.sponsor_info.max_sponsor_fraction = v;
    }
    if let Some(v) = params.number_of_winners {
        competition.number_of_winners = v;
    }
}

/// Enters a participant into an active competition: its record starts on the
/// current round with its current score as watermark. `total_fee_paid` is its
/// external cumulative score.
pub fn initialize_competitor(
    competition: &mut Competition,
    competition_key: [u8; 32],
    authority: [u8; 32],
    user_stats: [u8; 32],
    total_fee_paid: u64,
    now: i64,
) -> (r: CompetitionResult<Competitor>)
    ensures
        active_error(*old(competition), now) matches Some(e) ==> r == Err::<Competitor, ErrorCode>(
            e,
        ),
        active_error(*old(competition), now) is None ==> (r is Ok
            <==> old(competition).number_of_competitors < u128::MAX),
        r matches Ok(c) ==> c == (Competitor {
            authority,
            competition: competition_key,
            user_stats,
            min_draw: 0,
            max_draw: 0,
            unclaimed_winnings_base: 0,
            unclaimed_winnings: 0,
            competition_round_number: old(competition).round_number,
            previous_snapshot_score: snapshot_score(total_fee_paid) as u64,
            latest_snapshot_score: 0,
            bonus_score: 0,
            status: CompetitorStatus::Active,
        }) && *final(competition) == (Competition {
            number_of_competitors: (old(competition).number_of_competitors + 1) as u128,
            ..*old(competition)
        }),
        r matches Err(e) ==> *final(competition) == *old(competition) && (active_error(
            *old(competition),
            now,
        ) is None ==> e == ErrorCode::DriftError),
{
    competition.validate_round_is_active(now)?;
    if competition.number_of_competitors == u128::MAX {
        return Err(ErrorCode::DriftError);
    }
    let mut competitor = Competitor::default();
    competitor.authority = authority;
    competitor.competition = competition_key;
    competitor.user_stats = user_stats;
    competitor.competition_round_number = competition.round_number;
    competitor.previous_snapshot_score = competitor.calculate_snapshot_score(total_fee_paid);
    competition.number_of_competitors = competition.number_of_competitors + 1;
    Ok(competitor)
}

/// Takes a participant out of the competition. Only before settlement of the
/// round has started, and only once it holds no unclaimed winnings; an active
/// competitor leaves the count of competitors.
pub fn close_competitor(competition: &mut Competition, competitor: &Competitor, now: i64) -> (r:
    CompetitionResult)
    ensures
        settlement_started_error(*old(competition), now) matches Some(e) ==> r == Err::<
            (),
            ErrorCode,
        >(e),
        settlement_started_error(*old(competition), now) is None ==> (r is Ok <==> (
        competitor.unclaimed_winnings == 0 && (competitor.status == CompetitorStatus::Active
            ==> old(competition).number_of_competitors > 0))),
        r is Ok ==> *final(competition) == (Competition {
            number_of_competitors: if competitor.status == CompetitorStatus::Active {
                (old(competition).number_of_competitors - 1) as u128
            } else {
                old(competition).number_of_competitors
            },
            ..*old(competition)
        }),
        r is Err ==> *final(competition) == *old(competition),
{
    competition.validate_round_settlement_hasnt_started(now)?;
    if competitor.unclaimed_winnings != 0 {
        return Err(ErrorCode::CompetitionInvariantIssue);
    }
    if competitor.status == CompetitorStatus::Active {
        if competition.number_of_competitors == 0 {
            return Err(ErrorCode::DriftError);
        }
        competition.number_of_competitors = competition.number_of_competitors - 1;
    }
    Ok(())
}

impl Competition {
    /// Records the oracle's two draws and resolves the prize with them,
    /// moving the round to `WinnerAndPrizeRandomnessComplete`; on failure
    /// nothing is recorded.
    pub fn receive_randomness(
        &mut self,
        winner_randomness: u128,
        prize_randomness: u128,
        spot_market: &SpotMarket,
        vault_balance: u64,
    ) -> (r: CompetitionResult)
        ensures
            ({
                let drawn = Competition { winner_randomness, prize_randomness, ..*old(self) };
                &&& resolved_error(drawn) matches Some(e) ==> r == Err::<(), ErrorCode>(e)
                &&& resolved_error(drawn) is None ==> match prize_outcome(
                    drawn,
                    spot_market.insurance_fund,
                    vault_balance,
                ) {
                    Err(e) => r == Err::<(), ErrorCode>(e),
                    Ok(v) => if old(self).status
                        == CompetitionRoundStatus::WinnerAndPrizeRandomnessRequested {
                        r is Ok && *final(self) == (Competition {
                            prize_amount: v.0,
                            prize_base: spot_market.insurance_fund.shares_base,
                            status: CompetitionRoundStatus::WinnerAndPrizeRandomnessComplete,
                            ..drawn
                        })
                    } else {
                        r == Err::<(), ErrorCode>(ErrorCode::InvalidStatusUpdateDetected)
                    },
                }
            }),
            r is Err ==> *final(self) == *old(self),
    {
        let mut next = *self;
        next.winner_randomness = winner_randomness;
        next.prize_randomness = prize_randomness;
        next.resolve_winner_and_prize_randomness(spot_market, vault_balance)?;
        *self = next;
        Ok(())
    }
}

} // verus!
