//! Checks made on the accounts and instructions around each operation.
use vstd::prelude::*;

use crate::claim::status_change;
use crate::competition::Competition;
use crate::competitor::{Competitor, CompetitorStatus};
use crate::error::{CompetitionResult, ErrorCode};

verus! {

/// Whether two account keys are the same.
pub fn keys_equal(a: &[u8; 32], b: &[u8; 32]) -> (r: bool)
    ensures
        r == (a@ == b@),
{
    let mut i: usize = 0;
    while i < 32
        invariant
            i <= 32,
            a@.len() == 32 && b@.len() == 32,
            forall|m: int| 0 <= m < i ==> a@[m] == b@[m],
        decreases 32 - i,
    {
        if a[i] != b[i] {
            return false;
        }
        i = i + 1;
    }
    assert(a@ =~= b@);
    true
}

/// `authority` owns the competitor record.
pub fn can_sign_for_competitor(competitor: &Competitor, authority: &[u8; 32]) -> (r: bool)
    ensures
        r == (competitor.authority@ == authority@),
{
    keys_equal(&competitor.authority, authority)
}

/// `user_stats` is the score source of the competitor.
pub fn is_user_stats_for_competitor(competitor: &Competitor, user_stats: &[u8; 32]) -> (r: bool)
    ensures
        r == (competitor.user_stats@ == user_stats@),
{
    keys_equal(&competitor.user_stats, user_stats)
}

/// `competition` is the competition the competitor entered.
pub fn is_competition_for_competitor(competitor: &Competitor, competition: &[u8; 32]) -> (r:
    bool)
    ensures
        r == (competitor.competition@ == competition@),
{
    keys_equal(&competitor.competition, competition)
}

/// `sponsor` sponsors the competition.
pub fn is_sponsor_for_competition(competition: &Competition, sponsor: &[u8; 32]) -> (r: bool)
    ensures
        r == (competition.sponsor_info.sponsor@ == sponsor@),
{
    keys_equal(&competition.sponsor_info.sponsor, sponsor)
}

/// A free entry may only be claimed by the last instruction of a
/// transaction, after nothing but compute-budget instructions: `programs`
/// lists the program of each instruction, `current_index` is the claim's.
pub fn claim_entry_allowed(
    programs: &Vec<[u8; 32]>,
    current_index: usize,
    compute_budget_program: &[u8; 32],
) -> (r: bool)
    ensures
        r == (current_index + 1 == programs@.len() && forall|i: int|
            0 <= i < current_index ==> (#[trigger] programs@[i])@ == compute_budget_program@),
{
    if current_index >= programs.len() || current_index + 1 != programs.len() {
        return false;
    }
    let mut i: usize = 0;
    while i < current_index
        invariant
            i <= current_index < programs@.len(),
            forall|m: int| 0 <= m < i ==> (#[trigger] programs@[m])@ == compute_budget_program@,
        decreases current_index - i,
    {
        if !keys_equal(&programs[i], compute_budget_program) {
            return false;
        }
        i = i + 1;
    }
    true
}

/// Changes a competitor's status at the sponsor's request; asking for the
/// status it already has is refused.
pub fn update_competitor_status(
    competition: &mut Competition,
    competitor: &mut Competitor,
    total_fee_paid: u64,
    new_status: CompetitorStatus,
    now: i64,
) -> (r: CompetitionResult)
    ensures
        old(competitor).status == new_status ==> r == Err::<(), ErrorCode>(
            ErrorCode::CompetitorUpdateInvalid,
        ) && *final(competition) == *old(competition) && *final(competitor) == *old(competitor),
        old(competitor).status != new_status ==> (r, *final(competition), *final(competitor))
            == status_change(*old(competition), *old(competitor), total_fee_paid, new_status, now),
{
    if competitor.status == new_status {
        return Err(ErrorCode::CompetitorUpdateInvalid);
    }
    competitor.update_status(competition, total_fee_paid, new_status, now)
}

} // verus!
