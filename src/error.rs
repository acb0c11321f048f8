use vstd::prelude::*;

verus! {

/// Every way an operation of this library can be refused.
#[derive(Clone, Copy, Debug, PartialEq, Eq, Structural)]
pub enum ErrorCode {
    Default,
    /// Checked arithmetic failed: overflow, underflow or division by zero.
    DriftError,
    CompetitionRoundOngoing,
    CompetitionRoundInSettlementPhase,
    CompetitionStatusNotActive,
    CompetitionExpired,
    InvalidRoundSettlementDetected,
    CompetitionWinnerNotDetermined,
    CompetitorHasWrongRoundNumber,
    CompetitorNotWinner,
    InvalidStatusUpdateDetected,
    InvalidIFRebase,
    CompetitorHasAlreadyClaimedEntry,
    CompetitorNeedsToRebaseInsuranceFundStake,
    CompetitorHasNoUnclaimedWinnings,
    CompetitionRoundNumberIssue,
    CompetitorSnapshotIssue,
    CompetitorHasInvalidClaim,
    CompetitionInvariantIssue,
    CompetitorUpdateInvalid,
}

pub type CompetitionResult<T = ()> = Result<T, ErrorCode>;

} // verus!
