use vstd::prelude::*;

use crate::competitor::{snapshot_score, Competitor, CompetitorStatus};
use crate::error::{CompetitionResult, ErrorCode};

verus! {

/// Phase of the current round. Rounds cycle through the first four phases in
/// order; `Expired` ends the competition.
#[derive(Clone, Copy, Debug, PartialEq, Eq, Structural)]
pub enum CompetitionRoundStatus {
    Active,
    WinnerAndPrizeRandomnessRequested,
    WinnerAndPrizeRandomnessComplete,
    WinnerSettlementComplete,
    Expired,
}

impl Default for CompetitionRoundStatus {
    fn default() -> (r: Self)
        ensures
            r == CompetitionRoundStatus::Active,
    {
        CompetitionRoundStatus::Active
    }
}

/// The one phase that may follow `s` in the round cycle; none after `Expired`.
pub open spec fn next_status(s: CompetitionRoundStatus) -> Option<CompetitionRoundStatus> {
    match s {
        CompetitionRoundStatus::Active => Some(
            CompetitionRoundStatus::WinnerAndPrizeRandomnessRequested,
        ),
        CompetitionRoundStatus::WinnerAndPrizeRandomnessRequested => Some(
            CompetitionRoundStatus::WinnerAndPrizeRandomnessComplete,
        ),
        CompetitionRoundStatus::WinnerAndPrizeRandomnessComplete => Some(
            CompetitionRoundStatus::WinnerSettlementComplete,
        ),
        CompetitionRoundStatus::WinnerSettlementComplete => Some(CompetitionRoundStatus::Active),
        CompetitionRoundStatus::Expired => None,
    }
}

/// The transition table of the round cycle.
pub fn successor(s: CompetitionRoundStatus) -> (r: Option<CompetitionRoundStatus>)
    ensures
        r == next_status(s),
{
    match s {
        CompetitionRoundStatus::Active => Some(
            CompetitionRoundStatus::WinnerAndPrizeRandomnessRequested,
        ),
        CompetitionRoundStatus::WinnerAndPrizeRandomnessRequested => Some(
            CompetitionRoundStatus::WinnerAndPrizeRandomnessComplete,
        ),
        CompetitionRoundStatus::WinnerAndPrizeRandomnessComplete => Some(
            CompetitionRoundStatus::WinnerSettlementComplete,
        ),
        CompetitionRoundStatus::WinnerSettlementComplete => Some(CompetitionRoundStatus::Active),
        CompetitionRoundStatus::Expired => None,
    }
}

/// Who funds the prizes, and how much of the pool they give away.
#[derive(Clone, Copy, Debug, PartialEq, Eq)]
pub struct SponsorInfo {
    pub sponsor: [u8; 32],
    /// Token amount always left to the sponsor.
    pub min_sponsor_amount: u64,
    /// Fraction (in millionths) of the amount above the floor that may be won.
    pub max_sponsor_fraction: u64,
}

impl Default for SponsorInfo {
    fn default() -> (r: Self)
        ensures
            forall|i: int| 0 <= i < 32 ==> #[trigger] r.sponsor@[i] == 0,
            r.min_sponsor_amount == 0 && r.max_sponsor_fraction == 0,
    {
        SponsorInfo { sponsor: [0u8; 32], min_sponsor_amount: 0, max_sponsor_fraction: 0 }
    }
}

/// State of one competition and of its current round. Prize quantities are
/// counted in shares of the insurance pool.
#[derive(Clone, Copy, Debug, PartialEq, Eq)]
pub struct Competition {
    pub sponsor_info: SponsorInfo,
    pub number_of_competitors: u128,
    pub number_of_competitors_settled: u128,
    /// Tickets handed out so far this round: the upper bound of the winner draw.
    pub total_score_settled: u128,
    /// Ticket cap per competitor and round; 0 for none.
    pub max_entries_per_competitor: u128,
    pub prize_amount: u128,
    pub prize_amount_settled: u128,
    /// Share base at which the prize fields were counted.
    pub prize_base: u128,
    pub winner_randomness: u128,
    pub prize_randomness: u128,
    /// Upper bound of the prize draw when it was requested.
    pub prize_randomness_max: u128,
    pub outstanding_unclaimed_winnings: u128,
    pub round_number: u64,
    pub next_round_expiry_ts: i64,
    /// End of the whole competition; 0 for never.
    pub competition_expiry_ts: i64,
    pub round_duration: u64,
    pub number_of_winners: u32,
    pub number_of_winners_settled: u32,
    pub status: CompetitionRoundStatus,
}

impl Default for Competition {
    fn default() -> (r: Self)
        ensures
            forall|i: int| 0 <= i < 32 ==> #[trigger] r.sponsor_info.sponsor@[i] == 0,
            r.sponsor_info.min_sponsor_amount == 0 && r.sponsor_info.max_sponsor_fraction == 0,
            r.number_of_competitors == 0 && r.number_of_competitors_settled == 0,
            r.total_score_settled == 0 && r.max_entries_per_competitor == 0,
            r.prize_amount == 0 && r.prize_amount_settled == 0 && r.prize_base == 0,
            r.winner_randomness == 0 && r.prize_randomness == 0 && r.prize_randomness_max == 0,
            r.outstanding_unclaimed_winnings == 0,
            r.round_number == 0 && r.next_round_expiry_ts == 0 && r.competition_expiry_ts == 0,
            r.round_duration == 0,
            r.number_of_winners == 0 && r.number_of_winners_settled == 0,
            r.status == CompetitionRoundStatus::Active,
    {
        Competition {
            sponsor_info: SponsorInfo::default(),
            number_of_competitors: 0,
            number_of_competitors_settled: 0,
            total_score_settled: 0,
            max_entries_per_competitor: 0,
            prize_amount: 0,
            prize_amount_settled: 0,
            prize_base: 0,
            winner_randomness: 0,
            prize_randomness: 0,
            prize_randomness_max: 0,
            outstanding_unclaimed_winnings: 0,
            round_number: 0,
            next_round_expiry_ts: 0,
            competition_expiry_ts: 0,
            round_duration: 0,
            number_of_winners: 0,
            number_of_winners_settled: 0,
            status: CompetitionRoundStatus::Active,
        }
    }
}

/// The round's counters agree: no more competitors settled than entered, no
/// more of the prize paid out than drawn, no more winners than places.
pub open spec fn counters_consistent(c: Competition) -> bool {
    &&& c.number_of_competitors_settled <= c.number_of_competitors
    &&& c.prize_amount_settled <= c.prize_amount
    &&& c.number_of_winners_settled <= c.number_of_winners
}

/// A check that passes (`None`) or fails with an error, as a result.
pub open spec fn check_result(e: Option<ErrorCode>) -> CompetitionResult {
    match e {
        Some(e) => Err(e),
        None => Ok(()),
    }
}

/// The first of two checks that fails.
pub open spec fn first_error(a: Option<ErrorCode>, b: Option<ErrorCode>) -> Option<ErrorCode> {
    if a is Some {
        a
    } else {
        b
    }
}

/// The timestamp that ends the current round once `now` has been reached:
/// unchanged before it, else the first later point of the round grid.
pub open spec fn next_round_expiry(next: int, duration: int, now: int) -> int {
    if now < next {
        next
    } else {
        next + duration * ((now - next) / duration + 1)
    }
}

/// Whether the next round end can be computed in 64 bits at `now`.
pub open spec fn next_round_expiry_ok(c: Competition, now: i64) -> bool {
    now < c.next_round_expiry_ts || (c.round_duration > 0 && now - c.next_round_expiry_ts
        <= i64::MAX && c.round_duration * ((now - c.next_round_expiry_ts) / (
    c.round_duration as int) + 1) <= i64::MAX && next_round_expiry(
        c.next_round_expiry_ts as int,
        c.round_duration as int,
        now as int,
    ) <= i64::MAX)
}

/// The competition has passed its end, or was expired.
pub open spec fn expired(c: Competition, now: i64) -> bool {
    (c.competition_expiry_ts != 0 && c.competition_expiry_ts <= now) || c.status
        == CompetitionRoundStatus::Expired
}

/// Why the round is not open for settlement work, if it is not.
pub open spec fn active_error(c: Competition, now: i64) -> Option<ErrorCode> {
    if c.status != CompetitionRoundStatus::Active {
        Some(ErrorCode::CompetitionStatusNotActive)
    } else if expired(c, now) {
        Some(ErrorCode::CompetitionExpired)
    } else {
        None
    }
}

/// Why competitors may no longer enter or leave this round, if so.
pub open spec fn settlement_started_error(c: Competition, now: i64) -> Option<ErrorCode> {
    first_error(
        active_error(c, now),
        if c.number_of_competitors_settled != 0 {
            Some(ErrorCode::CompetitionInvariantIssue)
        } else {
            None
        },
    )
}

/// Why competitors cannot be settled yet, if so.
pub open spec fn ready_for_settlement_error(c: Competition, now: i64) -> Option<ErrorCode> {
    if active_error(c, now) is Some {
        active_error(c, now)
    } else if now < c.next_round_expiry_ts {
        Some(ErrorCode::CompetitionRoundOngoing)
    } else if c.number_of_competitors_settled > c.number_of_competitors {
        Some(ErrorCode::CompetitionInvariantIssue)
    } else {
        None
    }
}

/// Why the round cannot be reset yet, if so.
pub open spec fn settlement_complete_error(c: Competition) -> Option<ErrorCode> {
    if c.number_of_competitors != c.number_of_competitors_settled || c.status
        != CompetitionRoundStatus::WinnerSettlementComplete {
        Some(ErrorCode::InvalidRoundSettlementDetected)
    } else {
        None
    }
}

/// Why the round's tickets are not all handed out yet, if so.
pub open spec fn resolved_error(c: Competition) -> Option<ErrorCode> {
    if c.number_of_competitors > 0 && c.number_of_competitors == c.number_of_competitors_settled {
        None
    } else {
        Some(ErrorCode::CompetitionRoundInSettlementPhase)
    }
}

/// Why `competitor` is not the drawn winner, if so.
pub open spec fn winner_error(c: Competition, competitor: Competitor) -> Option<ErrorCode> {
    if !(c.status == CompetitionRoundStatus::WinnerAndPrizeRandomnessComplete
        && c.winner_randomness != 0) {
        Some(ErrorCode::CompetitionWinnerNotDetermined)
    } else if c.round_number >= competitor.competition_round_number {
        Some(ErrorCode::CompetitorHasWrongRoundNumber)
    } else if !(competitor.min_draw < c.winner_randomness <= competitor.max_draw) {
        Some(ErrorCode::CompetitorNotWinner)
    } else {
        None
    }
}

impl Competition {
    /// Moves the round to its next phase. `new_status` must be the successor
    /// of the current phase; asking for `Expired` changes nothing (only
    /// `expire` ends a competition).
    pub fn update_status(&mut self, new_status: CompetitionRoundStatus) -> (r: CompetitionResult)
        ensures
            r is Ok <==> (new_status == CompetitionRoundStatus::Expired || next_status(
                old(self).status,
            ) == Some(new_status)),
            r is Ok && new_status != CompetitionRoundStatus::Expired ==> *final(self) == (
            Competition { status: new_status, ..*old(self) }),
            new_status == CompetitionRoundStatus::Expired ==> *final(self) == *old(self),
            r matches Err(e) ==> e == ErrorCode::InvalidStatusUpdateDetected && *final(self)
                == *old(self),
    {
        if new_status != CompetitionRoundStatus::Expired {
            if successor(self.status) != Some(new_status) {
                return Err(ErrorCode::InvalidStatusUpdateDetected);
            }
            self.status = new_status;
        }
        Ok(())
    }

    /// End timestamp of round `round_number` on the round grid.
    pub fn calculate_round_end_ts(&self) -> (r: CompetitionResult<i64>)
        ensures
            r is Ok <==> (self.round_duration * self.round_number <= i64::MAX
                && self.next_round_expiry_ts + self.round_duration * self.round_number
                <= i64::MAX),
            r matches Ok(t) ==> t == self.next_round_expiry_ts + self.round_duration
                * self.round_number,
            r matches Err(e) ==> e == ErrorCode::DriftError,
    {
        match self.round_duration.checked_mul(self.round_number) {
            None => Err(ErrorCode::DriftError),
            Some(p) => {
                if p > i64::MAX as u64 {
                    return Err(ErrorCode::DriftError);
                }
                match self.next_round_expiry_ts.checked_add(p as i64) {
                    Some(t) => Ok(t),
                    None => Err(ErrorCode::DriftError),
                }
            },
        }
    }

    /// End of the round that is running at `now`: unchanged while `now` is
    /// before the current expiry, else the first later point of the round
    /// grid, found in closed form however many rounds went by.
    pub fn calculate_next_round_expiry_ts(&self, now: i64) -> (r: CompetitionResult<i64>)
        ensures
            r is Ok <==> next_round_expiry_ok(*self, now),
            r matches Ok(t) ==> t == next_round_expiry(
                self.next_round_expiry_ts as int,
                self.round_duration as int,
                now as int,
            ),
            r matches Ok(t) ==> now >= self.next_round_expiry_ts ==> (t > now && t
                - self.round_duration <= now && (t - self.next_round_expiry_ts)
                % (self.round_duration as int) == 0),
            r matches Err(e) ==> e == ErrorCode::DriftError,
    {
        let next = self.next_round_expiry_ts;
        let dur = self.round_duration;
        if now < next {
            return Ok(next);
        }
        if dur == 0 {
            return Err(ErrorCode::DriftError);
        }
        let diff = match now.checked_sub(next) {
            Some(d) => d,
            None => {
                return Err(ErrorCode::DriftError);
            },
        };
        let q: u64 = (diff as u64) / dur;
        proof {
            lemma_grid_step(diff as int, dur as int, q as int);
        }
        let steps: u64 = q + 1;
        let span = match dur.checked_mul(steps) {
            Some(s) => s,
            None => {
                return Err(ErrorCode::DriftError);
            },
        };
        if span > i64::MAX as u64 {
            return Err(ErrorCode::DriftError);
        }
        match next.checked_add(span as i64) {
            Some(t) => Ok(t),
            None => Err(ErrorCode::DriftError),
        }
    }

    /// Ends the competition once its expiry has passed.
    pub fn expire(&mut self, now: i64) -> (r: CompetitionResult)
        ensures
            r is Ok <==> (old(self).competition_expiry_ts != 0 && old(self).competition_expiry_ts
                <= now),
            r is Ok ==> *final(self) == (Competition {
                status: CompetitionRoundStatus::Expired,
                ..*old(self)
            }),
            r matches Err(e) ==> e == ErrorCode::CompetitionRoundOngoing && *final(self)
                == *old(self),
    {
        if self.competition_expiry_ts != 0 && self.competition_expiry_ts <= now {
            self.status = CompetitionRoundStatus::Expired;
            Ok(())
        } else {
            Err(ErrorCode::CompetitionRoundOngoing)
        }
    }

    pub fn validate_round_settlement_hasnt_started(&self, now: i64) -> (r: CompetitionResult)
        ensures
            r == check_result(settlement_started_error(*self, now)),
    {
        self.validate_round_is_active(now)?;
        if self.number_of_competitors_settled != 0 {
            return Err(ErrorCode::CompetitionInvariantIssue);
        }
        Ok(())
    }

    pub fn validate_round_is_active(&self, now: i64) -> (r: CompetitionResult)
        ensures
            r == check_result(active_error(*self, now)),
    {
        if self.status != CompetitionRoundStatus::Active {
            return Err(ErrorCode::CompetitionStatusNotActive);
        }
        if self.is_expired(now)? {
            return Err(ErrorCode::CompetitionExpired);
        }
        Ok(())
    }

    pub fn is_expired(&self, now: i64) -> (r: CompetitionResult<bool>)
        ensures
            r == Ok::<bool, ErrorCode>(expired(*self, now)),
    {
        Ok((self.competition_expiry_ts != 0 && self.competition_expiry_ts <= now) || self.status
            == CompetitionRoundStatus::Expired)
    }

    pub fn validate_round_ready_for_settlement(&self, now: i64) -> (r: CompetitionResult)
        ensures
            r == check_result(ready_for_settlement_error(*self, now)),
    {
        self.validate_round_is_active(now)?;
        if now < self.next_round_expiry_ts {
            return Err(ErrorCode::CompetitionRoundOngoing);
        }
        if self.number_of_competitors_settled > self.number_of_competitors {
            return Err(ErrorCode::CompetitionInvariantIssue);
        }
        Ok(())
    }

    pub fn validate_round_settlement_complete(&self) -> (r: CompetitionResult)
        ensures
            r == check_result(settlement_complete_error(*self)),
    {
        if self.number_of_competitors != self.number_of_competitors_settled || self.status
            != CompetitionRoundStatus::WinnerSettlementComplete {
            return Err(ErrorCode::InvalidRoundSettlementDetected);
        }
        Ok(())
    }

    pub fn validate_round_resolved(&self) -> (r: CompetitionResult)
        ensures
            r == check_result(resolved_error(*self)),
    {
        if self.number_of_competitors > 0 && self.number_of_competitors
            == self.number_of_competitors_settled {
            Ok(())
        } else {
            Err(ErrorCode::CompetitionRoundInSettlementPhase)
        }
    }

    /// Accepts only the competitor whose ticket range holds the winner draw,
    /// once the draw is known and the competitor was settled this round.
    pub fn validate_competitor_is_winner(&self, competitor: &Competitor) -> (r: CompetitionResult)
        ensures
            r == check_result(winner_error(*self, *competitor)),
    {
        if !(self.status == CompetitionRoundStatus::WinnerAndPrizeRandomnessComplete
            && self.winner_randomness != 0) {
            return Err(ErrorCode::CompetitionWinnerNotDetermined);
        }
        if self.round_number >= competitor.competition_round_number {
            return Err(ErrorCode::CompetitorHasWrongRoundNumber);
        }
        if !(self.winner_randomness > competitor.min_draw && self.winner_randomness
            <= competitor.max_draw) {
            return Err(ErrorCode::CompetitorNotWinner);
        }
        Ok(())
    }

    /// The competitor is active and synchronised to the current round.
    pub fn competitor_can_be_settled(&self, competitor: &Competitor) -> (r: CompetitionResult<
        bool,
    >)
        ensures
            r == Ok::<bool, ErrorCode>(self.round_number == competitor.competition_round_number
                && competitor.status == CompetitorStatus::Active),
    {
        let round_match = self.round_number == competitor.competition_round_number;
        Ok(round_match && competitor.is_active()?)
    }
}

/// How a settlement call ended when it did not fail.
#[derive(Clone, Copy, Debug, PartialEq, Eq, Structural)]
pub enum SettlementOutcome {
    /// The competitor received this round's tickets.
    Settled,
    /// The competitor was already settled this round, is on another round, or
    /// is disqualified: nothing changed.
    Skipped,
}

/// `x + 1`, staying at the maximum.
pub open spec fn saturating_inc(x: u128) -> u128 {
    if x < u128::MAX {
        (x + 1) as u128
    } else {
        x
    }
}

/// A round score, limited by the per-competitor cap when there is one.
pub open spec fn capped_score(cap: u128, score: int) -> int {
    if cap > 0 && score > cap {
        cap as int
    } else {
        score
    }
}

/// Tickets earned this round before the cap.
pub open spec fn raw_round_score(c: Competitor, total_fee_paid: u64) -> int {
    snapshot_score(total_fee_paid) - c.previous_snapshot_score + c.bonus_score
}

/// Tickets that `c` receives this round: none while it holds unclaimed
/// winnings, else its capped round score.
pub open spec fn round_tickets(comp: Competition, c: Competitor, total_fee_paid: u64) -> int {
    if c.unclaimed_winnings != 0 {
        0
    } else {
        capped_score(comp.max_entries_per_competitor, raw_round_score(c, total_fee_paid))
    }
}

/// Why settling an eligible competitor fails, if it does: every counted
/// competitor is already settled, the score watermark went back, or a counter
/// would overflow.
pub open spec fn settle_failure(comp: Competition, c: Competitor, total_fee_paid: u64) -> Option<
    ErrorCode,
> {
    if comp.number_of_competitors_settled >= comp.number_of_competitors {
        Some(ErrorCode::CompetitionInvariantIssue)
    } else if snapshot_score(total_fee_paid) < c.previous_snapshot_score {
        Some(ErrorCode::CompetitorSnapshotIssue)
    } else if c.unclaimed_winnings == 0 && (raw_round_score(c, total_fee_paid) > u64::MAX
        || comp.total_score_settled + round_tickets(comp, c, total_fee_paid) > u128::MAX) {
        Some(ErrorCode::DriftError)
    } else if c.competition_round_number == u64::MAX {
        Some(ErrorCode::DriftError)
    } else {
        None
    }
}

/// The competition after settling `c`.
pub open spec fn settled_competition(comp: Competition, c: Competitor, total_fee_paid: u64) -> Competition {
    Competition {
        total_score_settled: (comp.total_score_settled + round_tickets(comp, c, total_fee_paid)) as u128,
        number_of_competitors_settled: saturating_inc(comp.number_of_competitors_settled),
        ..comp
    }
}

/// The competitor after being settled: its tickets are the range that
/// follows every range handed out before it this round.
pub open spec fn settled_competitor(comp: Competition, c: Competitor, total_fee_paid: u64) -> Competitor {
    Competitor {
        min_draw: comp.total_score_settled,
        max_draw: (comp.total_score_settled + round_tickets(comp, c, total_fee_paid)) as u128,
        bonus_score: if c.unclaimed_winnings == 0 {
            (round_tickets(comp, c, total_fee_paid) / 2) as u64
        } else {
            c.bonus_score
        },
        previous_snapshot_score: snapshot_score(total_fee_paid) as u64,
        competition_round_number: (c.competition_round_number + 1) as u64,
        ..c
    }
}

/// Result of settling `c` for the round that ended at `now`, with the
/// competition and the competitor after it; nothing changes unless it is
/// `Ok(Settled)`.
pub open spec fn competitor_settlement(
    comp: Competition,
    c: Competitor,
    total_fee_paid: u64,
    now: i64,
) -> (CompetitionResult<SettlementOutcome>, Competition, Competitor) {
    if ready_for_settlement_error(comp, now) is Some {
        (Err(ready_for_settlement_error(comp, now).unwrap()), comp, c)
    } else if !(comp.round_number == c.competition_round_number && c.status
        == CompetitorStatus::Active) {
        (Ok(SettlementOutcome::Skipped), comp, c)
    } else if settle_failure(comp, c, total_fee_paid) is Some {
        (Err(settle_failure(comp, c, total_fee_paid).unwrap()), comp, c)
    } else {
        (
            Ok(SettlementOutcome::Settled),
            settled_competition(comp, c, total_fee_paid),
            settled_competitor(comp, c, total_fee_paid),
        )
    }
}

impl Competition {
    /// Hands `competitor` its tickets for the round that ended: the range
    /// `(total_score_settled, total_score_settled + tickets]`, where the
    /// tickets are its new score plus its bonus, capped, or none while it
    /// holds unclaimed winnings. Half of the tickets carry over as bonus.
    /// `total_fee_paid` is the external cumulative score of the competitor.
    /// A competitor that is not active or not on the current round is skipped.
    pub fn settle_competitor(
        &mut self,
        competitor: &mut Competitor,
        total_fee_paid: u64,
        now: i64,
    ) -> (r: CompetitionResult<SettlementOutcome>)
        ensures
            (r, *final(self), *final(competitor)) == competitor_settlement(
                *old(self),
                *old(competitor),
                total_fee_paid,
                now,
            ),
    {
        self.validate_round_ready_for_settlement(now)?;
        if !self.competitor_can_be_settled(competitor)? {
            return Ok(SettlementOutcome::Skipped);
        }
        if self.number_of_competitors_settled >= self.number_of_competitors {
            return Err(ErrorCode::CompetitionInvariantIssue);
        }
        let snapshot = competitor.calculate_snapshot_score(total_fee_paid);
        if snapshot < competitor.previous_snapshot_score {
            return Err(ErrorCode::CompetitorSnapshotIssue);
        }
        let mut tickets: u128 = 0;
        let mut bonus = competitor.bonus_score;
        if competitor.unclaimed_winnings == 0 {
            let round_score = competitor.calculate_round_score(total_fee_paid)?;
            tickets = if self.max_entries_per_competitor > 0 && round_score as u128
                > self.max_entries_per_competitor {
                self.max_entries_per_competitor
            } else {
                round_score as u128
            };
            // half of the capped score carries over as next round's bonus
            bonus = (tickets / 2) as u64;
        }
        let new_total = match self.total_score_settled.checked_add(tickets) {
            Some(t) => t,
            None => {
                return Err(ErrorCode::DriftError);
            },
        };
        if competitor.competition_round_number == u64::MAX {
            return Err(ErrorCode::DriftError);
        }
        competitor.min_draw = self.total_score_settled;
        competitor.max_draw = new_total;
        competitor.bonus_score = bonus;
        competitor.previous_snapshot_score = snapshot;
        competitor.competition_round_number = competitor.competition_round_number + 1;
        self.total_score_settled = new_total;
        self.number_of_competitors_settled = self.number_of_competitors_settled.saturating_add(1);
        Ok(SettlementOutcome::Settled)
    }
}

/// The first grid point after `diff` lies less than one step beyond it.
pub proof fn lemma_grid_step(diff: int, dur: int, q: int)
    requires
        diff >= 0,
        dur > 0,
        q == diff / dur,
    ensures
        dur * (q + 1) > diff,
        dur * (q + 1) - dur <= diff,
        (dur * (q + 1)) % dur == 0,
        q + 1 <= diff + 1,
{
    vstd::arithmetic::div_mod::lemma_fundamental_div_mod(diff, dur);
    vstd::arithmetic::div_mod::lemma_mod_multiples_basic(q + 1, dur);
    vstd::arithmetic::div_mod::lemma_div_is_ordered_by_denominator(diff, 1, dur);
    assert(dur * (q + 1) == dur * q + dur) by (nonlinear_arith);
    assert((q + 1) * dur == dur * (q + 1)) by (nonlinear_arith);
}

} // verus!
