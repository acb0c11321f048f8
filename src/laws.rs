//! Properties that hold across calls of the settlement engine.
use vstd::prelude::*;

use crate::claim::{status_change, winnings_claim};
use crate::competition::{
    counters_consistent, competitor_settlement, next_status, round_tickets, settle_failure, settled_competition,
    settled_competitor, Competition, CompetitionRoundStatus, SettlementOutcome,
};
use crate::competitor::{Competitor, CompetitorStatus};
use crate::error::ErrorCode;
use crate::market::InsuranceFund;
use crate::math::{div_ceil, lemma_pow10_monotone, pow10, shares_for_amount, shares_for_amount_ok};
use crate::prize::{
    bucket_sum, effective_draw, prize_buckets, prize_outcome, prize_ratios, ratio_sum,
    selected_bucket, sponsor_max_prize, sponsor_max_prize_ok,
};
use crate::utils::{rebased, rebased_competition, rebased_competitor};
use crate::winner::{next_winner_prize, round_reset, winner_settlement};

verus! {

/// Ticket ranges `(lo, hi]` handed out one after another, from 0 up to `total`.
pub open spec fn consecutive_ranges(ranges: Seq<(u128, u128)>, total: int) -> bool {
    &&& forall|i: int| 0 <= i < ranges.len() ==> #[trigger] ranges[i].0 <= ranges[i].1
    &&& forall|i: int| 0 <= i < ranges.len() - 1 ==> #[trigger] ranges[i + 1].0 == ranges[i].1
    &&& ranges.len() == 0 ==> total == 0
    &&& ranges.len() > 0 ==> ranges[0].0 == 0 && ranges.last().1 == total
}

/// Ticket `t` lies in range `r`.
pub open spec fn in_range(r: (u128, u128), t: int) -> bool {
    r.0 < t <= r.1
}

/// Some range holds ticket `t`.
pub open spec fn covered(ranges: Seq<(u128, u128)>, t: int) -> bool {
    exists|i: int| 0 <= i < ranges.len() && in_range(#[trigger] ranges[i], t)
}

/// Settling an eligible competitor appends its range to the ranges handed
/// out so far in the round, and the range is as wide as its tickets.
pub proof fn lemma_settlement_extends_ranges(
    ranges: Seq<(u128, u128)>,
    comp: Competition,
    c: Competitor,
    total_fee_paid: u64,
    now: i64,
)
    requires
        consecutive_ranges(ranges, comp.total_score_settled as int),
        competitor_settlement(comp, c, total_fee_paid, now).0 == Ok::<
            SettlementOutcome,
            ErrorCode,
        >(SettlementOutcome::Settled),
    ensures
        ({
            let (_, comp1, c1) = competitor_settlement(comp, c, total_fee_paid, now);
            &&& consecutive_ranges(
                ranges.push((c1.min_draw, c1.max_draw)),
                comp1.total_score_settled as int,
            )
            &&& c1.max_draw - c1.min_draw == round_tickets(comp, c, total_fee_paid)
        }),
{
    let (_, comp1, c1) = competitor_settlement(comp, c, total_fee_paid, now);
    let next = ranges.push((c1.min_draw, c1.max_draw));
    assert(settle_failure(comp, c, total_fee_paid) is None);
    assert(comp1 == settled_competition(comp, c, total_fee_paid));
    assert(c1 == settled_competitor(comp, c, total_fee_paid));
    assert(round_tickets(comp, c, total_fee_paid) >= 0);
    assert forall|i: int| 0 <= i < next.len() - 1 implies #[trigger] next[i + 1].0
        == next[i].1 by {
        if i < ranges.len() - 1 {
            assert(next[i + 1] == ranges[i + 1]);
        }
    }
    assert forall|i: int| 0 <= i < next.len() implies #[trigger] next[i].0 <= next[i].1 by {
        if i < ranges.len() {
            assert(next[i] == ranges[i]);
        }
    }
}

/// Ranges handed out earlier end before later ranges start.
proof fn lemma_ranges_ordered(ranges: Seq<(u128, u128)>, total: int, i: int, j: int)
    requires
        consecutive_ranges(ranges, total),
        0 <= i < j < ranges.len(),
    ensures
        ranges[i].1 <= ranges[j].0,
    decreases j - i,
{
    if j > i + 1 {
        lemma_ranges_ordered(ranges, total, i, j - 1);
        assert(ranges[j - 1].0 <= ranges[j - 1].1);
        assert(ranges[(j - 1) + 1].0 == ranges[j - 1].1);
    } else {
        assert(ranges[i + 1].0 == ranges[i].1);
    }
}

/// The ticket ranges of a round partition `(0, total]`: every ticket in it
/// lies in exactly one range, and no ticket outside it lies in any.
pub proof fn lemma_ticket_ranges_partition(ranges: Seq<(u128, u128)>, total: int, t: int)
    requires
        consecutive_ranges(ranges, total),
    ensures
        (0 < t <= total) <==> (exists|i: int| 0 <= i < ranges.len() && in_range(#[trigger] ranges[i], t)),
        forall|i: int, j: int|
            0 <= i < ranges.len() && 0 <= j < ranges.len() && in_range(#[trigger] ranges[i], t)
                && in_range(#[trigger] ranges[j], t) ==> i == j,
    decreases ranges.len(),
{
    assert forall|i: int, j: int|
        0 <= i < ranges.len() && 0 <= j < ranges.len() && in_range(#[trigger] ranges[i], t)
            && in_range(#[trigger] ranges[j], t) implies i == j by {
        if i < j {
            lemma_ranges_ordered(ranges, total, i, j);
        } else if j < i {
            lemma_ranges_ordered(ranges, total, j, i);
        }
    }
    if ranges.len() > 0 {
        let n = ranges.len() - 1;
        let prefix = ranges.drop_last();
        let start = ranges[n].0 as int;
        assert(consecutive_ranges(prefix, start)) by {
            assert forall|i: int| 0 <= i < prefix.len() - 1 implies #[trigger] prefix[i + 1].0
                == prefix[i].1 by {
                assert(ranges[i + 1].0 == ranges[i].1);
            }
            assert forall|i: int| 0 <= i < prefix.len() implies #[trigger] prefix[i].0
                <= prefix[i].1 by {
                assert(ranges[i].0 <= ranges[i].1);
            }
            if n > 0 {
                assert(ranges[(n - 1) + 1].0 == ranges[n - 1].1);
            }
        }
        lemma_ticket_ranges_partition(prefix, start, t);
        if 0 < t <= total {
            if t > start {
                assert(in_range(ranges[n], t));
            } else {
                let i = choose|i: int| 0 <= i < prefix.len() && in_range(#[trigger] prefix[i], t);
                assert(in_range(ranges[i], t));
            }
        }
        if exists|i: int| 0 <= i < ranges.len() && in_range(#[trigger] ranges[i], t) {
            let i = choose|i: int| 0 <= i < ranges.len() && in_range(#[trigger] ranges[i], t);
            assert(ranges[n].0 <= ranges[n].1);
            if i < n {
                assert(in_range(prefix[i], t));
                lemma_ranges_ordered(ranges, total, i, n);
            }
        }
    }
}

/// Settling a competitor a second time in the same round, whatever the
/// score and the time, changes nothing and does not count it again.
pub proof fn lemma_resettlement_is_noop(
    comp: Competition,
    c: Competitor,
    total_fee_paid: u64,
    now: i64,
    later_fee_paid: u64,
    later: i64,
)
    requires
        competitor_settlement(comp, c, total_fee_paid, now).0 == Ok::<
            SettlementOutcome,
            ErrorCode,
        >(SettlementOutcome::Settled),
    ensures
        ({
            let (_, comp1, c1) = competitor_settlement(comp, c, total_fee_paid, now);
            let (r2, comp2, c2) = competitor_settlement(comp1, c1, later_fee_paid, later);
            &&& r2 != Ok::<SettlementOutcome, ErrorCode>(SettlementOutcome::Settled)
            &&& comp2 == comp1
            &&& c2 == c1
        }),
{
}

/// The smallest prize is at least ten times as hard to win as the largest,
/// for every largest prize of 10 token units or more (and for none at all).
pub proof fn lemma_bucket_odds(max_prize: int)
    requires
        0 <= max_prize <= u64::MAX,
        max_prize == 0 || max_prize >= 10,
    ensures
        prize_ratios(max_prize)[0] / 10 >= prize_ratios(max_prize)[2],
{
    let m = max_prize;
    if m >= 10 {
        let b = prize_buckets(m);
        let s = bucket_sum(m);
        assert(b[0] <= m / 10 && b[1] <= m / 2 && b[0] >= 1);
        assert(10 * (m / 10) <= m) by {
            vstd::arithmetic::div_mod::lemma_fundamental_div_mod(m, 10);
        }
        assert(2 * (m / 2) <= m) by {
            vstd::arithmetic::div_mod::lemma_fundamental_div_mod(m, 2);
        }
        assert(m <= s < 2 * m);
        assert(s / m == 1) by {
            vstd::arithmetic::div_mod::lemma_fundamental_div_mod(s, m);
            assert(s / m == 1) by (nonlinear_arith)
                requires
                    s == m * (s / m) + s % m,
                    0 <= s % m < m,
                    m <= s < 2 * m,
            ;
        }
        assert(s / b[0] >= 10) by {
            vstd::arithmetic::div_mod::lemma_fundamental_div_mod(s, b[0]);
            assert(s / b[0] >= 10) by (nonlinear_arith)
                requires
                    s == b[0] * (s / b[0]) + s % b[0],
                    0 <= s % b[0] < b[0],
                    10 * b[0] <= s,
                    b[0] >= 1,
            ;
        }
        assert(div_ceil(s, b[0]) >= 10);
    }
}

/// The prize draw picks bucket `i` for every draw in the `i`-th range of
/// cumulative odds weights; draws up to the first weight pick the smallest.
pub proof fn lemma_prize_draw_determinism(ratios: Seq<int>, d: int)
    requires
        ratios.len() == 3,
        forall|i: int| 0 <= i < 3 ==> #[trigger] ratios[i] >= 0,
    ensures
        0 <= d <= ratios[0] ==> selected_bucket(ratios, d) == 0,
        ratios[0] < d <= ratios[0] + ratios[1] ==> selected_bucket(ratios, d) == 1,
        ratios[0] + ratios[1] < d <= ratio_sum(ratios) ==> selected_bucket(ratios, d) == 2,
        d > ratio_sum(ratios) ==> selected_bucket(ratios, d) == 3,
{
}

/// With a prize draw no larger than the first odds weight and a draw range
/// that did not shrink, the prize is the smallest bucket, in pool shares.
pub proof fn lemma_small_draw_wins_smallest_prize(
    c: Competition,
    f: InsuranceFund,
    vault_balance: u64,
)
    requires
        sponsor_max_prize_ok(c, f, vault_balance),
        c.prize_randomness <= prize_ratios(sponsor_max_prize(c, f, vault_balance))[0],
        ratio_sum(prize_ratios(sponsor_max_prize(c, f, vault_balance))) >= c.prize_randomness_max,
        shares_for_amount_ok(
            prize_buckets(sponsor_max_prize(c, f, vault_balance))[0],
            f.total_shares as int,
            vault_balance as int,
        ),
    ensures
        prize_outcome(c, f, vault_balance) == Ok::<(u128, usize), ErrorCode>(
            (
                shares_for_amount(
                    prize_buckets(sponsor_max_prize(c, f, vault_balance))[0],
                    f.total_shares as int,
                    vault_balance as int,
                ) as u128,
                0usize,
            ),
        ),
{
    let m = sponsor_max_prize(c, f, vault_balance);
    assert(effective_draw(c.prize_randomness, c.prize_randomness_max, ratio_sum(prize_ratios(m)))
        == c.prize_randomness);
}

/// A round can only be reset once every competitor and every winner is
/// settled; a reset starts the next round with no tickets handed out.
pub proof fn lemma_reset_gating(c: Competition, now: i64)
    ensures
        round_reset(c, now).0 is Ok ==> c.status == CompetitionRoundStatus::WinnerSettlementComplete
            && c.number_of_competitors == c.number_of_competitors_settled,
        round_reset(c, now).0 is Ok ==> round_reset(c, now).1.round_number == c.round_number + 1
            && round_reset(c, now).1.total_score_settled == 0 && round_reset(c, now).1.status
            == CompetitionRoundStatus::Active,
        round_reset(c, now).0 is Err ==> round_reset(c, now).1 == c,
{
}

/// A share amount recorded at base `b` is worth `x / 10^k` at base `b + k`;
/// rebasing again at an unchanged base changes nothing.
pub proof fn lemma_rebase(x: int, base: u128, k: nat, c: Competition, w: Competitor)
    requires
        base + k <= u128::MAX,
    ensures
        rebased(x, base, (base + k) as u128) == x / pow10(k),
        rebased(x, base, base) == x,
        rebased_competition(rebased_competition(c, base), base) == rebased_competition(c, base),
        rebased_competitor(rebased_competitor(w, base), base) == rebased_competitor(w, base),
{
    if k == 0 {
        assert(pow10(0) == 1);
        assert(x / 1 == x);
    }
}

/// Rebasing keeps the prize paid out within the prize.
proof fn lemma_rebase_keeps_prize_order(c: Competition, base: u128)
    requires
        c.prize_amount_settled <= c.prize_amount,
        c.prize_base <= base,
    ensures
        rebased_competition(c, base).prize_amount_settled <= rebased_competition(
            c,
            base,
        ).prize_amount,
{
    if c.prize_base != base {
        let d = pow10((base - c.prize_base) as nat);
        lemma_pow10_monotone(0, (base - c.prize_base) as nat);
        vstd::arithmetic::div_mod::lemma_div_is_ordered(
            c.prize_amount_settled as int,
            c.prize_amount as int,
            d,
        );
    }
}

/// Settling competitors, settling winners, claiming winnings and resetting
/// the round keep the round's counters consistent.
pub proof fn lemma_counters_stay_consistent(
    c: Competition,
    w: Competitor,
    f: InsuranceFund,
    total_fee_paid: u64,
    stake_base: u128,
    n_shares: Option<u64>,
    now: i64,
)
    requires
        counters_consistent(c),
    ensures
        counters_consistent(competitor_settlement(c, w, total_fee_paid, now).1),
        counters_consistent(winner_settlement(c, w, f).1),
        counters_consistent(winnings_claim(c, w, f, stake_base, n_shares, now).1),
        counters_consistent(round_reset(c, now).1),
{
    if winner_settlement(c, w, f).0 is Ok && c.number_of_winners != c.number_of_winners_settled {
        lemma_rebase_keeps_prize_order(c, f.shares_base);
        let c1 = rebased_competition(c, f.shares_base);
        assert(next_winner_prize(c1) <= c1.prize_amount - c1.prize_amount_settled);
    }
}

/// The round's phase only moves forward: every operation leaves it as it was
/// or moves it to the phase that follows.
pub proof fn lemma_status_only_advances(
    c: Competition,
    w: Competitor,
    f: InsuranceFund,
    total_fee_paid: u64,
    new_status: CompetitorStatus,
    stake_base: u128,
    n_shares: Option<u64>,
    now: i64,
)
    ensures
        competitor_settlement(c, w, total_fee_paid, now).1.status == c.status,
        status_change(c, w, total_fee_paid, new_status, now).1.status == c.status,
        winnings_claim(c, w, f, stake_base, n_shares, now).1.status == c.status,
        winner_settlement(c, w, f).1.status == c.status || Some(
            winner_settlement(c, w, f).1.status,
        ) == next_status(c.status),
        round_reset(c, now).1.status == c.status || Some(round_reset(c, now).1.status)
            == next_status(c.status),
{
}

/// Settles each `(competitor, total_fee_paid)` of `calls` in turn at `now`:
/// the competition after all of them, and the ticket ranges of the calls that
/// settled, in order.
pub open spec fn settle_in_turn(comp: Competition, calls: Seq<(Competitor, u64)>, now: i64) -> (
    Competition,
    Seq<(u128, u128)>,
)
    decreases calls.len(),
{
    if calls.len() == 0 {
        (comp, Seq::empty())
    } else {
        let (c1, ranges) = settle_in_turn(comp, calls.drop_last(), now);
        let (r, c2, w2) = competitor_settlement(c1, calls.last().0, calls.last().1, now);
        if r == Ok::<SettlementOutcome, ErrorCode>(SettlementOutcome::Settled) {
            (c2, ranges.push((w2.min_draw, w2.max_draw)))
        } else {
            (c2, ranges)
        }
    }
}

/// Over any sequence of settlement calls in a round that starts with no
/// tickets, the ranges handed out run back to back from 0 to the round's
/// ticket total, so every ticket up to it lies in exactly one of them and no
/// other ticket lies in any.
pub proof fn lemma_round_ranges_partition(comp: Competition, calls: Seq<(Competitor, u64)>, now: i64)
    requires
        comp.total_score_settled == 0,
    ensures
        ({
            let (last, ranges) = settle_in_turn(comp, calls, now);
            &&& consecutive_ranges(ranges, last.total_score_settled as int)
            &&& forall|t: int|
                (0 < t <= last.total_score_settled) <==> #[trigger] covered(ranges, t)
            &&& forall|t: int, i: int, j: int|
                0 <= i < ranges.len() && 0 <= j < ranges.len() && #[trigger] in_range(ranges[i], t)
                    && #[trigger] in_range(ranges[j], t) ==> i == j
        }),
    decreases calls.len(),
{
    lemma_round_ranges_consecutive(comp, calls, now);
    let (last, ranges) = settle_in_turn(comp, calls, now);
    assert forall|t: int|
        (0 < t <= last.total_score_settled) <==> #[trigger] covered(ranges, t) by {
        lemma_ticket_ranges_partition(ranges, last.total_score_settled as int, t);
    }
    assert forall|t: int, i: int, j: int|
        0 <= i < ranges.len() && 0 <= j < ranges.len() && #[trigger] in_range(ranges[i], t)
            && #[trigger] in_range(ranges[j], t) implies i == j by {
        lemma_ticket_ranges_partition(ranges, last.total_score_settled as int, t);
    }
}

proof fn lemma_round_ranges_consecutive(comp: Competition, calls: Seq<(Competitor, u64)>, now: i64)
    requires
        comp.total_score_settled == 0,
    ensures
        consecutive_ranges(
            settle_in_turn(comp, calls, now).1,
            settle_in_turn(comp, calls, now).0.total_score_settled as int,
        ),
    decreases calls.len(),
{
    if calls.len() > 0 {
        lemma_round_ranges_consecutive(comp, calls.drop_last(), now);
        let (c1, ranges) = settle_in_turn(comp, calls.drop_last(), now);
        let (r, _, _) = competitor_settlement(c1, calls.last().0, calls.last().1, now);
        if r == Ok::<SettlementOutcome, ErrorCode>(SettlementOutcome::Settled) {
            lemma_settlement_extends_ranges(ranges, c1, calls.last().0, calls.last().1, now);
        }
    }
}

/// The single winner of a one-place round, holding the drawn ticket and no
/// earlier winnings, is credited the whole prize, and the round's winner
/// settlement completes.
pub proof fn lemma_single_winner_takes_prize(c: Competition, w: Competitor, f: InsuranceFund)
    requires
        c.status == CompetitionRoundStatus::WinnerAndPrizeRandomnessComplete,
        c.number_of_winners == 1,
        c.number_of_winners_settled == 0,
        c.prize_amount_settled == 0,
        c.prize_amount <= u64::MAX,
        c.outstanding_unclaimed_winnings + c.prize_amount <= u128::MAX,
        c.winner_randomness != 0,
        w.min_draw < c.winner_randomness <= w.max_draw,
        c.round_number < w.competition_round_number,
        w.unclaimed_winnings == 0,
        f.shares_base == c.prize_base,
    ensures
        ({
            let (r, c2, w2) = winner_settlement(c, w, f);
            &&& r is Ok
            &&& w2.unclaimed_winnings == c.prize_amount
            &&& c2.prize_amount_settled == c.prize_amount
            &&& c2.outstanding_unclaimed_winnings == c.outstanding_unclaimed_winnings
                + c.prize_amount
            &&& c2.number_of_winners_settled == 1
            &&& c2.status == CompetitionRoundStatus::WinnerSettlementComplete
        }),
{
    let c1 = rebased_competition(c, f.shares_base);
    assert(c1 == c);
    assert(c.prize_amount as int / 1 == c.prize_amount);
    assert(next_winner_prize(c1) == c.prize_amount);
}

} // verus!
