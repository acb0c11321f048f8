use drift_competitions::competition::{Competition, CompetitionRoundStatus, SettlementOutcome};
use drift_competitions::competitor::Competitor;
use drift_competitions::error::ErrorCode;
use drift_competitions::market::SpotMarket;
use drift_competitions::math::{PERCENTAGE_PRECISION_U64, QUOTE_PRECISION};
use drift_competitions::prize::prize_buckets_and_ratios;
use drift_competitions::utils::{
    apply_rebase_to_competition_prize, apply_rebase_to_competitor_unclaimed_winnings,
};

const NOW: i64 = 168000000;

fn round_over(competitors: u128) -> Competition {
    let mut c = Competition::default();
    c.next_round_expiry_ts = NOW;
    c.round_duration = 60;
    c.number_of_winners = 1;
    c.number_of_competitors = competitors;
    c
}

fn pool(total_shares: u128, user_shares: u128, shares_base: u128) -> SpotMarket {
    let mut m = SpotMarket::default();
    m.decimals = 6;
    m.insurance_fund.total_shares = total_shares;
    m.insurance_fund.user_shares = user_shares;
    m.insurance_fund.shares_base = shares_base;
    m
}

#[test]
fn ticket_ranges_partition_the_round() {
    let mut c = round_over(3);
    let mut a = Competitor::default();
    let mut b = Competitor::default();
    let mut d = Competitor::default();
    b.bonus_score = 4;
    // 1234 fee units are 12 tickets
    c.settle_competitor(&mut a, 1234, NOW).unwrap();
    c.settle_competitor(&mut b, 0, NOW).unwrap();
    c.settle_competitor(&mut d, 99, NOW).unwrap();
    assert_eq!((a.min_draw, a.max_draw), (0, 12));
    assert_eq!((b.min_draw, b.max_draw), (12, 16));
    assert_eq!((d.min_draw, d.max_draw), (16, 16));
    assert_eq!(c.total_score_settled, 16);
    assert_eq!(c.number_of_competitors_settled, 3);
    for t in 1..=16u128 {
        let holders = [&a, &b, &d]
            .iter()
            .filter(|x| x.min_draw < t && t <= x.max_draw)
            .count();
        assert_eq!(holders, 1);
    }
    assert_eq!(a.bonus_score, 6);
    assert_eq!(b.bonus_score, 2);
}

#[test]
fn ticket_cap_limits_range_width() {
    let mut c = round_over(1);
    c.max_entries_per_competitor = 5;
    let mut a = Competitor::default();
    c.settle_competitor(&mut a, 10_000, NOW).unwrap();
    assert_eq!((a.min_draw, a.max_draw), (0, 5));
    assert_eq!(a.bonus_score, 2);
    assert_eq!(a.previous_snapshot_score, 100);
}

#[test]
fn unclaimed_winner_gets_empty_range() {
    let mut c = round_over(2);
    let mut a = Competitor::default();
    let mut w = Competitor::default();
    a.bonus_score = 3;
    w.bonus_score = 7;
    w.unclaimed_winnings = 10;
    c.settle_competitor(&mut a, 0, NOW).unwrap();
    c.settle_competitor(&mut w, 0, NOW).unwrap();
    assert_eq!((w.min_draw, w.max_draw), (3, 3));
    assert_eq!(w.bonus_score, 7);
    assert_eq!(c.total_score_settled, 3);
}

#[test]
fn resettlement_changes_nothing() {
    let mut c = round_over(2);
    let mut a = Competitor::default();
    a.bonus_score = 2;
    assert_eq!(c.settle_competitor(&mut a, 500, NOW), Ok(SettlementOutcome::Settled));
    let (c1, a1) = (c, a);
    assert_eq!(c.settle_competitor(&mut a, 900, NOW + 5), Ok(SettlementOutcome::Skipped));
    assert_eq!(c, c1);
    assert_eq!(a, a1);
    assert_eq!(c.number_of_competitors_settled, 1);
}

#[test]
fn bucket_odds_for_several_prizes() {
    for &(max_prize, buckets, ratios) in &[
        (0u64, [0u128, 0, 0], [0u128, 0, 0]),
        (10, [1, 5, 10], [16, 4, 1]),
        (10_000_000_000, [1_000_000_000, 5_000_000_000, 10_000_000_000], [16, 4, 1]),
        (100_000_000_000, [1_000_000_000, 5_000_000_000, 100_000_000_000], [106, 22, 1]),
    ] {
        let (b, r) = prize_buckets_and_ratios(max_prize);
        assert_eq!(b, buckets);
        assert_eq!(r, ratios);
        assert!(r[0] / 10 >= r[2]);
    }
}

#[test]
fn bucket_odds_below_ten_units() {
    // a largest prize under 10 units leaves the smallest bucket empty
    let (b, r) = prize_buckets_and_ratios(5);
    assert_eq!(b, [0, 2, 5]);
    assert_eq!(r, [0, 4, 1]);
}

#[test]
fn prize_draw_picks_bucket_by_cumulative_odds() {
    let mut c = Competition::default();
    c.sponsor_info.max_sponsor_fraction = PERCENTAGE_PRECISION_U64;
    let m = pool(100, 0, 0);
    let vault = (10000 * QUOTE_PRECISION) as u64;
    let (buckets, ratios) = c.calculate_prize_buckets_and_ratios(&m, vault).unwrap();
    assert_eq!(buckets, [1_000_000_000, 5_000_000_000, 10_000_000_000]);
    assert_eq!(ratios, [16, 4, 1]);
    c.prize_randomness_max = 21;
    for d in 0..=21u128 {
        c.prize_randomness = d;
        let (shares, bucket) = c.calculate_prize_amount(&m, vault).unwrap();
        let expected = if d <= 16 {
            (10, 0)
        } else if d <= 20 {
            (50, 1)
        } else {
            (100, 2)
        };
        assert_eq!((shares, bucket), expected);
    }
    c.prize_randomness = 22;
    assert_eq!(
        c.calculate_prize_amount(&m, vault),
        Err(ErrorCode::CompetitionWinnerNotDetermined)
    );
    // a range that shrank since the request brings the draw back into range
    c.prize_randomness_max = 1000;
    c.prize_randomness = 21 + 17;
    assert_eq!(c.calculate_prize_amount(&m, vault), Ok((50, 1)));
}

#[test]
fn sponsor_max_prize_exact() {
    let mut c = Competition::default();
    c.sponsor_info.max_sponsor_fraction = PERCENTAGE_PRECISION_U64 / 2;
    let m = pool(1100, 1000, 0);
    let vault = (1580000 * QUOTE_PRECISION) as u64;
    assert_eq!(c.calculate_sponsor_max_prize(&m, vault), Ok(71818181818));
    c.sponsor_info.min_sponsor_amount = 143636363636 - 1000;
    assert_eq!(c.calculate_sponsor_max_prize(&m, vault), Ok(500));
    c.outstanding_unclaimed_winnings = 100;
    assert_eq!(c.calculate_sponsor_max_prize(&m, vault), Ok(0));
    let bad = pool(10, 11, 0);
    assert_eq!(c.calculate_sponsor_max_prize(&bad, vault), Err(ErrorCode::DriftError));
}

#[test]
fn reset_round_gating() {
    let mut c = round_over(1);
    c.status = CompetitionRoundStatus::WinnerAndPrizeRandomnessComplete;
    c.number_of_competitors_settled = 1;
    let before = c;
    assert_eq!(c.reset_round(NOW), Err(ErrorCode::InvalidRoundSettlementDetected));
    assert_eq!(c, before);
    c.status = CompetitionRoundStatus::WinnerSettlementComplete;
    c.number_of_competitors_settled = 0;
    assert_eq!(c.reset_round(NOW), Err(ErrorCode::InvalidRoundSettlementDetected));
    c.number_of_competitors_settled = 1;
    c.total_score_settled = 9;
    c.winner_randomness = 4;
    c.prize_amount = 7;
    c.outstanding_unclaimed_winnings = 7;
    c.reset_round(NOW + 61).unwrap();
    assert_eq!(c.round_number, 1);
    assert_eq!(c.total_score_settled, 0);
    assert_eq!(c.number_of_competitors_settled, 0);
    assert_eq!(c.status, CompetitionRoundStatus::Active);
    assert_eq!(c.winner_randomness, 0);
    assert_eq!(c.prize_amount, 0);
    assert_eq!(c.outstanding_unclaimed_winnings, 7);
    assert_eq!(c.next_round_expiry_ts, NOW + 120);
}

#[test]
fn rebase_divides_by_power_of_ten() {
    let mut c = Competition::default();
    c.prize_base = 1;
    c.prize_amount = 123456;
    c.prize_amount_settled = 23456;
    c.outstanding_unclaimed_winnings = 99;
    let m = pool(0, 0, 3);
    apply_rebase_to_competition_prize(&mut c, &m).unwrap();
    assert_eq!(
        (c.prize_base, c.prize_amount, c.prize_amount_settled, c.outstanding_unclaimed_winnings),
        (3, 1234, 234, 0)
    );
    let once = c;
    apply_rebase_to_competition_prize(&mut c, &m).unwrap();
    assert_eq!(c, once);

    let mut w = Competitor::default();
    w.unclaimed_winnings = 987654;
    w.unclaimed_winnings_base = 1;
    apply_rebase_to_competitor_unclaimed_winnings(&mut w, &m).unwrap();
    assert_eq!((w.unclaimed_winnings, w.unclaimed_winnings_base), (9876, 3));
    let once = w;
    apply_rebase_to_competitor_unclaimed_winnings(&mut w, &m).unwrap();
    assert_eq!(w, once);
}

#[test]
fn rebase_refusals() {
    let mut c = Competition::default();
    c.prize_base = 5;
    c.prize_amount = 10;
    let before = c;
    assert_eq!(
        apply_rebase_to_competition_prize(&mut c, &pool(0, 0, 4)),
        Err(ErrorCode::InvalidIFRebase)
    );
    assert_eq!(
        apply_rebase_to_competition_prize(&mut c, &pool(0, 0, 44)),
        Err(ErrorCode::DriftError)
    );
    assert_eq!(c, before);
    let mut w = Competitor::default();
    w.unclaimed_winnings = 10;
    assert_eq!(
        apply_rebase_to_competitor_unclaimed_winnings(&mut w, &pool(0, 0, 20)),
        Err(ErrorCode::DriftError)
    );
    assert_eq!(
        apply_rebase_to_competitor_unclaimed_winnings(&mut w, &pool(0, 0, 19)),
        Ok(())
    );
    assert_eq!(w.unclaimed_winnings, 0);
}

#[test]
fn end_to_end_two_competitors() {
    let mut c = round_over(2);
    let mut one = Competitor::default();
    let mut two = Competitor::default();
    one.claim_entry().unwrap();
    two.bonus_score = 3;
    c.settle_competitor(&mut one, 0, NOW).unwrap();
    c.settle_competitor(&mut two, 0, NOW).unwrap();
    assert_eq!((one.min_draw, one.max_draw), (0, 1));
    assert_eq!((two.min_draw, two.max_draw), (1, 4));

    c.sponsor_info.max_sponsor_fraction = PERCENTAGE_PRECISION_U64;
    let m = pool(100, 0, 0);
    let vault = (10000 * QUOTE_PRECISION) as u64;
    c.request_winner_and_prize_randomness(&m, vault).unwrap();
    assert_eq!(c.prize_randomness_max, 21);
    c.receive_randomness(2, 18, &m, vault).unwrap();
    assert_eq!(c.status, CompetitionRoundStatus::WinnerAndPrizeRandomnessComplete);
    assert_eq!(c.prize_amount, 50);

    assert_eq!(c.settle_winner(&mut one, &m), Err(ErrorCode::CompetitorNotWinner));
    c.settle_winner(&mut two, &m).unwrap();
    assert_eq!(c.status, CompetitionRoundStatus::WinnerSettlementComplete);
    assert_eq!(two.unclaimed_winnings, 50);
    assert_eq!(c.prize_amount_settled, 50);
    assert_eq!(c.outstanding_unclaimed_winnings, 50);
}

#[test]
fn next_round_expiry_formula() {
    let mut c = Competition::default();
    c.next_round_expiry_ts = 1000;
    c.round_duration = 60;
    assert_eq!(c.calculate_next_round_expiry_ts(999), Ok(1000));
    assert_eq!(c.calculate_next_round_expiry_ts(1000), Ok(1060));
    assert_eq!(c.calculate_next_round_expiry_ts(1059), Ok(1060));
    assert_eq!(c.calculate_next_round_expiry_ts(1060), Ok(1120));
    assert_eq!(c.calculate_next_round_expiry_ts(1000 + 60 * 1_000_000 + 1), Ok(1000 + 60 * 1_000_001));
    c.round_number = 3;
    assert_eq!(c.calculate_round_end_ts(), Ok(1180));
    c.round_duration = 0;
    assert_eq!(c.calculate_next_round_expiry_ts(1000), Err(ErrorCode::DriftError));
    c.round_duration = u64::MAX;
    assert_eq!(c.calculate_round_end_ts(), Err(ErrorCode::DriftError));
}

#[test]
fn winner_prize_split() {
    let mut c = Competition::default();
    c.prize_amount = 1_000_000;
    c.number_of_winners = 3;
    assert_eq!(c.calculate_next_winner_prize_amount(), Ok(333_333));
    c.number_of_winners = 10;
    let expected = [500_000u128, 200_000, 150_000, 21_428];
    for (placed, amount) in expected.iter().enumerate() {
        c.number_of_winners_settled = placed as u32;
        assert_eq!(c.calculate_next_winner_prize_amount(), Ok(*amount));
    }
    c.prize_amount_settled = 990_000;
    assert_eq!(c.calculate_next_winner_prize_amount(), Ok(10_000));
    c.number_of_winners = 0;
    assert_eq!(c.calculate_next_winner_prize_amount(), Err(ErrorCode::DriftError));
}

#[test]
fn next_winner_randomness_formula() {
    let mut c = Competition::default();
    c.number_of_winners = 2;
    c.number_of_winners_settled = 1;
    c.total_score_settled = 100;
    c.prize_randomness = 3;
    c.winner_randomness = 5;
    // ((100 / 2 + 1) * (3 * 1) + 17) ^ 3 ^ (5 << 3) = 170 ^ 3 ^ 40 = 129; (5 + 129) % 101 = 33
    assert_eq!(c.calculate_next_winner_randomness(), Ok(33));
    c.total_score_settled = 0;
    assert_eq!(c.calculate_next_winner_randomness(), Ok(1));
    c.number_of_winners = 0;
    assert_eq!(c.calculate_next_winner_randomness(), Err(ErrorCode::DriftError));
}
