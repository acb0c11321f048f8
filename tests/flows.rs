use std::str::FromStr;

use drift_competitions::claim::claim_multiple_entries;
use drift_competitions::competition::{Competition, CompetitionRoundStatus, SettlementOutcome};
use drift_competitions::competitor::{Competitor, CompetitorStatus};
use drift_competitions::error::ErrorCode;
use drift_competitions::guards::{
    can_sign_for_competitor, claim_entry_allowed, is_competition_for_competitor,
    is_sponsor_for_competition, is_user_stats_for_competitor, update_competitor_status,
};
use drift_competitions::lifecycle::{
    close_competitor, initialize_competition, initialize_competitor, update_competition,
    CompetitionParams, UpdateCompetitionParams,
};
use drift_competitions::market::SpotMarket;
use drift_competitions::params::{get_request_params, ContainerParams, ParamsError};
use solana_program::pubkey::Pubkey;

const NOW: i64 = 168000000;

fn params() -> CompetitionParams {
    CompetitionParams {
        next_round_expiry_ts: NOW,
        competition_expiry_ts: 0,
        round_duration: 60,
        max_entries_per_competitor: 0,
        min_sponsor_amount: 0,
        max_sponsor_fraction: 1_000_000,
        number_of_winners: 1,
    }
}

#[test]
fn status_follows_the_round_cycle() {
    let mut c = Competition::default();
    assert_eq!(
        c.update_status(CompetitionRoundStatus::WinnerAndPrizeRandomnessComplete),
        Err(ErrorCode::InvalidStatusUpdateDetected)
    );
    let cycle = [
        CompetitionRoundStatus::WinnerAndPrizeRandomnessRequested,
        CompetitionRoundStatus::WinnerAndPrizeRandomnessComplete,
        CompetitionRoundStatus::WinnerSettlementComplete,
        CompetitionRoundStatus::Active,
    ];
    for s in cycle {
        c.update_status(s).unwrap();
        assert_eq!(c.status, s);
    }
    c.update_status(CompetitionRoundStatus::Expired).unwrap();
    assert_eq!(c.status, CompetitionRoundStatus::Active);
    c.competition_expiry_ts = NOW;
    c.expire(NOW).unwrap();
    assert_eq!(c.status, CompetitionRoundStatus::Expired);
    assert_eq!(
        c.update_status(CompetitionRoundStatus::WinnerAndPrizeRandomnessRequested),
        Err(ErrorCode::InvalidStatusUpdateDetected)
    );
    assert_eq!(c.update_status(CompetitionRoundStatus::Active), Err(ErrorCode::InvalidStatusUpdateDetected));
}

#[test]
fn settlement_errors() {
    let mut c = initialize_competition([7u8; 32], params());
    let mut a = initialize_competitor(&mut c, [1u8; 32], [2u8; 32], [3u8; 32], 500, NOW - 10).unwrap();
    assert_eq!(a.previous_snapshot_score, 5);
    assert_eq!(c.number_of_competitors, 1);
    assert_eq!(c.settle_competitor(&mut a, 500, NOW - 1), Err(ErrorCode::CompetitionRoundOngoing));
    assert_eq!(c.settle_competitor(&mut a, 400, NOW), Err(ErrorCode::CompetitorSnapshotIssue));
    let mut d = Competitor::default();
    d.status = CompetitorStatus::Disqualified;
    assert_eq!(c.settle_competitor(&mut d, 0, NOW), Ok(SettlementOutcome::Skipped));
    c.status = CompetitionRoundStatus::WinnerSettlementComplete;
    assert_eq!(c.settle_competitor(&mut a, 500, NOW), Err(ErrorCode::CompetitionStatusNotActive));
    c.status = CompetitionRoundStatus::Active;
    c.competition_expiry_ts = NOW;
    assert_eq!(c.settle_competitor(&mut a, 500, NOW), Err(ErrorCode::CompetitionExpired));
    c.competition_expiry_ts = 0;
    c.number_of_competitors_settled = 2;
    assert_eq!(c.settle_competitor(&mut a, 500, NOW), Err(ErrorCode::CompetitionInvariantIssue));
    c.number_of_competitors_settled = 0;
    a.bonus_score = u64::MAX;
    assert_eq!(c.settle_competitor(&mut a, 600, NOW), Err(ErrorCode::DriftError));
}

#[test]
fn draw_and_winner_errors() {
    let mut c = initialize_competition([7u8; 32], params());
    let mut m = SpotMarket::default();
    m.insurance_fund.total_shares = 100;
    let vault = 10_000_000_000u64;
    c.number_of_competitors = 2;
    c.number_of_competitors_settled = 1;
    assert_eq!(
        c.request_winner_and_prize_randomness(&m, vault),
        Err(ErrorCode::CompetitionRoundInSettlementPhase)
    );
    c.number_of_competitors_settled = 2;
    c.total_score_settled = 10;
    assert_eq!(
        c.resolve_winner_and_prize_randomness(&m, vault),
        Err(ErrorCode::InvalidStatusUpdateDetected)
    );
    let mut w = Competitor::default();
    w.min_draw = 3;
    w.max_draw = 6;
    assert_eq!(c.settle_winner(&mut w, &m), Err(ErrorCode::CompetitionWinnerNotDetermined));
    c.request_winner_and_prize_randomness(&m, vault).unwrap();
    c.receive_randomness(5, 0, &m, vault).unwrap();
    assert_eq!(c.settle_winner(&mut w, &m), Err(ErrorCode::CompetitorHasWrongRoundNumber));
    w.competition_round_number = 1;
    w.unclaimed_winnings = 1;
    w.unclaimed_winnings_base = 3;
    assert_eq!(c.settle_winner(&mut w, &m), Err(ErrorCode::InvalidIFRebase));
    w.unclaimed_winnings_base = 0;
    c.settle_winner(&mut w, &m).unwrap();
    assert_eq!(w.unclaimed_winnings, 11);
    assert_eq!(c.status, CompetitionRoundStatus::WinnerSettlementComplete);
}

#[test]
fn claim_errors_and_amounts() {
    let mut c = Competition::default();
    let m = SpotMarket::default();
    let mut w = Competitor::default();
    assert_eq!(
        w.claim_winnings(&mut c, &m, 0, None, NOW),
        Err(ErrorCode::CompetitorHasNoUnclaimedWinnings)
    );
    w.unclaimed_winnings = 30;
    c.outstanding_unclaimed_winnings = 40;
    assert_eq!(
        w.claim_winnings(&mut c, &m, 1, None, NOW),
        Err(ErrorCode::CompetitorNeedsToRebaseInsuranceFundStake)
    );
    assert_eq!(
        w.claim_winnings(&mut c, &m, 0, Some(0), NOW),
        Err(ErrorCode::CompetitorHasInvalidClaim)
    );
    assert_eq!(
        w.claim_winnings(&mut c, &m, 0, Some(31), NOW),
        Err(ErrorCode::CompetitorHasInvalidClaim)
    );
    c.status = CompetitionRoundStatus::WinnerAndPrizeRandomnessRequested;
    assert_eq!(
        w.claim_winnings(&mut c, &m, 0, None, NOW),
        Err(ErrorCode::CompetitionRoundOngoing)
    );
    c.status = CompetitionRoundStatus::Active;
    assert_eq!(w.claim_winnings(&mut c, &m, 0, Some(10), NOW), Ok(10));
    assert_eq!(w.unclaimed_winnings, 20);
    assert_eq!(c.outstanding_unclaimed_winnings, 30);
}

#[test]
fn disqualify_and_close() {
    let mut c = initialize_competition([7u8; 32], params());
    let mut a = initialize_competitor(&mut c, [1u8; 32], [2u8; 32], [3u8; 32], 0, NOW).unwrap();
    a.bonus_score = 4;
    a.update_status(&mut c, 700, CompetitorStatus::Disqualified, NOW).unwrap();
    assert_eq!(c.number_of_competitors, 0);
    a.update_status(&mut c, 700, CompetitorStatus::Active, NOW).unwrap();
    assert_eq!(c.number_of_competitors, 1);
    assert_eq!((a.previous_snapshot_score, a.bonus_score), (7, 0));
    a.unclaimed_winnings = 1;
    assert_eq!(close_competitor(&mut c, &a, NOW), Err(ErrorCode::CompetitionInvariantIssue));
    a.unclaimed_winnings = 0;
    close_competitor(&mut c, &a, NOW).unwrap();
    assert_eq!(c.number_of_competitors, 0);
    update_competition(
        &mut c,
        UpdateCompetitionParams {
            next_round_expiry_ts: None,
            competition_expiry_ts: Some(NOW + 5),
            round_duration: None,
            max_entries_per_competitor: Some(9),
            min_sponsor_amount: None,
            max_sponsor_fraction: Some(3),
            number_of_winners: None,
        },
    );
    assert_eq!(c.competition_expiry_ts, NOW + 5);
    assert_eq!(c.max_entries_per_competitor, 9);
    assert_eq!(c.sponsor_info.max_sponsor_fraction, 3);
    assert_eq!(c.round_duration, 60);
    assert_eq!(c.expire(NOW), Err(ErrorCode::CompetitionRoundOngoing));
}

#[test]
fn request_params_decode_back() {
    let keys: Vec<Pubkey> = (0..4).map(|_| Pubkey::new_unique()).collect();
    let text = get_request_params(
        keys[0].to_bytes(),
        1,
        4,
        0,
        u128::MAX,
        keys[1].to_bytes(),
        keys[2].to_bytes(),
        keys[3].to_bytes(),
    );
    let expected = format!(
        "PID={},WINNER_MIN=1,WINNER_MAX=4,PRIZE_MIN=0,PRIZE_MAX={},COMPETITION={},SPOT_MARKET={},IF_VAULT={}",
        keys[0],
        u128::MAX,
        keys[1],
        keys[2],
        keys[3]
    );
    assert_eq!(String::from_utf8(text.clone()).unwrap(), expected);
    let p = ContainerParams::decode(&text).unwrap();
    assert_eq!(p.program_id, keys[0].to_bytes());
    assert_eq!((p.winner_min_result, p.winner_max_result), (1, 4));
    assert_eq!((p.prize_min_result, p.prize_max_result), (0, u128::MAX));
    assert_eq!(p.if_vault_key, keys[3].to_bytes());
}

#[test]
fn decode_errors_and_overrides() {
    let k = Pubkey::from_str("TokenkegQfeZyiNwAJbNbGKPFXCWuBvf9Ss623VQ5DA").unwrap();
    let full = |extra: &str| {
        format!(
            "PID={k},WINNER_MAX=6,PRIZE_MAX=6,COMPETITION={k},SPOT_MARKET={k},IF_VAULT={k}{extra}"
        )
        .into_bytes()
    };
    let p = ContainerParams::decode(&full(",WINNER_MAX=+42,NOTE=a=b,junk")).unwrap();
    assert_eq!(p.winner_max_result, 42);
    assert_eq!(
        ContainerParams::decode(&full(",PRIZE_MIN=12x")),
        Err(ParamsError::InvalidNumber)
    );
    assert_eq!(
        ContainerParams::decode(&full(",PRIZE_MIN=340282366920938463463374607431768211456")),
        Err(ParamsError::InvalidNumber)
    );
    assert_eq!(
        ContainerParams::decode(&full(",PRIZE_MIN=340282366920938463463374607431768211455"))
            .unwrap()
            .prize_min_result,
        u128::MAX
    );
    assert_eq!(ContainerParams::decode(&full(",PID=0OIl")), Err(ParamsError::InvalidPubkey));
    assert_eq!(ContainerParams::decode(&full(",WINNER_MAX=0")), Err(ParamsError::WinnerMaxZero));
    assert_eq!(ContainerParams::decode(&full(",PRIZE_MAX=")), Err(ParamsError::InvalidNumber));
    assert_eq!(
        ContainerParams::decode(&b"WINNER_MAX=1".to_vec()),
        Err(ParamsError::ProgramIdUndefined)
    );
    assert_eq!(
        ContainerParams::decode(&format!("PID={k},WINNER_MAX=1,PRIZE_MAX=1").into_bytes()),
        Err(ParamsError::CompetitionUndefined)
    );
    assert_eq!(
        ContainerParams::decode(&vec![0xff, 0xfe]),
        Err(ParamsError::InvalidUtf8)
    );
}

#[test]
fn account_and_instruction_guards() {
    let mut c = initialize_competition([7u8; 32], params());
    let mut a = initialize_competitor(&mut c, [1u8; 32], [2u8; 32], [3u8; 32], 0, NOW).unwrap();
    assert!(is_competition_for_competitor(&a, &[1u8; 32]));
    assert!(can_sign_for_competitor(&a, &[2u8; 32]));
    assert!(!can_sign_for_competitor(&a, &[3u8; 32]));
    assert!(is_user_stats_for_competitor(&a, &[3u8; 32]));
    assert!(is_sponsor_for_competition(&c, &[7u8; 32]));
    let mut other = [7u8; 32];
    other[31] = 8;
    assert!(!is_sponsor_for_competition(&c, &other));

    let budget = [9u8; 32];
    assert!(claim_entry_allowed(&vec![budget, budget, [5u8; 32]], 2, &budget));
    assert!(claim_entry_allowed(&vec![[5u8; 32]], 0, &budget));
    assert!(!claim_entry_allowed(&vec![budget, [4u8; 32], [5u8; 32]], 2, &budget));
    assert!(!claim_entry_allowed(&vec![[5u8; 32], budget], 0, &budget));

    assert_eq!(
        update_competitor_status(&mut c, &mut a, 0, CompetitorStatus::Active, NOW),
        Err(ErrorCode::CompetitorUpdateInvalid)
    );
    update_competitor_status(&mut c, &mut a, 0, CompetitorStatus::Disqualified, NOW).unwrap();
    assert_eq!(a.status, CompetitorStatus::Disqualified);
    assert_eq!(c.number_of_competitors, 0);
}

#[test]
fn buying_entries() {
    let mut m = SpotMarket::default();
    m.decimals = 9;
    m.historical_oracle_data.last_oracle_price = 64 * 10000000;
    m.historical_oracle_data.last_oracle_price_twap_5min = 65 * 10000000;
    let mut a = Competitor::default();
    a.bonus_score = 2;
    assert_eq!(claim_multiple_entries(&mut a, 1000, &m), Ok(78125));
    assert_eq!(a.bonus_score, 1002);
    assert_eq!(
        claim_multiple_entries(&mut a, 5_000_001, &m),
        Err(ErrorCode::CompetitorHasInvalidClaim)
    );
    a.bonus_score = u64::MAX;
    assert_eq!(claim_multiple_entries(&mut a, 1, &m), Err(ErrorCode::DriftError));
    assert_eq!(a.bonus_score, u64::MAX);
}

#[test]
fn explicit_claim_needs_current_base() {
    let mut c = Competition::default();
    c.outstanding_unclaimed_winnings = 100;
    let mut m = SpotMarket::default();
    m.insurance_fund.shares_base = 1;
    let mut w = Competitor::default();
    w.unclaimed_winnings = 100;
    let before = w;
    assert_eq!(
        w.claim_winnings(&mut c, &m, 1, Some(1), NOW),
        Err(ErrorCode::CompetitorHasInvalidClaim)
    );
    assert_eq!(w, before);
    assert_eq!(c.outstanding_unclaimed_winnings, 100);
    // claiming everything rebases first
    assert_eq!(w.claim_winnings(&mut c, &m, 1, None, NOW), Ok(10));
    assert_eq!((w.unclaimed_winnings, w.unclaimed_winnings_base), (0, 1));
}

#[test]
fn settlement_refused_when_everyone_is_settled() {
    let mut c = initialize_competition([7u8; 32], params());
    let mut a = Competitor::default();
    let before = (c, a);
    assert_eq!(
        c.settle_competitor(&mut a, 500, NOW),
        Err(ErrorCode::CompetitionInvariantIssue)
    );
    assert_eq!((c, a), before);
    c.number_of_competitors = 1;
    assert_eq!(c.settle_competitor(&mut a, 500, NOW), Ok(SettlementOutcome::Settled));
    assert_eq!(c.settle_competitor(&mut a, 500, NOW), Ok(SettlementOutcome::Skipped));
    assert_eq!(c.number_of_competitors_settled, 1);
}

#[test]
fn randomness_request_of_a_settled_round() {
    let mut c = initialize_competition([7u8; 32], params());
    c.number_of_competitors = 1;
    let mut a = Competitor::default();
    a.bonus_score = 7;
    c.settle_competitor(&mut a, 0, NOW).unwrap();
    let mut m = SpotMarket::default();
    m.insurance_fund.total_shares = 100;
    c.request_winner_and_prize_randomness(&m, 10_000_000_000).unwrap();
    assert_eq!(c.status, CompetitionRoundStatus::WinnerAndPrizeRandomnessRequested);
    assert_eq!(c.prize_randomness_max, 21);
    let keys: Vec<Pubkey> = (0..4).map(|_| Pubkey::new_unique()).collect();
    let text = c.randomness_request_params(
        keys[0].to_bytes(),
        keys[1].to_bytes(),
        keys[2].to_bytes(),
        keys[3].to_bytes(),
    );
    let p = ContainerParams::decode(&text).unwrap();
    assert_eq!((p.winner_min_result, p.winner_max_result), (1, 7));
    assert_eq!((p.prize_min_result, p.prize_max_result), (0, 21));
    assert_eq!(p.competition_key, keys[1].to_bytes());
    assert_eq!(p.spot_market_key, keys[2].to_bytes());
}
