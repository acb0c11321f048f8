use std::str::FromStr;

use drift_competitions::params::{get_request_params, ContainerParams, MAX_REQUEST_PARAM_SIZE};
use drift_competitions::randomness::generate_randomness;
use solana_program::pubkey::Pubkey;

const TOKEN_PROGRAM: &str = "TokenkegQfeZyiNwAJbNbGKPFXCWuBvf9Ss623VQ5DA";

#[test]
fn test_generate_randomness_with_flipped_bounds() {
    let min = 100;
    let max = 50;

    let result = generate_randomness(100, 50, 7);
    assert!(result >= max && result < min);
}

#[test]
fn test_generate_randomness_with_equal_bounds() {
    let bound = 100;
    assert_eq!(generate_randomness(bound, bound, 987654321), bound);
}

#[test]
fn test_generate_randomness_within_bounds() {
    let min = 100;
    let max = 200;

    let result = generate_randomness(min, max, 12345);

    assert!(result >= min && result < max);
}

#[test]
fn test_generate_randomness_distribution() {
    let min = 0;
    let max = 9;

    let mut counts = vec![0; 10];
    for raw in 0..1000u32 {
        let result = generate_randomness(min, max, raw.wrapping_mul(2654435761));
        let index: usize = result as usize;
        counts[index] += 1;
    }

    for count in counts.iter() {
        assert!(*count > 0);
    }
}

#[test]
fn generate_randomness_maps_raw_word_into_range() {
    assert_eq!(generate_randomness(10, 20, 0), 10);
    assert_eq!(generate_randomness(10, 20, 10), 20);
    assert_eq!(generate_randomness(10, 20, 11), 10);
    assert_eq!(generate_randomness(20, 10, 25), 13);
    assert_eq!(generate_randomness(0, u32::MAX, u32::MAX), u32::MAX);
}

#[test]
fn test_params_decode() {
    let token = Pubkey::from_str(TOKEN_PROGRAM).unwrap();
    let request_params_string = format!(
        "PID={},WINNER_MIN={},WINNER_MAX={},PRIZE_MIN={},PRIZE_MAX={},COMPETITION={},SPOT_MARKET={},IF_VAULT={}",
        token, 1, 6, 1, 6, token, token, token
    );
    let request_params_bytes = request_params_string.into_bytes();

    let params = ContainerParams::decode(&request_params_bytes).unwrap();

    assert_eq!(params.program_id, token.to_bytes());
    assert_eq!(params.winner_min_result, 1);
    assert_eq!(params.winner_max_result, 6);
    assert_eq!(params.prize_min_result, 1);
    assert_eq!(params.prize_max_result, 6);
    assert_eq!(params.competition_key, token.to_bytes());
    assert_eq!(params.spot_market_key, token.to_bytes());
    assert_eq!(params.if_vault_key, token.to_bytes());
}

#[test]
fn max_result_params_size() {
    let params = get_request_params(
        Pubkey::new_unique().to_bytes(),
        0,
        u128::MAX,
        1,
        u128::MAX,
        Pubkey::new_unique().to_bytes(),
        Pubkey::new_unique().to_bytes(),
        Pubkey::new_unique().to_bytes(),
    );

    assert!(params.len() as u32 <= MAX_REQUEST_PARAM_SIZE);
}
