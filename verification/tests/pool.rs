use facemelt::errors::FacemeltError;
use facemelt::pool::{percent_of, Pool, PoolPhase, PRICE_PRECISION};

/// An AMM-phase pool with equal real and effective reserves and no
/// outstanding debt.
fn amm_pool(x: u64, y: u64) -> Pool {
    Pool {
        sol_reserve: x,
        token_reserve: y,
        effective_sol_reserve: x,
        effective_token_reserve: y,
        total_delta_k_longs: 0,
        total_delta_k_shorts: 0,
        cumulative_funding_accumulator: 0,
        last_update_timestamp: 0,
        ema_price: (x as u128) * PRICE_PRECISION / (y as u128),
        ema_initialized: true,
        funding_constant_c: facemelt::pool::DEFAULT_FUNDING_CONSTANT_C,
        liquidation_divergence_threshold: 10,
        phase: PoolPhase::Amm,
    }
}

#[test]
fn output_protects_k() {
    // With reserves (1_000, 1_000), 100 SOL in: the new token reserve
    // is the ceiling 910, so 90 tokens leave and k grows to 1_001_000.
    let p = amm_pool(1_000, 1_000);
    assert_eq!(p.calculate_output(100, true), Ok(90));
    let k_new = (1_000u128 + 100) * (1_000 - 90);
    assert!(k_new >= 1_000_000);
    assert_eq!(k_new, 1_001_000);
}

#[test]
fn output_is_symmetric_in_direction() {
    let p = amm_pool(1_000, 1_000);
    assert_eq!(p.calculate_output(100, false), Ok(90));
}

#[test]
fn output_rejects_zero_input() {
    let p = amm_pool(1_000, 1_000);
    assert_eq!(p.calculate_output(0, true), Err(FacemeltError::ZeroSwapAmount));
}

#[test]
fn output_rejects_empty_reserves() {
    let mut p = amm_pool(1_000, 1_000);
    p.effective_sol_reserve = 0;
    assert_eq!(p.calculate_output(5, true), Err(FacemeltError::InsufficientLiquidity));
}

#[test]
fn spot_price_is_ratio_in_fixed_point() {
    let p = amm_pool(2_000, 1_000);
    assert_eq!(p.spot_price(), 2 * PRICE_PRECISION);
}

#[test]
fn ema_first_observation_sets_it() {
    let mut p = amm_pool(2_000, 1_000);
    p.ema_initialized = false;
    p.ema_price = 0;
    p.update_ema();
    assert!(p.ema_initialized);
    assert_eq!(p.ema_price, 2 * PRICE_PRECISION);
}

#[test]
fn ema_moves_one_window_step() {
    let mut p = amm_pool(2_000, 1_000);
    // Spot is 2.0, EMA starts at 1.0: one observation moves it by
    // (spot - ema) / 32.
    p.ema_price = PRICE_PRECISION;
    p.update_ema();
    assert_eq!(p.ema_price, PRICE_PRECISION + PRICE_PRECISION / 32);
}

#[test]
fn percent_of_is_exact() {
    assert_eq!(percent_of(12_345, 10), 1_234);
    assert_eq!(percent_of(100, 100), 100);
    assert_eq!(percent_of(99, 1), 0);
    assert_eq!(percent_of(u128::MAX, 100), u128::MAX);
    assert_eq!(percent_of(u128::MAX, 0), 0);
}

#[test]
fn price_safety_band() {
    let mut p = amm_pool(1_000, 1_000);
    // Spot equals EMA: safe.
    assert!(p.price_is_safe());
    // EMA ten times the spot: far outside a 10% band.
    p.ema_price = 10 * PRICE_PRECISION;
    assert!(!p.price_is_safe());
    // EMA within the band again.
    p.ema_price = PRICE_PRECISION + PRICE_PRECISION / 20;
    assert!(p.price_is_safe());
}
