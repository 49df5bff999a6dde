use facemelt::pool::{Pool, PoolPhase, FUNDING_PRECISION, PRICE_PRECISION};

/// A deep AMM pool with the given outstanding long debt.
fn funding_pool(longs: u128) -> Pool {
    Pool {
        sol_reserve: 1_000_000_000,
        token_reserve: 1_000_000_000,
        effective_sol_reserve: 1_000_000_000,
        effective_token_reserve: 1_000_000_000,
        total_delta_k_longs: longs,
        total_delta_k_shorts: 0,
        cumulative_funding_accumulator: 0,
        last_update_timestamp: 100,
        ema_price: PRICE_PRECISION,
        ema_initialized: true,
        funding_constant_c: FUNDING_PRECISION / 10_000,
        liquidation_divergence_threshold: 10,
        phase: PoolPhase::Amm,
    }
}

#[test]
fn no_time_elapsed_is_a_no_op() {
    let mut p = funding_pool(1_000_000);
    let before = p;
    assert_eq!(p.update_funding_accumulators(100), Ok(()));
    assert_eq!(p, before);
    assert_eq!(p.update_funding_accumulators(50), Ok(()));
    assert_eq!(p, before);
}

#[test]
fn no_debt_only_moves_the_clock() {
    let mut p = funding_pool(0);
    assert_eq!(p.update_funding_accumulators(160), Ok(()));
    assert_eq!(p.last_update_timestamp, 160);
    assert_eq!(p.cumulative_funding_accumulator, 0);
    assert_eq!(p.effective_sol_reserve, 1_000_000_000);
    assert_eq!(p.effective_token_reserve, 1_000_000_000);
}

#[test]
fn funding_accrues_and_amortizes() {
    // With k = 10^18 and 10^17 of long debt, the scaled ratio is
    // 429496729 / 2^32, the per-second rate 4294, and ten seconds pay
    // 999 * 10^9 of debt into the token reserve.
    let mut p = funding_pool(100_000_000_000_000_000);
    assert_eq!(p.update_funding_accumulators(110), Ok(()));
    assert_eq!(p.cumulative_funding_accumulator, 42_940);
    assert_eq!(p.total_delta_k_longs, 99_999_001_000_000_000);
    assert_eq!(p.total_delta_k_shorts, 0);
    assert_eq!(p.effective_token_reserve, 1_000_000_999);
    assert_eq!(p.effective_sol_reserve, 1_000_000_000);
    assert_eq!(p.last_update_timestamp, 110);
}

#[test]
fn accumulator_never_decreases() {
    let mut p = funding_pool(100_000_000_000_000_000);
    let mut last = p.cumulative_funding_accumulator;
    for step in 1..6i64 {
        assert_eq!(p.update_funding_accumulators(100 + step * 7), Ok(()));
        assert!(p.cumulative_funding_accumulator >= last);
        last = p.cumulative_funding_accumulator;
    }
}

#[test]
fn funding_is_time_homogeneous_without_fee_rounding() {
    // 10^16 of debt gives rate 42 and fee products under the fixed
    // point, so two steps of 4 and 6 seconds equal one step of 10.
    let mut two = funding_pool(10_000_000_000_000_000);
    assert_eq!(two.update_funding_accumulators(104), Ok(()));
    assert_eq!(two.update_funding_accumulators(110), Ok(()));
    let mut one = funding_pool(10_000_000_000_000_000);
    assert_eq!(one.update_funding_accumulators(110), Ok(()));
    assert_eq!(two, one);
    assert_eq!(one.cumulative_funding_accumulator, 420);
}

#[test]
fn remaining_factor_decays_and_clamps() {
    let mut p = funding_pool(0);
    assert_eq!(p.calculate_position_remaining_factor(0), Ok(FUNDING_PRECISION));
    p.cumulative_funding_accumulator = FUNDING_PRECISION / 2;
    assert_eq!(p.calculate_position_remaining_factor(0), Ok(FUNDING_PRECISION / 2));
    p.cumulative_funding_accumulator = FUNDING_PRECISION;
    assert_eq!(p.calculate_position_remaining_factor(0), Ok(0));
    p.cumulative_funding_accumulator = 3 * FUNDING_PRECISION;
    assert_eq!(p.calculate_position_remaining_factor(0), Ok(0));
}

#[test]
fn remaining_factor_rejects_future_entries() {
    let p = funding_pool(0);
    assert_eq!(
        p.calculate_position_remaining_factor(1),
        Err(facemelt::errors::FacemeltError::MathUnderflow)
    );
}
