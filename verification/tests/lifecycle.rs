use facemelt::errors::FacemeltError;
use facemelt::ops;
use facemelt::pool::{Pool, PoolPhase, FUNDING_PRECISION, PRICE_PRECISION};
use facemelt::position::Position;

const USER: u64 = 7;
const POOL_ID: u64 = 1;

/// A flat AMM pool: equal real and effective reserves, no debt.
fn flat_pool(x: u64, y: u64) -> Pool {
    Pool {
        sol_reserve: x,
        token_reserve: y,
        effective_sol_reserve: x,
        effective_token_reserve: y,
        total_delta_k_longs: 0,
        total_delta_k_shorts: 0,
        cumulative_funding_accumulator: 0,
        last_update_timestamp: 0,
        ema_price: (x as u128) * PRICE_PRECISION / (y as u128),
        ema_initialized: true,
        funding_constant_c: FUNDING_PRECISION / 10_000,
        liquidation_divergence_threshold: 10,
        phase: PoolPhase::Amm,
    }
}

#[test]
fn spot_swap_moves_both_reserve_pairs() {
    let mut p = flat_pool(1_000, 1_000);
    let ev = ops::swap(&mut p, USER, POOL_ID, 100, 0, true, 0).unwrap();
    assert_eq!(ev.amount_out, 90);
    assert_eq!(p.sol_reserve, 1_100);
    assert_eq!(p.token_reserve, 910);
    assert_eq!(p.effective_sol_reserve, 1_100);
    assert_eq!(p.effective_token_reserve, 910);
    // k grew from 1_000_000 to 1_001_000.
    assert_eq!(
        (p.effective_sol_reserve as u128) * (p.effective_token_reserve as u128),
        1_001_000
    );
}

#[test]
fn spot_swap_enforces_slippage_and_phase() {
    let mut p = flat_pool(1_000, 1_000);
    assert_eq!(
        ops::swap(&mut p, USER, POOL_ID, 100, 91, true, 0),
        Err(FacemeltError::SlippageToleranceExceeded)
    );
    p.phase = PoolPhase::Curve;
    assert_eq!(
        ops::swap(&mut p, USER, POOL_ID, 100, 0, true, 0),
        Err(FacemeltError::InvalidPoolState)
    );
}

#[test]
fn leverage_open_prices_the_borrowed_input() {
    // 100 collateral at 2.5x prices 250 against (10_000, 10_000):
    // 243 tokens out, and the effective product drops by the stored
    // delta-k while only the collateral enters custody.
    let mut p = flat_pool(10_000, 10_000);
    let (pos, ev) = ops::leverage_swap(&mut p, USER, POOL_ID, 100, 0, 25, 0, true, 0).unwrap();
    assert_eq!(pos.size, 243);
    assert_eq!(pos.collateral, 100);
    assert_eq!(pos.delta_k, 1_454_300);
    assert_eq!(ev.size, 243);
    assert_eq!(p.sol_reserve, 10_100);
    assert_eq!(p.token_reserve, 10_000);
    assert_eq!(p.effective_sol_reserve, 10_100);
    assert_eq!(p.effective_token_reserve, 9_757);
    assert_eq!(p.total_delta_k_longs, 1_454_300);
    // The stored delta-k is exactly the drop of the product.
    assert_eq!(100_000_000 - 10_100u128 * 9_757, 1_454_300);
}

#[test]
fn leverage_open_validations() {
    let mut p = flat_pool(10_000, 10_000);
    assert_eq!(
        ops::leverage_swap(&mut p, USER, POOL_ID, 0, 0, 25, 0, true, 0),
        Err(FacemeltError::ZeroSwapAmount)
    );
    assert_eq!(
        ops::leverage_swap(&mut p, USER, POOL_ID, 100, 0, 9, 0, true, 0),
        Err(FacemeltError::InvalidLeverage)
    );
    assert_eq!(
        ops::leverage_swap(&mut p, USER, POOL_ID, 100, 0, 101, 0, true, 0),
        Err(FacemeltError::InvalidLeverage)
    );
    assert_eq!(
        ops::leverage_swap(&mut p, USER, POOL_ID, 100, 244, 25, 0, true, 0),
        Err(FacemeltError::SlippageToleranceExceeded)
    );
    assert_eq!(p, flat_pool(10_000, 10_000));
}

#[test]
fn leverage_ten_is_a_spot_swap_with_zero_debt() {
    // At scale 10 with an exactly dividing input, the open leaves the
    // product untouched and stores no debt.
    let mut p = flat_pool(1_000, 1_000);
    let (pos, _) = ops::leverage_swap(&mut p, USER, POOL_ID, 1_000, 0, 10, 0, true, 0).unwrap();
    assert_eq!(pos.size, 500);
    assert_eq!(pos.delta_k, 0);
    assert_eq!(p.effective_sol_reserve, 2_000);
    assert_eq!(p.effective_token_reserve, 500);
    assert_eq!(p.total_delta_k_longs, 0);
}

#[test]
fn leverage_ten_rejects_rounding_against_the_pool() {
    // When the division is inexact the ceiling makes the product grow,
    // which a leveraged open cannot represent as a non-negative debt.
    let mut p = flat_pool(1_000, 1_000);
    assert_eq!(
        ops::leverage_swap(&mut p, USER, POOL_ID, 7, 0, 10, 0, true, 0),
        Err(FacemeltError::MathUnderflow)
    );
    assert_eq!(p, flat_pool(1_000, 1_000));
}

#[test]
fn excessive_leverage_is_rejected() {
    // 450 collateral at 10x against (1_000, 1_000) would drop the
    // product below the outstanding debt it creates.
    let mut p = flat_pool(1_000, 1_000);
    assert_eq!(
        ops::leverage_swap(&mut p, USER, POOL_ID, 450, 0, 100, 0, true, 0),
        Err(FacemeltError::ExcessiveLeverage)
    );
    assert_eq!(p, flat_pool(1_000, 1_000));
}

#[test]
fn open_then_close_returns_the_collateral_exactly() {
    let start = flat_pool(10_000, 10_000);
    let mut p = start;
    let (pos, _) = ops::leverage_swap(&mut p, USER, POOL_ID, 100, 0, 25, 0, true, 0).unwrap();
    let (payout, ev) = ops::close_position(&mut p, &pos, USER, POOL_ID, 0).unwrap();
    assert_eq!(payout, 100);
    assert_eq!(ev.user_received, 100);
    assert_eq!(p.sol_reserve, start.sol_reserve);
    assert_eq!(p.token_reserve, start.token_reserve);
    assert_eq!(p.effective_sol_reserve, start.effective_sol_reserve);
    assert_eq!(p.effective_token_reserve, start.effective_token_reserve);
    assert_eq!(p.total_delta_k_longs, 0);
    assert_eq!(p.total_delta_k_shorts, 0);
}

#[test]
fn short_open_then_close_round_trip() {
    let start = flat_pool(10_000, 10_000);
    let mut p = start;
    let (pos, _) = ops::leverage_swap(&mut p, USER, POOL_ID, 100, 0, 25, 0, false, 0).unwrap();
    assert!(!pos.is_long);
    assert_eq!(p.token_reserve, 10_100);
    let (payout, _) = ops::close_position(&mut p, &pos, USER, POOL_ID, 0).unwrap();
    assert_eq!(payout, 100);
    assert_eq!(p.token_reserve, start.token_reserve);
    assert_eq!(p.total_delta_k_shorts, 0);
}

#[test]
fn close_requires_the_owner_and_the_pool() {
    let mut p = flat_pool(10_000, 10_000);
    let (pos, _) = ops::leverage_swap(&mut p, USER, POOL_ID, 100, 0, 25, 0, true, 0).unwrap();
    assert_eq!(
        ops::close_position(&mut p, &pos, USER + 1, POOL_ID, 0),
        Err(FacemeltError::InvalidPosition)
    );
    assert_eq!(
        ops::close_position(&mut p, &pos, USER, POOL_ID + 1, 0),
        Err(FacemeltError::InvalidPosition)
    );
}

#[test]
fn close_on_a_half_amortized_position() {
    // Open as usual, then let funding consume half the position: the
    // live size and debt halve, and the payout shrinks accordingly.
    let mut p = flat_pool(10_000, 10_000);
    let (pos, _) = ops::leverage_swap(&mut p, USER, POOL_ID, 100, 0, 25, 0, true, 0).unwrap();
    p.cumulative_funding_accumulator += FUNDING_PRECISION / 2;
    let f = p
        .calculate_position_remaining_factor(pos.entry_funding_accumulator)
        .unwrap();
    assert_eq!(f, FUNDING_PRECISION / 2);
    let (payout, _) = ops::close_position(&mut p, &pos, USER, POOL_ID, 0).unwrap();
    assert_eq!(payout, 50);
    // Half the original delta-k was retired; the rest stays booked.
    assert_eq!(p.total_delta_k_longs, 1_454_300 - 727_150);
    assert_eq!(p.effective_sol_reserve, 10_050);
    assert_eq!(p.effective_token_reserve, 9_878);
}

#[test]
fn close_pays_only_out_of_real_reserves() {
    // The effective reserves would price a payout of 99, but the real
    // SOL custody holds a single lamport: the close is refused rather
    // than overdrawing custody.
    let mut p = flat_pool(10_000, 10_000);
    p.sol_reserve = 1;
    p.total_delta_k_longs = 1;
    let pos = Position {
        owner: USER,
        pool: POOL_ID,
        is_long: true,
        collateral: 100,
        leverage: 10,
        size: 100,
        delta_k: 0,
        entry_funding_accumulator: 0,
        nonce: 0,
    };
    assert_eq!(
        ops::close_position(&mut p, &pos, USER, POOL_ID, 0),
        Err(FacemeltError::InsufficientFunds)
    );
}

#[test]
fn close_with_zero_value_is_not_closable() {
    // A tiny claim against a deep opposite reserve floors to zero.
    let mut p = flat_pool(10, 100);
    p.total_delta_k_longs = 1;
    let pos = Position {
        owner: USER,
        pool: POOL_ID,
        is_long: true,
        collateral: 5,
        leverage: 10,
        size: 5,
        delta_k: 0,
        entry_funding_accumulator: 0,
        nonce: 0,
    };
    assert_eq!(
        ops::close_position(&mut p, &pos, USER, POOL_ID, 0),
        Err(FacemeltError::PositionNotClosable)
    );
}

#[test]
fn liquidation_is_blocked_by_price_divergence() {
    let mut p = flat_pool(10_000, 10_000);
    let (pos, _) = ops::leverage_swap(&mut p, USER, POOL_ID, 100, 0, 25, 0, true, 0).unwrap();
    // Pretend history put the EMA far from the manipulated spot.
    p.ema_price = p.spot_price() * 2;
    assert_eq!(
        ops::liquidate(&mut p, &pos, USER + 1, POOL_ID, 0),
        Err(FacemeltError::LiquidationPriceManipulation)
    );
    // Back inside the band the attempt proceeds, but a healthy fresh
    // position is worth far more than the liquidation bar.
    p.ema_price = p.spot_price();
    assert_eq!(
        ops::liquidate(&mut p, &pos, USER + 1, POOL_ID, 0),
        Err(FacemeltError::PositionNotLiquidatable)
    );
}

#[test]
fn underwater_position_is_not_liquidatable() {
    // The live gross value (10_000 * 100) does not cover the live debt:
    // the position is underwater, and neither liquidation nor close
    // will seize pool value for it.
    let mut p = flat_pool(10_000, 10_000);
    p.total_delta_k_longs = 2_000_000;
    p.ema_price = p.spot_price();
    let pos = Position {
        owner: USER,
        pool: POOL_ID,
        is_long: true,
        collateral: 100,
        leverage: 100,
        size: 100,
        delta_k: 2_000_000,
        entry_funding_accumulator: 0,
        nonce: 0,
    };
    assert_eq!(
        ops::liquidate(&mut p, &pos, USER + 1, POOL_ID, 0),
        Err(FacemeltError::PositionNotLiquidatable)
    );
    assert_eq!(
        ops::close_position(&mut p, &pos, USER, POOL_ID, 0),
        Err(FacemeltError::PositionNotClosable)
    );
    // Once funding has fully amortized it, the live size and debt are
    // both zero: the position is economically erased.
    p.cumulative_funding_accumulator = FUNDING_PRECISION;
    assert_eq!(
        p.calculate_position_remaining_factor(pos.entry_funding_accumulator),
        Ok(0)
    );
    assert_eq!(
        ops::liquidate(&mut p, &pos, USER + 1, POOL_ID, 0),
        Err(FacemeltError::ZeroSwapAmount)
    );
}

#[test]
fn liquidation_succeeds_after_adverse_price_move() {
    // Open a long, then let a large token sale crash the price: the
    // net value of the claim falls to five percent of its gross value
    // and the liquidator takes the whole residual payout.
    let mut p = flat_pool(10_000, 10_000);
    let (pos, _) = ops::leverage_swap(&mut p, USER, POOL_ID, 100, 0, 25, 0, true, 0).unwrap();
    let sold = ops::swap(&mut p, USER, POOL_ID, 5_900, 0, false, 0).unwrap();
    assert_eq!(sold.amount_out, 3_805);
    assert_eq!(p.effective_sol_reserve, 6_295);
    assert_eq!(p.effective_token_reserve, 15_657);
    // The EMA has barely followed the crash; liquidation at this spot
    // is taken for manipulation.
    assert_eq!(
        ops::liquidate(&mut p, &pos, USER + 1, POOL_ID, 0),
        Err(FacemeltError::LiquidationPriceManipulation)
    );
    // With the oracle caught up, the position is past the bar.
    p.ema_price = p.spot_price();
    let (reward, ev) = ops::liquidate(&mut p, &pos, USER + 1, POOL_ID, 0).unwrap();
    assert_eq!(reward, 4);
    assert_eq!(ev.liquidator_reward, 4);
    // The whole debt was retired and the book is flat again, so the
    // effective reserves snapped to the real ones.
    assert_eq!(p.total_delta_k_longs, 0);
    assert_eq!(p.effective_sol_reserve, p.sol_reserve);
    assert_eq!(p.effective_token_reserve, p.token_reserve);
    assert_eq!(p.sol_reserve, 6_291);
    assert_eq!(p.token_reserve, 15_900);
}

#[test]
fn failed_operations_leave_state_untouched() {
    let start = flat_pool(1_000, 1_000);
    let mut p = start;
    let _ = ops::swap(&mut p, USER, POOL_ID, 0, 0, true, 0);
    let _ = ops::leverage_swap(&mut p, USER, POOL_ID, 450, 0, 100, 0, true, 0);
    let pos = Position {
        owner: USER,
        pool: POOL_ID,
        is_long: true,
        collateral: 1,
        leverage: 10,
        size: 1,
        delta_k: 0,
        entry_funding_accumulator: 1,
        nonce: 0,
    };
    let _ = ops::close_position(&mut p, &pos, USER, POOL_ID, 0);
    let _ = ops::liquidate(&mut p, &pos, USER + 1, POOL_ID, 0);
    assert_eq!(p, start);
}

#[test]
fn fill_amount_is_the_borrowed_part() {
    let pos = Position {
        owner: USER,
        pool: POOL_ID,
        is_long: true,
        collateral: 100,
        leverage: 25,
        size: 243,
        delta_k: 1_454_300,
        entry_funding_accumulator: 0,
        nonce: 0,
    };
    assert_eq!(pos.calculate_fill_amount(), Ok(150));
    let flat = Position { leverage: 10, ..pos };
    assert_eq!(flat.calculate_fill_amount(), Ok(0));
}

#[test]
fn expected_output_is_the_floor_quote() {
    assert_eq!(
        facemelt::position::calculate_position_expected_output(10_000, 10_000, 243, true),
        Ok(237)
    );
    assert_eq!(
        facemelt::position::calculate_position_expected_output(10_000, 10_000, 243, false),
        Ok(237)
    );
}
