use facemelt::curve::{BondingCurve, BondingCurveStatus};
use facemelt::errors::FacemeltError;
use facemelt::ops;
use facemelt::pool::{PoolPhase, PRICE_PRECISION};

const AUTHORITY: u64 = 3;
const BUYER: u64 = 7;
const MARKET: u64 = 1;

#[test]
fn launch_on_curve_with_defaults() {
    let (curve, pool, ev) =
        ops::launch_on_curve(AUTHORITY, MARKET, None, None, None, 50).unwrap();
    assert_eq!(curve.bonding_curve_slope_m, 5);
    assert_eq!(curve.bonding_target_sol, 200_000_000_000);
    assert_eq!(curve.bonding_target_tokens_sold, 280_000_000_000_000);
    assert!(matches!(curve.status, BondingCurveStatus::Active));
    assert!(matches!(pool.phase, PoolPhase::Curve));
    assert_eq!(pool.sol_reserve, 0);
    assert_eq!(pool.last_update_timestamp, 50);
    assert_eq!(ev.total_supply, 420_000_000_000_000);
}

#[test]
fn launch_on_curve_validations() {
    assert_eq!(
        ops::launch_on_curve(AUTHORITY, MARKET, Some(0), None, None, 0),
        Err(FacemeltError::InvalidBondingCurveParams)
    );
    assert_eq!(
        ops::launch_on_curve(AUTHORITY, MARKET, Some(1_000), Some(0), Some(500), 0),
        Err(FacemeltError::InvalidBondingCurveParams)
    );
    assert_eq!(
        ops::launch_on_curve(AUTHORITY, MARKET, Some(1_000), Some(10), Some(2_000), 0),
        Err(FacemeltError::InvalidBondingCurveParams)
    );
}

#[test]
fn curve_buy_graduates_into_a_seeded_amm() {
    // Launch with the defaults and buy with the full SOL target. The
    // derived slope rounds down, so filling the whole token target
    // costs 196 SOL of the 200 paid; the rest is refunded and the AMM
    // is seeded with the raise against half the token target.
    let (mut curve, mut pool, _) =
        ops::launch_on_curve(AUTHORITY, MARKET, None, None, None, 50).unwrap();
    let out = ops::swap_on_curve(
        &mut curve,
        &mut pool,
        BUYER,
        MARKET,
        200_000_000_000,
        0,
        true,
        60,
    )
    .unwrap();
    assert_eq!(out.amount_out, 280_000_000_000_000);
    assert_eq!(out.sol_spent, 196_000_000_000);
    assert_eq!(out.sol_refund, 4_000_000_000);
    assert!(out.graduated);
    assert!(out.graduation.is_some());
    assert!(matches!(curve.status, BondingCurveStatus::Graduated));
    assert!(matches!(pool.phase, PoolPhase::Amm));
    assert_eq!(pool.sol_reserve, 196_000_000_000);
    assert_eq!(pool.token_reserve, 140_000_000_000_000);
    assert_eq!(pool.effective_sol_reserve, 196_000_000_000);
    assert_eq!(pool.effective_token_reserve, 140_000_000_000_000);
    assert!(pool.ema_initialized);
    assert_eq!(
        pool.ema_price,
        196_000_000_000u128 * PRICE_PRECISION / 140_000_000_000_000u128
    );
    assert_eq!(pool.last_update_timestamp, 60);
    // The curve refuses further trades.
    assert_eq!(
        ops::swap_on_curve(&mut curve, &mut pool, BUYER, MARKET, 5, 0, true, 61),
        Err(FacemeltError::BondingCurveNotActive)
    );
}

#[test]
fn curve_buy_and_sell_before_graduation() {
    let (mut curve, mut pool, _) = ops::launch_on_curve(
        AUTHORITY,
        MARKET,
        Some(1_000_000),
        Some(1_000_000),
        Some(1_000),
        0,
    )
    .unwrap();
    let bought = ops::swap_on_curve(&mut curve, &mut pool, BUYER, MARKET, 100, 0, true, 1)
        .unwrap();
    assert_eq!(bought.amount_out, 10);
    assert!(!bought.graduated);
    assert_eq!(curve.tokens_sold_on_curve, 10);
    assert_eq!(curve.sol_raised_on_curve, 100);
    // Selling the ten tokens back returns the hundred lamports.
    let sold = ops::swap_on_curve(&mut curve, &mut pool, BUYER, MARKET, 10, 0, false, 2)
        .unwrap();
    assert_eq!(sold.amount_out, 100);
    assert_eq!(curve.tokens_sold_on_curve, 0);
    assert_eq!(curve.sol_raised_on_curve, 0);
}

#[test]
fn curve_swap_validations() {
    let (mut curve, mut pool, _) = ops::launch_on_curve(
        AUTHORITY,
        MARKET,
        Some(1_000_000),
        Some(1_000_000),
        Some(1_000),
        0,
    )
    .unwrap();
    assert_eq!(
        ops::swap_on_curve(&mut curve, &mut pool, BUYER, MARKET, 0, 0, true, 1),
        Err(FacemeltError::ZeroSwapAmount)
    );
    assert_eq!(
        ops::swap_on_curve(&mut curve, &mut pool, BUYER, MARKET, 100, 11, true, 1),
        Err(FacemeltError::SlippageToleranceExceeded)
    );
    assert_eq!(
        ops::swap_on_curve(&mut curve, &mut pool, BUYER, MARKET, 5, 0, false, 1),
        Err(FacemeltError::InsufficientTokensSold)
    );
}

#[test]
fn direct_launch_seeds_the_amm() {
    let (pool, ev) = ops::launch(
        AUTHORITY,
        MARKET,
        1_000_000,
        5_000_000,
        None,
        None,
        10,
    )
    .unwrap();
    assert!(matches!(pool.phase, PoolPhase::Amm));
    assert_eq!(pool.sol_reserve, 1_000_000);
    assert_eq!(pool.token_reserve, 5_000_000);
    assert_eq!(pool.effective_sol_reserve, 1_000_000);
    assert_eq!(pool.effective_token_reserve, 5_000_000);
    assert_eq!(pool.ema_price, 1_000_000u128 * PRICE_PRECISION / 5_000_000u128);
    assert!(pool.ema_initialized);
    assert_eq!(ev.sol_reserve, 1_000_000);
}

#[test]
fn direct_launch_validations() {
    assert_eq!(
        ops::launch(AUTHORITY, MARKET, 0, 5_000_000, None, None, 0),
        Err(FacemeltError::InsufficientLiquidity)
    );
    assert_eq!(
        ops::launch(AUTHORITY, MARKET, 1_000_000, 0, None, None, 0),
        Err(FacemeltError::InsufficientLiquidity)
    );
    assert_eq!(
        ops::launch(AUTHORITY, MARKET, 1_000_000, 5_000_000, None, Some(101), 0),
        Err(FacemeltError::InvalidPoolState)
    );
}

#[test]
fn graduated_market_supports_the_full_lifecycle() {
    // Graduate a small market, then run a spot swap and a leveraged
    // round trip on the seeded AMM.
    let (mut curve, mut pool, _) = ops::launch_on_curve(
        AUTHORITY,
        MARKET,
        Some(2_000),
        Some(1_000_000),
        Some(2_000),
        0,
    )
    .unwrap();
    let out = ops::swap_on_curve(&mut curve, &mut pool, BUYER, MARKET, 1_000_000, 0, true, 1)
        .unwrap();
    assert!(out.graduated);
    let seeded = pool;
    let ev = ops::swap(&mut pool, BUYER, MARKET, 10_000, 0, true, 2).unwrap();
    assert!(ev.amount_out > 0);
    assert!(
        (pool.effective_sol_reserve as u128) * (pool.effective_token_reserve as u128)
            >= (seeded.effective_sol_reserve as u128)
                * (seeded.effective_token_reserve as u128)
    );
}

#[test]
fn real_reserves_are_an_exact_ledger() {
    // Across a whole session, the real reserves equal the sum of every
    // physical movement: deposits in, payouts out, nothing else.
    let (pool, _) = ops::launch(AUTHORITY, MARKET, 1_000_000, 1_000_000, None, None, 0).unwrap();
    let mut p = pool;
    let mut sol_ledger: i128 = 1_000_000;
    let mut token_ledger: i128 = 1_000_000;

    let ev = ops::swap(&mut p, BUYER, MARKET, 50_000, 0, true, 1).unwrap();
    sol_ledger += 50_000;
    token_ledger -= ev.amount_out as i128;

    let (pos, _) = ops::leverage_swap(&mut p, BUYER, MARKET, 10_000, 0, 30, 0, true, 2).unwrap();
    sol_ledger += 10_000;

    let ev2 = ops::swap(&mut p, BUYER, MARKET, 20_000, 0, false, 3).unwrap();
    token_ledger += 20_000;
    sol_ledger -= ev2.amount_out as i128;

    let (payout, _) = ops::close_position(&mut p, &pos, BUYER, MARKET, 4).unwrap();
    sol_ledger -= payout as i128;

    assert_eq!(p.sol_reserve as i128, sol_ledger);
    assert_eq!(p.token_reserve as i128, token_ledger);
}
