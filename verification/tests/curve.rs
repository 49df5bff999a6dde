use facemelt::curve::{BondingCurve, BondingCurveStatus};
use facemelt::errors::FacemeltError;

/// A small curve targeting 1_000_000 lamports over 1_000 token units.
/// Its derived slope is exact, so round trips lose nothing.
fn small_curve() -> BondingCurve {
    BondingCurve {
        bonding_curve_slope_m: BondingCurve::calculate_slope(1_000_000, 1_000).unwrap(),
        tokens_sold_on_curve: 0,
        sol_raised_on_curve: 0,
        bonding_target_sol: 1_000_000,
        bonding_target_tokens_sold: 1_000,
        status: BondingCurveStatus::Active,
    }
}

#[test]
fn slope_from_default_targets() {
    let m = BondingCurve::calculate_slope(200_000_000_000, 280_000_000_000_000).unwrap();
    assert_eq!(m, 5);
}

#[test]
fn slope_rejects_zero_token_target() {
    assert_eq!(
        BondingCurve::calculate_slope(1_000_000, 0),
        Err(FacemeltError::InvalidBondingCurveParams)
    );
}

#[test]
fn slope_of_small_curve() {
    assert_eq!(small_curve().bonding_curve_slope_m, 2_000_000_000_000_000_000);
}

#[test]
fn tokens_out_inverts_the_integral() {
    let c = small_curve();
    assert_eq!(c.calculate_tokens_out_for_sol(100), Ok(10));
    assert_eq!(c.calculate_tokens_out_for_sol(0), Err(FacemeltError::ZeroSwapAmount));
}

#[test]
fn sol_out_for_tokens_needs_prior_sales() {
    let c = small_curve();
    assert_eq!(c.calculate_sol_out_for_tokens(0), Err(FacemeltError::ZeroSwapAmount));
    assert_eq!(c.calculate_sol_out_for_tokens(1), Err(FacemeltError::InsufficientTokensSold));
}

#[test]
fn buy_then_sell_returns_the_payment() {
    // Buy 100 lamports of tokens, then sell the 10 received back:
    // with this exact slope the round trip returns exactly 100.
    let mut c = small_curve();
    let q = c.quote_buy(100).unwrap();
    assert_eq!(q.tokens_out, 10);
    assert_eq!(q.sol_spent, 100);
    assert_eq!(q.sol_refund, 0);
    c.tokens_sold_on_curve += q.tokens_out;
    c.sol_raised_on_curve += q.sol_spent;
    let back = c.calculate_sol_out_for_tokens(q.tokens_out).unwrap();
    assert_eq!(back, 100);
}

#[test]
fn sell_cannot_drain_more_than_raised() {
    // Record sales without the matching raise: the integral asks for
    // more SOL than the curve holds.
    let mut c = small_curve();
    c.tokens_sold_on_curve = 100;
    c.sol_raised_on_curve = 3;
    assert_eq!(c.calculate_sol_out_for_tokens(100), Err(FacemeltError::InsufficientCurveSol));
}

#[test]
fn overshooting_buy_caps_at_target_and_refunds() {
    // 2_000_000 lamports would buy past the 1_000-token target: the
    // buy caps at the target, costs the exact integral, and refunds
    // the rest.
    let c = small_curve();
    let q = c.quote_buy(2_000_000).unwrap();
    assert_eq!(q.tokens_out, 1_000);
    assert_eq!(q.sol_spent, 1_000_000);
    assert_eq!(q.sol_refund, 1_000_000);
}

#[test]
fn status_predicates() {
    let mut c = small_curve();
    assert!(c.is_active());
    assert!(!c.is_graduated());
    c.status = BondingCurveStatus::Graduated;
    assert!(!c.is_active());
    assert!(c.is_graduated());
}
