//! The linear bonding curve: price per unit grows linearly with the
//! quantity sold, so the SOL cost of moving the tokens-sold counter from
//! `q1` to `q2` is the integral `m * (q2^2 - q1^2) / 2` (in `SLOPE_PRECISION`
//! fixed point).
//!
//! A buy inverts the integral with a square root; a buy that would pass
//! the token target is capped at the target and the exact cost is
//! back-solved so the rest of the payment can be refunded.

use vstd::prelude::*;
use vstd::arithmetic::div_mod::*;
use vstd::arithmetic::mul::*;

verus! {

use crate::errors::FacemeltError;
use crate::fixed_point::isqrt;
use crate::fixed_point::isqrt_spec;
use crate::fixed_point::lemma_floor_div_bounds;
use crate::fixed_point::lemma_div_le_mono;
use crate::fixed_point::lemma_u64_mul_fits_u128;

/// Fixed-point scale of the curve slope (10^18).
pub const SLOPE_PRECISION: u128 = 1_000_000_000_000_000_000;

/// Default total supply minted at launch: 420 million tokens with six
/// decimals.
pub const DEFAULT_TOTAL_SUPPLY: u64 = 420_000_000_000_000;

/// Default SOL raise target: 200 SOL in lamports.
pub const DEFAULT_TARGET_SOL: u64 = 200_000_000_000;

/// Default token sale target: 280 million tokens with six decimals.
pub const DEFAULT_TARGET_TOKENS_SOLD: u64 = 280_000_000_000_000;

/// A curve prices trades while `Active`; graduation to the AMM is
/// one-way.
#[derive(Clone, Copy, Debug, PartialEq, Eq, Structural)]
pub enum BondingCurveStatus {
    Active,
    Graduated,
}

/// Bonding-curve state: the derived slope, the two running counters and
/// the two graduation targets.
#[derive(Clone, Copy, Debug, PartialEq, Eq, Structural)]
pub struct BondingCurve {
    /// Slope `m` of the price line `price(q) = m * q`, in
    /// `SLOPE_PRECISION` fixed point.
    pub bonding_curve_slope_m: u128,
    /// Tokens sold so far, in token base units.
    pub tokens_sold_on_curve: u64,
    /// SOL raised so far, in lamports.
    pub sol_raised_on_curve: u64,
    /// Graduate once this much SOL is raised.
    pub bonding_target_sol: u64,
    /// Graduate once this many tokens are sold; buys never pass it.
    pub bonding_target_tokens_sold: u64,
    /// Whether the curve still prices trades.
    pub status: BondingCurveStatus,
}

/// The slope derived from the launch targets:
/// `m = 2 * target_sol * SLOPE_PRECISION / target_tokens_sold^2`.
pub open spec fn slope_spec(target_sol: int, target_tokens_sold: int) -> int {
    2 * target_sol * SLOPE_PRECISION as int / (target_tokens_sold * target_tokens_sold)
}

/// SOL cost of moving the tokens-sold counter from `q1` up to `q2`:
/// the floored integral `m * (q2^2 - q1^2) / 2 / SLOPE_PRECISION`.
pub open spec fn curve_cost_spec(m: int, q1: int, q2: int) -> int {
    m * (q2 * q2 - q1 * q1) / 2 / SLOPE_PRECISION as int
}

/// What a buy of `sol_in` returns: the capped token amount, the SOL
/// actually spent, and the refund.
#[derive(Clone, Copy, Debug, PartialEq, Eq, Structural)]
pub struct BuyQuote {
    /// Tokens handed to the buyer.
    pub tokens_out: u64,
    /// SOL kept by the curve; equals the payment unless the buy was
    /// capped at the token target.
    pub sol_spent: u64,
    /// The part of the payment handed back: `sol_in - sol_spent`.
    pub sol_refund: u64,
}

/// With the slope derived from the targets, every curve cost up to the
/// token target stays below `2 * target_sol * SLOPE_PRECISION`, which
/// fits easily in 128 bits.
pub proof fn lemma_slope_products_fit(ts: int, tt: int, q: int)
    requires
        1 <= ts <= u64::MAX,
        1 <= tt <= u64::MAX,
        0 <= q <= tt,
    ensures
        0 <= slope_spec(ts, tt),
        slope_spec(ts, tt) * (q * q) <= 2 * ts * SLOPE_PRECISION as int,
        2 * ts * SLOPE_PRECISION as int <= u128::MAX,
{
    let m = slope_spec(ts, tt);
    let num = 2 * ts * SLOPE_PRECISION as int;
    lemma_mul_strictly_positive(tt, tt);
    lemma_div_pos_is_pos(num, tt * tt);
    lemma_floor_div_bounds(num, tt * tt);
    // (tt * tt) * m <= num, and q * q <= tt * tt.
    assert(q * q <= tt * tt) by (nonlinear_arith)
        requires
            0 <= q <= tt,
    ;
    assert(m * (q * q) <= m * (tt * tt)) by (nonlinear_arith)
        requires
            m >= 0,
            q * q <= tt * tt,
    ;
    assert(m * (tt * tt) == (tt * tt) * m) by (nonlinear_arith);
    assert(2 * ts * SLOPE_PRECISION as int <= 2 * (u64::MAX as int) * SLOPE_PRECISION as int)
        by (nonlinear_arith)
        requires
            ts <= u64::MAX,
    ;
}

impl BondingCurve {
    /// Well-formedness: live targets, the counter inside the target, and
    /// the slope exactly as derived from the targets.
    pub open spec fn wf(self) -> bool {
        &&& 1 <= self.bonding_target_sol
        &&& 1 <= self.bonding_target_tokens_sold
        &&& self.tokens_sold_on_curve <= self.bonding_target_tokens_sold
        &&& self.bonding_curve_slope_m as int == slope_spec(
            self.bonding_target_sol as int,
            self.bonding_target_tokens_sold as int,
        )
    }

    pub fn is_active(&self) -> (r: bool)
        ensures
            r == (self.status is Active),
    {
        match self.status {
            BondingCurveStatus::Active => true,
            BondingCurveStatus::Graduated => false,
        }
    }

    pub fn is_graduated(&self) -> (r: bool)
        ensures
            r == (self.status is Graduated),
    {
        match self.status {
            BondingCurveStatus::Active => false,
            BondingCurveStatus::Graduated => true,
        }
    }

    /// Derive the slope from the launch targets; rejects a zero token
    /// target, and never overflows for 64-bit targets.
    pub fn calculate_slope(target_sol: u64, target_tokens_sold: u64) -> (r: Result<
        u128,
        FacemeltError,
    >)
        ensures
            target_tokens_sold == 0 ==> r == Err::<u128, FacemeltError>(
                FacemeltError::InvalidBondingCurveParams,
            ),
            target_tokens_sold >= 1 ==> r == Ok::<u128, FacemeltError>(
                slope_spec(target_sol as int, target_tokens_sold as int) as u128,
            ),
    {
        if target_tokens_sold == 0 {
            return Err(FacemeltError::InvalidBondingCurveParams);
        }
        proof {
            assert(2 * target_sol as int * SLOPE_PRECISION as int <= 2 * (u64::MAX as int)
                * SLOPE_PRECISION as int) by (nonlinear_arith)
                requires
                    target_sol <= u64::MAX,
            ;
            lemma_u64_mul_fits_u128(target_tokens_sold as int, target_tokens_sold as int);
            lemma_mul_nonnegative(2 * target_sol as int, SLOPE_PRECISION as int);
            lemma_mul_strictly_positive(target_tokens_sold as int, target_tokens_sold as int);
            lemma_div_pos_is_pos(
                2 * target_sol as int * SLOPE_PRECISION as int,
                target_tokens_sold as int * target_tokens_sold as int,
            );
            lemma_div_le_mono(
                2 * target_sol as int * SLOPE_PRECISION as int,
                u128::MAX as int,
                target_tokens_sold as int * target_tokens_sold as int,
            );
            assert(u128::MAX as int / (target_tokens_sold as int * target_tokens_sold as int)
                <= u128::MAX as int) by {
                lemma_div_is_ordered_by_denominator(
                    u128::MAX as int,
                    1,
                    target_tokens_sold as int * target_tokens_sold as int,
                );
                assert(u128::MAX as int / 1 == u128::MAX as int);
            }
        }
        let numerator: u128 = 2 * (target_sol as u128) * SLOPE_PRECISION;
        let denominator: u128 = (target_tokens_sold as u128) * (target_tokens_sold as u128);
        Ok(numerator / denominator)
    }

    /// Theoretical token output of a buy, before any target cap:
    /// `isqrt(q1^2 + 2 * sol_in * SLOPE_PRECISION / m) - q1`.
    pub fn calculate_tokens_out_for_sol(&self, sol_in: u64) -> (r: Result<u64, FacemeltError>)
        requires
            self.wf(),
        ensures
            sol_in == 0 ==> r == Err::<u64, FacemeltError>(FacemeltError::ZeroSwapAmount),
            sol_in >= 1 && self.bonding_curve_slope_m == 0 ==> r == Err::<u64, FacemeltError>(
                FacemeltError::MathOverflow,
            ),
            sol_in >= 1 && self.bonding_curve_slope_m >= 1 ==> ({
                let q1 = self.tokens_sold_on_curve as int;
                let term = 2 * sol_in as int * SLOPE_PRECISION as int
                    / self.bonding_curve_slope_m as int;
                if q1 * q1 + term > u128::MAX as int {
                    r == Err::<u64, FacemeltError>(FacemeltError::MathOverflow)
                } else {
                    r == Ok::<u64, FacemeltError>((isqrt_spec(q1 * q1 + term) - q1) as u64)
                        && q1 <= isqrt_spec(q1 * q1 + term)
                        && isqrt_spec(q1 * q1 + term) < 0x1_0000_0000_0000_0000
                }
            }),
    {
        if sol_in == 0 {
            return Err(FacemeltError::ZeroSwapAmount);
        }
        let m: u128 = self.bonding_curve_slope_m;
        if m == 0 {
            return Err(FacemeltError::MathOverflow);
        }
        proof {
            assert(2 * sol_in as int * SLOPE_PRECISION as int <= 2 * (u64::MAX as int)
                * SLOPE_PRECISION as int) by (nonlinear_arith)
                requires
                    sol_in <= u64::MAX,
            ;
            lemma_mul_nonnegative(2 * sol_in as int, SLOPE_PRECISION as int);
            lemma_div_pos_is_pos(2 * sol_in as int * SLOPE_PRECISION as int, m as int);
            lemma_div_le_mono(
                2 * sol_in as int * SLOPE_PRECISION as int,
                u128::MAX as int,
                m as int,
            );
            assert(u128::MAX as int / m as int <= u128::MAX as int) by {
                lemma_div_is_ordered_by_denominator(u128::MAX as int, 1, m as int);
                assert(u128::MAX as int / 1 == u128::MAX as int);
            }
            lemma_u64_mul_fits_u128(
                self.tokens_sold_on_curve as int,
                self.tokens_sold_on_curve as int,
            );
        }
        let term: u128 = 2 * (sol_in as u128) * SLOPE_PRECISION / m;
        let q1: u128 = self.tokens_sold_on_curve as u128;
        let q1_squared: u128 = q1 * q1;
        if q1_squared > u128::MAX - term {
            return Err(FacemeltError::MathOverflow);
        }
        let sum: u128 = q1_squared + term;
        let q2: u128 = isqrt(sum);
        proof {
            // q1^2 <= sum puts the root at or above q1.
            if q2 < q1 {
                assert((q2 as int + 1) * (q2 as int + 1) <= q1 as int * q1 as int)
                    by (nonlinear_arith)
                    requires
                        q2 as int + 1 <= q1 as int,
                        q2 >= 0,
                ;
                assert(false);
            }
            // sum < 2^128 keeps the root under 2^64.
            if q2 >= 0x1_0000_0000_0000_0000u128 {
                assert(q2 as int * q2 as int >= 0x1_0000_0000_0000_0000 * 0x1_0000_0000_0000_0000)
                    by (nonlinear_arith)
                    requires
                        q2 as int >= 0x1_0000_0000_0000_0000,
                ;
                assert(false);
            }
        }
        Ok((q2 - q1) as u64)
    }

    /// SOL returned for selling `tokens_in` back to the curve: the
    /// integral from `q1 - tokens_in` to `q1`, never more than the SOL
    /// the curve holds.
    pub fn calculate_sol_out_for_tokens(&self, tokens_in: u64) -> (r: Result<u64, FacemeltError>)
        requires
            self.wf(),
        ensures
            tokens_in == 0 ==> r == Err::<u64, FacemeltError>(FacemeltError::ZeroSwapAmount),
            tokens_in >= 1 && tokens_in > self.tokens_sold_on_curve ==> r == Err::<
                u64,
                FacemeltError,
            >(FacemeltError::InsufficientTokensSold),
            tokens_in >= 1 && tokens_in <= self.tokens_sold_on_curve ==> ({
                let q1 = self.tokens_sold_on_curve as int;
                let sol = curve_cost_spec(self.bonding_curve_slope_m as int, q1 - tokens_in, q1);
                if sol > self.sol_raised_on_curve as int {
                    r == Err::<u64, FacemeltError>(FacemeltError::InsufficientCurveSol)
                } else {
                    r == Ok::<u64, FacemeltError>(sol as u64) && 0 <= sol
                }
            }),
    {
        if tokens_in == 0 {
            return Err(FacemeltError::ZeroSwapAmount);
        }
        if tokens_in > self.tokens_sold_on_curve {
            return Err(FacemeltError::InsufficientTokensSold);
        }
        let q1: u128 = self.tokens_sold_on_curve as u128;
        let q2: u128 = q1 - (tokens_in as u128);
        proof {
            lemma_u64_mul_fits_u128(q1 as int, q1 as int);
            assert(q2 as int * q2 as int <= q1 as int * q1 as int) by (nonlinear_arith)
                requires
                    0 <= q2 as int <= q1 as int,
            ;
            lemma_slope_products_fit(
                self.bonding_target_sol as int,
                self.bonding_target_tokens_sold as int,
                q1 as int,
            );
            let m = self.bonding_curve_slope_m as int;
            let diff = q1 as int * q1 as int - q2 as int * q2 as int;
            assert(m * diff <= m * (q1 as int * q1 as int)) by (nonlinear_arith)
                requires
                    m >= 0,
                    diff <= q1 as int * q1 as int,
                    diff >= 0,
            ;
            lemma_mul_nonnegative(m, diff);
            lemma_div_pos_is_pos(m * diff, 2);
            lemma_div_pos_is_pos(m * diff / 2, SLOPE_PRECISION as int);
            lemma_div_le_mono(m * diff, u128::MAX as int, 2);
            lemma_div_le_mono(m * diff / 2, u128::MAX as int / 2, SLOPE_PRECISION as int);
            assert(u128::MAX as int / 2 / SLOPE_PRECISION as int <= u128::MAX as int) by {
                lemma_div_pos_is_pos(u128::MAX as int, 2);
                lemma_div_is_ordered_by_denominator(u128::MAX as int, 1, 2);
                assert(u128::MAX as int / 1 == u128::MAX as int);
                lemma_div_is_ordered_by_denominator(
                    u128::MAX as int / 2,
                    1,
                    SLOPE_PRECISION as int,
                );
                assert(u128::MAX as int / 2 / 1 == u128::MAX as int / 2);
            }
        }
        let q1_squared: u128 = q1 * q1;
        let q2_squared: u128 = q2 * q2;
        let diff: u128 = q1_squared - q2_squared;
        let sol_out: u128 = self.bonding_curve_slope_m * diff / 2 / SLOPE_PRECISION;
        if sol_out > self.sol_raised_on_curve as u128 {
            return Err(FacemeltError::InsufficientCurveSol);
        }
        Ok(sol_out as u64)
    }

    /// What a buy returns before any state change: the exact error, or
    /// the (possibly capped) token output with the spent and refunded
    /// SOL split.
    pub open spec fn buy_quote_spec(self, sol_in: u64) -> Result<BuyQuote, FacemeltError> {
        let m = self.bonding_curve_slope_m as int;
        let q1 = self.tokens_sold_on_curve as int;
        let tt = self.bonding_target_tokens_sold as int;
        if sol_in == 0 {
            Err(FacemeltError::ZeroSwapAmount)
        } else if m == 0 {
            Err(FacemeltError::MathOverflow)
        } else {
            let term = 2 * sol_in as int * SLOPE_PRECISION as int / m;
            if q1 * q1 + term > u128::MAX as int {
                Err(FacemeltError::MathOverflow)
            } else {
                let raw = isqrt_spec(q1 * q1 + term) - q1;
                if q1 + raw <= tt {
                    Ok(BuyQuote { tokens_out: raw as u64, sol_spent: sol_in, sol_refund: 0 })
                } else {
                    let spent = curve_cost_spec(m, q1, tt);
                    Ok(BuyQuote {
                        tokens_out: (tt - q1) as u64,
                        sol_spent: spent as u64,
                        sol_refund: (sol_in - spent) as u64,
                    })
                }
            }
        }
    }

    /// Price a buy of `sol_in`. A buy that would pass the token target
    /// is capped at the target and the exact cost of the remaining gap
    /// is back-solved; the difference is refunded. The curve never
    /// spends more than it was paid.
    pub fn quote_buy(&self, sol_in: u64) -> (r: Result<BuyQuote, FacemeltError>)
        requires
            self.wf(),
        ensures
            r == self.buy_quote_spec(sol_in),
            r is Ok ==> r->Ok_0.sol_spent <= sol_in,
            r is Ok ==> r->Ok_0.sol_refund == sol_in - r->Ok_0.sol_spent,
            r is Ok ==> self.tokens_sold_on_curve + r->Ok_0.tokens_out
                <= self.bonding_target_tokens_sold,
    {
        let raw: u64 = match self.calculate_tokens_out_for_sol(sol_in) {
            Err(e) => {
                return Err(e);
            },
            Ok(v) => v,
        };
        let q1: u64 = self.tokens_sold_on_curve;
        let tt: u64 = self.bonding_target_tokens_sold;
        let new_tokens_sold: u64 = q1 + raw;
        if new_tokens_sold <= tt {
            return Ok(BuyQuote { tokens_out: raw, sol_spent: sol_in, sol_refund: 0 });
        }
        // Cap at the target and back-solve the exact cost of the gap.
        let tokens_out: u64 = tt - q1;
        let q1w: u128 = q1 as u128;
        let q2w: u128 = tt as u128;
        proof {
            lemma_u64_mul_fits_u128(tt as int, tt as int);
            lemma_slope_products_fit(
                self.bonding_target_sol as int,
                self.bonding_target_tokens_sold as int,
                tt as int,
            );
            let m = self.bonding_curve_slope_m as int;
            let diff = q2w as int * q2w as int - q1w as int * q1w as int;
            assert(q1w as int * q1w as int <= q2w as int * q2w as int) by (nonlinear_arith)
                requires
                    0 <= q1w as int <= q2w as int,
            ;
            assert(m * diff <= m * (q2w as int * q2w as int)) by (nonlinear_arith)
                requires
                    m >= 0,
                    0 <= diff <= q2w as int * q2w as int,
            ;
            lemma_mul_nonnegative(m, diff);
            lemma_div_pos_is_pos(m * diff, 2);
            lemma_div_pos_is_pos(m * diff / 2, SLOPE_PRECISION as int);
            lemma_div_le_mono(m * diff, 2 * self.bonding_target_sol as int * SLOPE_PRECISION as int, 2);
            // The gap cost never exceeds the payment: the target root
            // stays at or below the theoretical one, whose cost is
            // bounded by the payment.
            lemma_buy_cap_cost_le_payment(*self, sol_in, raw as int);
        }
        let diff: u128 = q2w * q2w - q1w * q1w;
        let sol_spent_wide: u128 = self.bonding_curve_slope_m * diff / 2 / SLOPE_PRECISION;
        let sol_spent: u64 = sol_spent_wide as u64;
        let sol_refund: u64 = sol_in - sol_spent;
        Ok(BuyQuote { tokens_out, sol_spent, sol_refund })
    }
}

/// In the capped branch of a buy, the back-solved cost of the gap up to
/// the token target never exceeds the SOL paid in.
proof fn lemma_buy_cap_cost_le_payment(c: BondingCurve, sol_in: u64, raw: int)
    requires
        c.wf(),
        sol_in >= 1,
        c.bonding_curve_slope_m >= 1,
        ({
            let q1 = c.tokens_sold_on_curve as int;
            let term = 2 * sol_in as int * SLOPE_PRECISION as int / c.bonding_curve_slope_m as int;
            &&& q1 * q1 + term <= u128::MAX as int
            &&& raw == isqrt_spec(q1 * q1 + term) - q1
            &&& q1 + raw > c.bonding_target_tokens_sold as int
        }),
    ensures
        ({
            let q1 = c.tokens_sold_on_curve as int;
            let tt = c.bonding_target_tokens_sold as int;
            &&& 0 <= curve_cost_spec(c.bonding_curve_slope_m as int, q1, tt)
            &&& curve_cost_spec(c.bonding_curve_slope_m as int, q1, tt) <= sol_in as int
        }),
{
    let m = c.bonding_curve_slope_m as int;
    let q1 = c.tokens_sold_on_curve as int;
    let tt = c.bonding_target_tokens_sold as int;
    let s = SLOPE_PRECISION as int;
    let term = 2 * sol_in as int * s / m;
    let sum = q1 * q1 + term;
    crate::fixed_point::lemma_isqrt_exists(sum);
    let rt = isqrt_spec(sum);
    // tt < q1 + raw == rt, so tt^2 <= rt^2 <= sum.
    assert(tt * tt <= rt * rt) by (nonlinear_arith)
        requires
            0 <= tt <= rt,
    ;
    let diff = tt * tt - q1 * q1;
    assert(q1 * q1 <= tt * tt) by (nonlinear_arith)
        requires
            0 <= q1 <= tt,
    ;
    assert(diff <= term);
    // m * diff <= m * term <= 2 * sol_in * s  (floor-division law).
    lemma_mul_nonnegative(2 * sol_in as int, s);
    lemma_floor_div_bounds(2 * sol_in as int * s, m);
    assert(m * diff <= m * term) by (nonlinear_arith)
        requires
            m >= 0,
            diff <= term,
    ;
    assert(m * term <= 2 * sol_in as int * s);
    // Divide down by 2 then by s: the result is at most sol_in.
    lemma_mul_nonnegative(m, diff);
    lemma_div_le_mono(m * diff, 2 * sol_in as int * s, 2);
    assert(2 * sol_in as int * s / 2 == sol_in as int * s) by {
        assert(2 * sol_in as int * s == 2 * (sol_in as int * s)) by (nonlinear_arith);
        lemma_div_multiples_vanish(sol_in as int * s, 2);
    }
    lemma_div_pos_is_pos(m * diff, 2);
    lemma_div_le_mono(m * diff / 2, sol_in as int * s, s);
    assert(sol_in as int * s / s == sol_in as int) by {
        assert(sol_in as int * s == s * sol_in as int) by (nonlinear_arith);
        lemma_div_multiples_vanish(sol_in as int, s);
    }
    lemma_div_pos_is_pos(m * diff / 2, s);
}

} // verus!
