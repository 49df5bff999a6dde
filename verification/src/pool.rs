//! The two-reserve pool: real (custodied) and effective (pricing)
//! reserves, the outstanding leverage debt per side, the funding
//! accumulator, and the EMA price oracle.
//!
//! All pricing happens on the effective reserves; the real reserves are
//! the audit totals of assets physically held and move only on physical
//! deposits and withdrawals.

use vstd::prelude::*;
use vstd::arithmetic::div_mod::*;
use vstd::arithmetic::mul::*;

verus! {

use crate::errors::FacemeltError;
use crate::fixed_point::ceil_div_spec;
use crate::fixed_point::lemma_ceil_div_bounds;
use crate::fixed_point::lemma_u64_mul_fits_u128;

/// Fixed-point scale of the funding accumulator and remaining factor (2^32).
pub const FUNDING_PRECISION: u128 = 0x1_0000_0000;

/// Both operands of the debt-to-k ratio are divided by this constant
/// first; the ratio is dimensionless and preserved.
pub const SCALE_FACTOR: u128 = 1_000_000_000;

/// Fixed-point scale of spot and EMA prices (2^64).
pub const PRICE_PRECISION: u128 = 0x1_0000_0000_0000_0000;

/// Default per-second funding constant: 0.0001 in fixed point.
pub const DEFAULT_FUNDING_CONSTANT_C: u128 = FUNDING_PRECISION / 10000;

/// Default maximum spot-to-EMA divergence (percent) at which a
/// liquidation is still allowed.
pub const DEFAULT_LIQUIDATION_DIVERGENCE_THRESHOLD: u128 = 10;

/// EMA smoothing divisor: each observation moves the EMA by
/// `(spot - ema) / EMA_WINDOW`.
pub const EMA_WINDOW: u128 = 32;

/// After a close, a residual debt total below `effective_k` divided by
/// this constant is snapped to zero to erase rounding dust.
pub const DELTA_K_SNAP_FRACTION: u128 = 10_000;

/// Lifecycle of a market: created dormant, priced on the bonding curve,
/// then graduated to the constant-product AMM. One-way transitions.
#[derive(Clone, Copy, Debug, PartialEq, Eq, Structural)]
pub enum PoolPhase {
    Uninitialized,
    Curve,
    Amm,
}

/// Pool state. Quantities are u64 base units; debt sums and the funding
/// accumulator are 128-bit fixed point.
#[derive(Clone, Copy, Debug, PartialEq, Eq, Structural)]
pub struct Pool {
    /// Real SOL custodied, in lamports; an audit total.
    pub sol_reserve: u64,
    /// Real tokens custodied, in base units; an audit total.
    pub token_reserve: u64,
    /// SOL reserve used for all pricing.
    pub effective_sol_reserve: u64,
    /// Token reserve used for all pricing.
    pub effective_token_reserve: u64,
    /// Sum of the original delta-k of all open long positions, amortized
    /// over time by funding.
    pub total_delta_k_longs: u128,
    /// Sum of the original delta-k of all open short positions.
    pub total_delta_k_shorts: u128,
    /// Monotonically non-decreasing funding index, `FUNDING_PRECISION`
    /// fixed point.
    pub cumulative_funding_accumulator: u128,
    /// Time of the last funding update, in seconds.
    pub last_update_timestamp: i64,
    /// EMA of the spot price, `PRICE_PRECISION` fixed point.
    pub ema_price: u128,
    /// The first price observation sets the EMA directly.
    pub ema_initialized: bool,
    /// Per-second funding constant, `FUNDING_PRECISION` fixed point.
    pub funding_constant_c: u128,
    /// Maximum spot-to-EMA divergence for liquidations, in percent.
    pub liquidation_divergence_threshold: u128,
    /// Where in the launch lifecycle this market stands.
    pub phase: PoolPhase,
}

/// Output of a constant-product swap on reserves `(x, y)`: the new `y`
/// reserve is the ceiling of `k / (x + in)`, which protects `k`.
pub open spec fn swap_output_spec(x: int, y: int, amount_in: int) -> int {
    y - ceil_div_spec(x * y, x + amount_in)
}

/// The swap output is a proper part of the `y` reserve and the product
/// of the new reserves never drops below the old product.
pub proof fn lemma_swap_output_bounds(x: int, y: int, a: int)
    requires
        1 <= x <= u64::MAX,
        1 <= y <= u64::MAX,
        1 <= a,
    ensures
        0 <= swap_output_spec(x, y, a) < y,
        (x + a) * (y - swap_output_spec(x, y, a)) >= x * y,
{
    let k = x * y;
    let d = x + a;
    let c = ceil_div_spec(k, d);
    lemma_mul_strictly_positive(x, y);
    lemma_ceil_div_bounds(k, d);
    // c >= 1: d * c >= k >= 1 rules out c == 0.
    if c == 0 {
        assert(d * 0 == 0) by (nonlinear_arith);
        assert(false);
    }
    // c <= y: d * c < k + d <= d * (y + 1).
    assert(d * (y + 1) >= k + d) by (nonlinear_arith)
        requires
            k == x * y,
            d == x + a,
            y >= 1,
            a >= 1,
            x >= 1,
    ;
    assert(c <= y) by (nonlinear_arith)
        requires
            d * c < d * (y + 1),
            d >= 1,
            c >= 0,
            y >= 0,
    ;
}

impl Pool {
    /// Well-formedness: a graduated pool has live reserves on both sides,
    /// an initialized oracle, and a sane divergence threshold.
    pub open spec fn wf(self) -> bool {
        &&& self.liquidation_divergence_threshold <= 100
        &&& (self.phase is Amm ==> {
            &&& self.sol_reserve >= 1
            &&& self.token_reserve >= 1
            &&& self.effective_sol_reserve >= 1
            &&& self.effective_token_reserve >= 1
            &&& self.ema_initialized
        })
    }

    /// The product of the effective reserves.
    pub open spec fn effective_k(self) -> int {
        self.effective_sol_reserve as int * self.effective_token_reserve as int
    }

    /// Spot price of the token in SOL, `PRICE_PRECISION` fixed point.
    pub open spec fn spot_price_spec(self) -> int {
        self.effective_sol_reserve as int * PRICE_PRECISION as int
            / self.effective_token_reserve as int
    }

    /// What `calculate_output` returns for every input: the swap output
    /// over effective reserves, or the exact error.
    pub open spec fn calculate_output_spec(self, input_amount: u64, input_is_sol: bool) -> Result<
        u64,
        FacemeltError,
    > {
        let x = self.effective_sol_reserve as int;
        let y = self.effective_token_reserve as int;
        if input_amount == 0 {
            Err(FacemeltError::ZeroSwapAmount)
        } else if x == 0 || y == 0 {
            Err(FacemeltError::InsufficientLiquidity)
        } else if input_is_sol {
            Ok(swap_output_spec(x, y, input_amount as int) as u64)
        } else {
            Ok(swap_output_spec(y, x, input_amount as int) as u64)
        }
    }

    /// Constant-product output over the effective reserves. The new
    /// opposite reserve is rounded up, so the effective `k` never drops.
    pub fn calculate_output(&self, input_amount: u64, input_is_sol: bool) -> (r: Result<
        u64,
        FacemeltError,
    >)
        ensures
            r == self.calculate_output_spec(input_amount, input_is_sol),
    {
        if input_amount == 0 {
            return Err(FacemeltError::ZeroSwapAmount);
        }
        if self.effective_sol_reserve == 0 || self.effective_token_reserve == 0 {
            return Err(FacemeltError::InsufficientLiquidity);
        }
        let (x64, y64): (u64, u64) = if input_is_sol {
            (self.effective_sol_reserve, self.effective_token_reserve)
        } else {
            (self.effective_token_reserve, self.effective_sol_reserve)
        };
        let x: u128 = x64 as u128;
        let y: u128 = y64 as u128;
        let input: u128 = input_amount as u128;
        proof {
            lemma_u64_mul_fits_u128(x as int, y as int);
            lemma_swap_output_bounds(x as int, y as int, input as int);
        }
        let k: u128 = x * y;
        let x_new: u128 = x + input;
        let mut y_new: u128 = k / x_new;
        if k % x_new != 0 {
            proof {
                lemma_ceil_div_bounds(k as int, x_new as int);
            }
            y_new = y_new + 1;
        }
        let output: u128 = y - y_new;
        Ok(output as u64)
    }

    /// Spot price of the token: `effective_sol * PRICE_PRECISION /
    /// effective_token`.
    pub fn spot_price(&self) -> (r: u128)
        requires
            self.effective_token_reserve >= 1,
        ensures
            r == self.spot_price_spec(),
    {
        proof {
            lemma_mul_upper_bound(
                self.effective_sol_reserve as int,
                u64::MAX as int,
                PRICE_PRECISION as int,
                PRICE_PRECISION as int,
            );
            lemma_mul_nonnegative(self.effective_sol_reserve as int, PRICE_PRECISION as int);
        }
        ((self.effective_sol_reserve as u128) * PRICE_PRECISION)
            / (self.effective_token_reserve as u128)
    }

    /// Where the EMA moves on one observation of `spot`.
    pub open spec fn ema_next_spec(ema: int, spot: int) -> int {
        if spot >= ema {
            ema + (spot - ema) / EMA_WINDOW as int
        } else {
            ema - (ema - spot) / EMA_WINDOW as int
        }
    }

    /// Observe the current spot price: the first observation sets the
    /// EMA directly, later ones move it by a 1/`EMA_WINDOW` step.
    pub fn update_ema(&mut self)
        requires
            old(self).effective_token_reserve >= 1,
        ensures
            *final(self) == (Pool {
                ema_price: if old(self).ema_initialized {
                    Self::ema_next_spec(old(self).ema_price as int, old(self).spot_price_spec()) as u128
                } else {
                    old(self).spot_price_spec() as u128
                },
                ema_initialized: true,
                ..*old(self)
            }),
            old(self).ema_initialized ==> final(self).ema_price
                == Self::ema_next_spec(old(self).ema_price as int, old(self).spot_price_spec()),
    {
        let spot: u128 = self.spot_price();
        if !self.ema_initialized {
            self.ema_price = spot;
            self.ema_initialized = true;
        } else {
            let ema: u128 = self.ema_price;
            if spot >= ema {
                proof {
                    lemma_div_pos_is_pos((spot - ema) as int, EMA_WINDOW as int);
                    lemma_div_is_ordered((spot - ema) as int, u128::MAX as int, EMA_WINDOW as int);
                    assert((spot - ema) as int / EMA_WINDOW as int <= (spot - ema) as int) by {
                        lemma_div_is_ordered_by_denominator((spot - ema) as int, 1, EMA_WINDOW as int);
                        assert((spot - ema) as int / 1 == (spot - ema) as int);
                    }
                }
                self.ema_price = ema + (spot - ema) / EMA_WINDOW;
            } else {
                proof {
                    lemma_div_pos_is_pos((ema - spot) as int, EMA_WINDOW as int);
                }
                self.ema_price = ema - (ema - spot) / EMA_WINDOW;
            }
        }
    }

    /// A liquidation is price-safe when the spot price stays within
    /// `threshold` percent of the EMA.
    pub open spec fn price_is_safe_spec(self) -> bool {
        let spot = self.spot_price_spec();
        let ema = self.ema_price as int;
        let allowed = ema * self.liquidation_divergence_threshold as int / 100;
        if spot >= ema {
            spot - ema <= allowed
        } else {
            ema - spot <= allowed
        }
    }

    /// Compare the spot price against the EMA divergence band.
    pub fn price_is_safe(&self) -> (r: bool)
        requires
            self.effective_token_reserve >= 1,
            self.liquidation_divergence_threshold <= 100,
        ensures
            r == self.price_is_safe_spec(),
    {
        let spot: u128 = self.spot_price();
        let ema: u128 = self.ema_price;
        let allowed: u128 = percent_of(ema, self.liquidation_divergence_threshold);
        if spot >= ema {
            spot - ema <= allowed
        } else {
            ema - spot <= allowed
        }
    }
}

/// Floor of `value * percent / 100` without a wide intermediate: the
/// value is split at the divisor and the two parts are scaled apart.
pub fn percent_of(value: u128, percent: u128) -> (r: u128)
    requires
        percent <= 100,
    ensures
        r == value as int * percent as int / 100,
{
    let whole: u128 = value / 100;
    let rem: u128 = value % 100;
    proof {
        lemma_fundamental_div_mod(value as int, 100);
        lemma_mod_bound(value as int, 100);
        let w = whole as int;
        let rm = rem as int;
        let p = percent as int;
        lemma_mul_nonnegative(w, p);
        lemma_mul_nonnegative(rm, p);
        assert(w * p <= w * 100) by (nonlinear_arith)
            requires
                w >= 0,
                p <= 100,
        ;
        assert(rm * p <= 9900) by (nonlinear_arith)
            requires
                0 <= rm < 100,
                0 <= p <= 100,
        ;
        assert(w * 100 <= value as int);
        lemma_div_pos_is_pos(rm * p, 100);
        // value * p == (w * p) * 100 + rm * p, so dividing by 100 hoists
        // the whole part out exactly.
        assert(value as int * p == (w * p) * 100 + rm * p) by (nonlinear_arith)
            requires
                value as int == 100 * w + rm,
        ;
        lemma_hoist_over_denominator(rm * p, w * p, 100);
        assert(rm * p / 100 <= rm * p) by {
            lemma_div_is_ordered_by_denominator(rm * p, 1, 100);
            assert(rm * p / 1 == rm * p);
        }
        // The two addends stay within the original value: the whole part
        // contributes at most value - rem, the remainder part at most rem.
        assert(rm * p <= rm * 100) by (nonlinear_arith)
            requires
                rm >= 0,
                p <= 100,
        ;
        lemma_div_is_ordered(rm * p, rm * 100, 100);
        lemma_div_multiples_vanish(rm, 100);
        assert(rm * 100 == 100 * rm) by (nonlinear_arith);
        assert(rm * p / 100 <= rm);
        assert(w * p + rm * p / 100 <= value as int);
    }
    whole * percent + (rem * percent) / 100
}

} // verus!
