//! Leveraged positions: immutable snapshots created at open and
//! destroyed at close or liquidation.
//!
//! A position is virtual: its output was never paid out, it is a
//! recorded claim against the effective reserves. The claim decays over
//! time: at any later time the live part of the position is `size *
//! f(t)` and `delta_k * f(t)`, where `f(t)` is the remaining factor
//! derived from the funding accumulator.

use vstd::prelude::*;
use vstd::arithmetic::div_mod::*;
use vstd::arithmetic::mul::*;

verus! {

use crate::errors::FacemeltError;
use crate::pool::FUNDING_PRECISION;

/// A leveraged position, keyed by `(pool, owner, nonce)`. Created by a
/// leverage swap, never mutated, destroyed by close or liquidation.
#[derive(Clone, Copy, Debug, PartialEq, Eq, Structural)]
pub struct Position {
    /// The owner of the position.
    pub owner: u64,
    /// The pool the position is in.
    pub pool: u64,
    /// Long positions deposited SOL and claim tokens; shorts mirror.
    pub is_long: bool,
    /// The amount the trader deposited.
    pub collateral: u64,
    /// Leverage multiplier scaled by 10 (25 means 2.5x), in [10, 100].
    pub leverage: u32,
    /// Virtual output quantity at open: the claim on the opposite
    /// effective reserve.
    pub size: u64,
    /// The drop in effective `k` this open caused; amortized by funding.
    pub delta_k: u128,
    /// Snapshot of the pool accumulator when the position was opened.
    pub entry_funding_accumulator: u128,
    /// Distinguishes several positions of one owner in one pool.
    pub nonce: u64,
}

/// The live part of a position's size under remaining factor `factor`:
/// `size * factor / FUNDING_PRECISION`.
pub open spec fn effective_size_spec(size: int, factor: int) -> int {
    size * factor / FUNDING_PRECISION as int
}

/// A remaining factor of zero erases the position: both the effective
/// size and the effective delta-k are zero.
pub proof fn lemma_zero_factor_erases(size: int, delta_k: int)
    requires
        size >= 0,
        delta_k >= 0,
    ensures
        effective_size_spec(size, 0) == 0,
        effective_size_spec(delta_k, 0) == 0,
{
    assert(size * 0 == 0) by (nonlinear_arith);
    assert(delta_k * 0 == 0) by (nonlinear_arith);
    assert(0int / FUNDING_PRECISION as int == 0) by {
        lemma_div_of0(FUNDING_PRECISION as int);
    }
}

/// Scaling by a factor of at most `FUNDING_PRECISION` never grows a
/// value.
pub proof fn lemma_effective_le_original(v: int, factor: int)
    requires
        0 <= v,
        0 <= factor <= FUNDING_PRECISION,
    ensures
        0 <= effective_size_spec(v, factor) <= v,
{
    lemma_mul_nonnegative(v, factor);
    lemma_div_pos_is_pos(v * factor, FUNDING_PRECISION as int);
    assert(v * factor <= v * FUNDING_PRECISION as int) by (nonlinear_arith)
        requires
            v >= 0,
            factor <= FUNDING_PRECISION as int,
    ;
    lemma_div_is_ordered(v * factor, v * FUNDING_PRECISION as int, FUNDING_PRECISION as int);
    assert(v * FUNDING_PRECISION as int == FUNDING_PRECISION as int * v) by (nonlinear_arith);
    lemma_div_multiples_vanish(v, FUNDING_PRECISION as int);
}

impl Position {
    /// The borrowed part of the total input:
    /// `collateral * leverage / 10 - collateral`. Zero at leverage 10.
    pub fn calculate_fill_amount(&self) -> (r: Result<u64, FacemeltError>)
        ensures
            ({
                let total = self.collateral as int * self.leverage as int / 10;
                if self.collateral as int * self.leverage as int > u64::MAX as int {
                    r == Err::<u64, FacemeltError>(FacemeltError::MathOverflow)
                } else if total < self.collateral as int {
                    r == Err::<u64, FacemeltError>(FacemeltError::MathUnderflow)
                } else {
                    r == Ok::<u64, FacemeltError>((total - self.collateral as int) as u64)
                }
            }),
    {
        let scaled: u64 = match self.collateral.checked_mul(self.leverage as u64) {
            None => {
                return Err(FacemeltError::MathOverflow);
            },
            Some(v) => v,
        };
        let total: u64 = scaled / 10;
        if total < self.collateral {
            return Err(FacemeltError::MathUnderflow);
        }
        Ok(total - self.collateral)
    }
}

/// Gross value of a virtual claim against reserves, ignoring debt:
/// `total_x * position_size / (total_y + position_size)`, floored. The
/// mirror of the pricing swap without the ceiling protection.
pub fn calculate_position_expected_output(
    total_x: u64,
    total_y: u64,
    position_size: u64,
    is_long: bool,
) -> (r: Result<u64, FacemeltError>)
    ensures
        ({
            let num = if is_long {
                total_x as int * position_size as int
            } else {
                total_y as int * position_size as int
            };
            let den = if is_long {
                total_y as int + position_size as int
            } else {
                total_x as int + position_size as int
            };
            if den == 0 {
                r == Err::<u64, FacemeltError>(FacemeltError::MathOverflow)
            } else if num / den > u64::MAX as int {
                r == Err::<u64, FacemeltError>(FacemeltError::MathOverflow)
            } else {
                r == Ok::<u64, FacemeltError>((num / den) as u64)
            }
        }),
{
    let x: u128 = total_x as u128;
    let y: u128 = total_y as u128;
    let size: u128 = position_size as u128;
    proof {
        crate::fixed_point::lemma_u64_mul_fits_u128(total_x as int, position_size as int);
        crate::fixed_point::lemma_u64_mul_fits_u128(total_y as int, position_size as int);
    }
    let (num, den): (u128, u128) = if is_long {
        (x * size, y + size)
    } else {
        (y * size, x + size)
    };
    if den == 0 {
        return Err(FacemeltError::MathOverflow);
    }
    let out: u128 = num / den;
    if out > u64::MAX as u128 {
        return Err(FacemeltError::MathOverflow);
    }
    Ok(out as u64)
}

} // verus!
