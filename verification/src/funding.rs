//! The funding engine: time-driven growth of the funding accumulator,
//! proportional amortization of the outstanding debt, and the
//! per-position remaining factor.
//!
//! The funding rate is `C * (total_delta_k / effective_k)^2` per second.
//! Both operands of the ratio are divided by `SCALE_FACTOR` first so the
//! quotient stays in range; the ratio is dimensionless and preserved.
//! Fees paid by each side amortize that side's debt total and raise the
//! opposite effective reserve, pushing the effective `k` toward the real
//! one.

use vstd::prelude::*;

verus! {

use crate::errors::FacemeltError;
use crate::fixed_point::lemma_u64_mul_fits_u128;
use crate::pool::Pool;
use crate::pool::FUNDING_PRECISION;
use crate::pool::SCALE_FACTOR;

impl Pool {
    /// The whole funding step as a function of the prior state and the
    /// clock: either the successor state or the exact error. A step that
    /// fails leaves the pool untouched.
    pub open spec fn advance_funding_spec(p: Pool, now: i64) -> Result<Pool, FacemeltError> {
        let dt = now as int - p.last_update_timestamp as int;
        if dt > i64::MAX as int || dt < i64::MIN as int {
            Err(FacemeltError::MathOverflow)
        } else if dt <= 0 {
            Ok(p)
        } else {
            let total = p.total_delta_k_longs as int + p.total_delta_k_shorts as int;
            if total > u128::MAX as int {
                Err(FacemeltError::MathOverflow)
            } else if total == 0 {
                Ok(Pool { last_update_timestamp: now, ..p })
            } else {
                let x = p.effective_sol_reserve as int;
                let y = p.effective_token_reserve as int;
                let k = x * y;
                if k == 0 {
                    Err(FacemeltError::InsufficientLiquidity)
                } else {
                    let sdk = total / SCALE_FACTOR as int;
                    let sk = k / SCALE_FACTOR as int;
                    if sk == 0 {
                        Err(FacemeltError::InsufficientLiquidity)
                    } else if sdk * FUNDING_PRECISION as int > u128::MAX as int {
                        Err(FacemeltError::MathOverflow)
                    } else {
                        let ratio = sdk * FUNDING_PRECISION as int / sk;
                        if ratio * ratio > u128::MAX as int {
                            Err(FacemeltError::MathOverflow)
                        } else {
                            let ratio_sq = ratio * ratio / FUNDING_PRECISION as int;
                            if p.funding_constant_c as int * ratio_sq > u128::MAX as int {
                                Err(FacemeltError::MathOverflow)
                            } else {
                                let rate = p.funding_constant_c as int * ratio_sq
                                    / FUNDING_PRECISION as int;
                                Self::advance_funding_fees_spec(p, now, dt, x, y, rate)
                            }
                        }
                    }
                }
            }
        }
    }

    /// Second half of the funding step: accumulator growth, per-side
    /// fees, distribution into the effective reserves, amortization.
    pub open spec fn advance_funding_fees_spec(
        p: Pool,
        now: i64,
        dt: int,
        x: int,
        y: int,
        rate: int,
    ) -> Result<Pool, FacemeltError> {
        if rate * dt > u128::MAX as int {
            Err(FacemeltError::MathOverflow)
        } else if p.cumulative_funding_accumulator as int + rate * dt > u128::MAX as int {
            Err(FacemeltError::MathOverflow)
        } else {
            let acc2 = p.cumulative_funding_accumulator as int + rate * dt;
            let sdl = p.total_delta_k_longs as int / SCALE_FACTOR as int;
            let sds = p.total_delta_k_shorts as int / SCALE_FACTOR as int;
            if rate * sdl > u128::MAX as int || rate * sdl * dt > u128::MAX as int {
                Err(FacemeltError::MathOverflow)
            } else if rate * sds > u128::MAX as int || rate * sds * dt > u128::MAX as int {
                Err(FacemeltError::MathOverflow)
            } else {
                let ftl = rate * sdl * dt / FUNDING_PRECISION as int;
                let fts = rate * sds * dt / FUNDING_PRECISION as int;
                if ftl * SCALE_FACTOR as int > u128::MAX as int {
                    Err(FacemeltError::MathOverflow)
                } else if fts * SCALE_FACTOR as int > u128::MAX as int {
                    Err(FacemeltError::MathOverflow)
                } else {
                    let fl = ftl * SCALE_FACTOR as int;
                    let fs = fts * SCALE_FACTOR as int;
                    let tfi = if fl > 0 {
                        fl / x
                    } else {
                        0
                    };
                    if y + tfi > u64::MAX as int {
                        Err(FacemeltError::MathOverflow)
                    } else {
                        let y2 = y + tfi;
                        let sfi = if fs > 0 {
                            fs / y2
                        } else {
                            0
                        };
                        if x + sfi > u64::MAX as int {
                            Err(FacemeltError::MathOverflow)
                        } else {
                            let x2 = x + sfi;
                            if fl > p.total_delta_k_longs as int {
                                Err(FacemeltError::MathUnderflow)
                            } else if fs > p.total_delta_k_shorts as int {
                                Err(FacemeltError::MathUnderflow)
                            } else {
                                Ok(Pool {
                                    effective_sol_reserve: x2 as u64,
                                    effective_token_reserve: y2 as u64,
                                    total_delta_k_longs: (p.total_delta_k_longs as int - fl) as u128,
                                    total_delta_k_shorts: (p.total_delta_k_shorts as int
                                        - fs) as u128,
                                    cumulative_funding_accumulator: acc2 as u128,
                                    last_update_timestamp: now,
                                    ..p
                                })
                            }
                        }
                    }
                }
            }
        }
    }

    /// Advance the funding accumulator to `current_timestamp` and
    /// amortize the outstanding debt. Nothing but the effective
    /// reserves, the two debt totals, the accumulator and the timestamp
    /// move; the accumulator never decreases, the debt totals never
    /// grow, the effective reserves never shrink. A failed step leaves
    /// the pool untouched.
    pub fn update_funding_accumulators(&mut self, current_timestamp: i64) -> (r: Result<
        (),
        FacemeltError,
    >)
        ensures
            r is Ok ==> Self::advance_funding_spec(*old(self), current_timestamp)
                == Ok::<Pool, FacemeltError>(*final(self)),
            r is Err ==> Self::advance_funding_spec(*old(self), current_timestamp)
                == Err::<Pool, FacemeltError>(r->Err_0) && *final(self) == *old(self),
            r is Ok ==> final(self).cumulative_funding_accumulator
                >= old(self).cumulative_funding_accumulator,
            r is Ok ==> final(self).total_delta_k_longs <= old(self).total_delta_k_longs
                && final(self).total_delta_k_shorts <= old(self).total_delta_k_shorts,
            r is Ok ==> final(self).effective_sol_reserve >= old(self).effective_sol_reserve
                && final(self).effective_token_reserve >= old(self).effective_token_reserve,
            r is Ok ==> final(self).sol_reserve == old(self).sol_reserve
                && final(self).token_reserve == old(self).token_reserve
                && final(self).ema_price == old(self).ema_price
                && final(self).ema_initialized == old(self).ema_initialized
                && final(self).funding_constant_c == old(self).funding_constant_c
                && final(self).liquidation_divergence_threshold
                    == old(self).liquidation_divergence_threshold
                && final(self).phase == old(self).phase,
            old(self).wf() && r is Ok ==> final(self).wf(),
    {
        let delta_t: i64 = match current_timestamp.checked_sub(self.last_update_timestamp) {
            None => {
                return Err(FacemeltError::MathOverflow);
            },
            Some(d) => d,
        };
        if delta_t <= 0 {
            return Ok(());
        }
        let total: u128 = match self.total_delta_k_longs.checked_add(self.total_delta_k_shorts) {
            None => {
                return Err(FacemeltError::MathOverflow);
            },
            Some(t) => t,
        };
        if total == 0 {
            self.last_update_timestamp = current_timestamp;
            return Ok(());
        }
        let x: u128 = self.effective_sol_reserve as u128;
        let y: u128 = self.effective_token_reserve as u128;
        proof {
            lemma_u64_mul_fits_u128(x as int, y as int);
        }
        let effective_k: u128 = x * y;
        if effective_k == 0 {
            return Err(FacemeltError::InsufficientLiquidity);
        }
        proof {
            if x == 0 || y == 0 {
                assert(x as int * y as int == 0) by (nonlinear_arith)
                    requires
                        x == 0 || y == 0,
                ;
            }
        }
        let scaled_delta_k: u128 = total / SCALE_FACTOR;
        let scaled_effective_k: u128 = effective_k / SCALE_FACTOR;
        if scaled_effective_k == 0 {
            return Err(FacemeltError::InsufficientLiquidity);
        }
        let ratio: u128 = match scaled_delta_k.checked_mul(FUNDING_PRECISION) {
            None => {
                return Err(FacemeltError::MathOverflow);
            },
            Some(v) => v / scaled_effective_k,
        };
        let ratio_sq: u128 = match ratio.checked_mul(ratio) {
            None => {
                return Err(FacemeltError::MathOverflow);
            },
            Some(v) => v / FUNDING_PRECISION,
        };
        let rate: u128 = match self.funding_constant_c.checked_mul(ratio_sq) {
            None => {
                return Err(FacemeltError::MathOverflow);
            },
            Some(v) => v / FUNDING_PRECISION,
        };
        let dt_u: u128 = delta_t as u128;
        let delta_funding_index: u128 = match rate.checked_mul(dt_u) {
            None => {
                return Err(FacemeltError::MathOverflow);
            },
            Some(v) => v,
        };
        let acc2: u128 = match self.cumulative_funding_accumulator.checked_add(
            delta_funding_index,
        ) {
            None => {
                return Err(FacemeltError::MathOverflow);
            },
            Some(v) => v,
        };
        let scaled_delta_k_longs: u128 = self.total_delta_k_longs / SCALE_FACTOR;
        let scaled_delta_k_shorts: u128 = self.total_delta_k_shorts / SCALE_FACTOR;
        let fees_temp_longs: u128 = match rate.checked_mul(scaled_delta_k_longs) {
            None => {
                return Err(FacemeltError::MathOverflow);
            },
            Some(v) => match v.checked_mul(dt_u) {
                None => {
                    return Err(FacemeltError::MathOverflow);
                },
                Some(w) => w / FUNDING_PRECISION,
            },
        };
        let fees_temp_shorts: u128 = match rate.checked_mul(scaled_delta_k_shorts) {
            None => {
                return Err(FacemeltError::MathOverflow);
            },
            Some(v) => match v.checked_mul(dt_u) {
                None => {
                    return Err(FacemeltError::MathOverflow);
                },
                Some(w) => w / FUNDING_PRECISION,
            },
        };
        let fees_paid_by_longs: u128 = match fees_temp_longs.checked_mul(SCALE_FACTOR) {
            None => {
                return Err(FacemeltError::MathOverflow);
            },
            Some(v) => v,
        };
        let fees_paid_by_shorts: u128 = match fees_temp_shorts.checked_mul(SCALE_FACTOR) {
            None => {
                return Err(FacemeltError::MathOverflow);
            },
            Some(v) => v,
        };
        // Longs pay in token units: the token fee raises the effective
        // token reserve. Shorts pay in SOL units against the already
        // raised token reserve.
        let mut y2: u128 = y;
        if fees_paid_by_longs > 0 {
            let token_fee_increase: u128 = fees_paid_by_longs / x;
            if y + token_fee_increase > u64::MAX as u128 {
                return Err(FacemeltError::MathOverflow);
            }
            y2 = y + token_fee_increase;
        }
        let mut x2: u128 = x;
        if fees_paid_by_shorts > 0 {
            let sol_fee_increase: u128 = fees_paid_by_shorts / y2;
            if x + sol_fee_increase > u64::MAX as u128 {
                return Err(FacemeltError::MathOverflow);
            }
            x2 = x + sol_fee_increase;
        }
        let longs2: u128 = match self.total_delta_k_longs.checked_sub(fees_paid_by_longs) {
            None => {
                return Err(FacemeltError::MathUnderflow);
            },
            Some(v) => v,
        };
        let shorts2: u128 = match self.total_delta_k_shorts.checked_sub(fees_paid_by_shorts) {
            None => {
                return Err(FacemeltError::MathUnderflow);
            },
            Some(v) => v,
        };
        self.effective_sol_reserve = x2 as u64;
        self.effective_token_reserve = y2 as u64;
        self.total_delta_k_longs = longs2;
        self.total_delta_k_shorts = shorts2;
        self.cumulative_funding_accumulator = acc2;
        self.last_update_timestamp = current_timestamp;
        Ok(())
    }

    /// The remaining factor of a position: `FUNDING_PRECISION` minus the
    /// accumulator growth since the position opened, clamped at zero.
    pub open spec fn remaining_factor_spec(p: Pool, entry: u128) -> Result<u128, FacemeltError> {
        if p.cumulative_funding_accumulator < entry {
            Err(FacemeltError::MathUnderflow)
        } else {
            let diff = p.cumulative_funding_accumulator as int - entry as int;
            if diff >= FUNDING_PRECISION as int {
                Ok(0)
            } else {
                Ok((FUNDING_PRECISION as int - diff) as u128)
            }
        }
    }

    /// `f(t) = 1 - (I(t) - I(t_open))` in fixed point, clamped to `[0, 1]`.
    pub fn calculate_position_remaining_factor(&self, entry_funding_accumulator: u128) -> (r:
        Result<u128, FacemeltError>)
        ensures
            r == Self::remaining_factor_spec(*self, entry_funding_accumulator),
            r is Ok ==> r->Ok_0 <= FUNDING_PRECISION,
    {
        if self.cumulative_funding_accumulator < entry_funding_accumulator {
            return Err(FacemeltError::MathUnderflow);
        }
        let index_diff: u128 = self.cumulative_funding_accumulator - entry_funding_accumulator;
        if index_diff >= FUNDING_PRECISION {
            return Ok(0);
        }
        Ok(FUNDING_PRECISION - index_diff)
    }
}

} // verus!
