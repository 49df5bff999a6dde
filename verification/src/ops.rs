//! The operations of the market: phase transitions and the dispatch of
//! every external entry point over the pool, the bonding curve and the
//! positions.
//!
//! Each operation is a single transaction: it advances funding first,
//! computes its effects, and commits them only on success. A failed
//! operation returns its error and leaves every record exactly as it
//! was. Each operation's whole behaviour is pinned by a transition
//! function in spec mode; the executable code is proved to return
//! exactly what the transition says.

use vstd::prelude::*;
use vstd::arithmetic::div_mod::*;
use vstd::arithmetic::mul::*;

verus! {

use crate::errors::FacemeltError;
use crate::curve::BondingCurve;
use crate::curve::BondingCurveStatus;
use crate::curve::BuyQuote;
use crate::curve::DEFAULT_TOTAL_SUPPLY;
use crate::curve::DEFAULT_TARGET_SOL;
use crate::curve::DEFAULT_TARGET_TOKENS_SOLD;
use crate::curve::slope_spec;
use crate::events::BondingCurveGraduated;
use crate::events::BondingCurveLaunched;
use crate::events::BondingCurveSwapped;
use crate::events::PoolLaunched;
use crate::events::Swapped;
use crate::pool::Pool;
use crate::pool::PoolPhase;
use crate::pool::PRICE_PRECISION;
use crate::pool::DEFAULT_FUNDING_CONSTANT_C;
use crate::pool::DEFAULT_LIQUIDATION_DIVERGENCE_THRESHOLD;
use crate::pool::lemma_swap_output_bounds;
use crate::position::Position;
use crate::events::PositionOpened;
use crate::events::PositionClosed;
use crate::events::PositionLiquidated;
use crate::pool::FUNDING_PRECISION;

/// Two pairs of non-negative reserves ordered pointwise have ordered
/// products: the constant product can only grow when both sides grow.
pub proof fn lemma_k_mono(x1: int, y1: int, x2: int, y2: int)
    requires
        0 <= x1 <= x2,
        0 <= y1 <= y2,
    ensures
        x1 * y1 <= x2 * y2,
{
    assert(x1 * y1 <= x2 * y2) by (nonlinear_arith)
        requires
            0 <= x1 <= x2,
            0 <= y1 <= y2,
    ;
}

/// What `launch_on_curve` creates for every input: the curve, the
/// dormant pool, or the exact validation error.
pub open spec fn launch_on_curve_transition(
    total_supply: Option<u64>,
    target_sol: Option<u64>,
    target_tokens_sold: Option<u64>,
    now: i64,
) -> Result<(BondingCurve, Pool), FacemeltError> {
    let supply = match total_supply {
        Some(v) => v,
        None => DEFAULT_TOTAL_SUPPLY,
    };
    let ts = match target_sol {
        Some(v) => v,
        None => DEFAULT_TARGET_SOL,
    };
    let tts = match target_tokens_sold {
        Some(v) => v,
        None => DEFAULT_TARGET_TOKENS_SOLD,
    };
    if supply == 0 || ts == 0 || tts == 0 || tts > supply {
        Err(FacemeltError::InvalidBondingCurveParams)
    } else {
        Ok(
            (
                BondingCurve {
                    bonding_curve_slope_m: slope_spec(ts as int, tts as int) as u128,
                    tokens_sold_on_curve: 0,
                    sol_raised_on_curve: 0,
                    bonding_target_sol: ts,
                    bonding_target_tokens_sold: tts,
                    status: BondingCurveStatus::Active,
                },
                Pool {
                    sol_reserve: 0,
                    token_reserve: 0,
                    effective_sol_reserve: 0,
                    effective_token_reserve: 0,
                    total_delta_k_longs: 0,
                    total_delta_k_shorts: 0,
                    cumulative_funding_accumulator: 0,
                    last_update_timestamp: now,
                    ema_price: 0,
                    ema_initialized: false,
                    funding_constant_c: DEFAULT_FUNDING_CONSTANT_C,
                    liquidation_divergence_threshold: DEFAULT_LIQUIDATION_DIVERGENCE_THRESHOLD,
                    phase: PoolPhase::Curve,
                },
            ),
        )
    }
}

/// Create a market in the bonding-curve phase: derive the slope from
/// the targets and set up a dormant pool with default funding and
/// liquidation parameters. Token minting and metadata are the host's
/// collaborators and out of scope here.
pub fn launch_on_curve(
    authority: u64,
    pool_id: u64,
    total_supply: Option<u64>,
    target_sol: Option<u64>,
    target_tokens_sold: Option<u64>,
    now: i64,
) -> (r: Result<(BondingCurve, Pool, BondingCurveLaunched), FacemeltError>)
    ensures
        r is Err ==> launch_on_curve_transition(total_supply, target_sol, target_tokens_sold, now)
            == Err::<(BondingCurve, Pool), FacemeltError>(r->Err_0),
        r is Ok ==> launch_on_curve_transition(total_supply, target_sol, target_tokens_sold, now)
            == Ok::<(BondingCurve, Pool), FacemeltError>((r->Ok_0.0, r->Ok_0.1)),
        r is Ok ==> r->Ok_0.0.wf() && r->Ok_0.1.wf(),
        r is Ok ==> r->Ok_0.1.phase is Curve && r->Ok_0.0.status is Active,
        r is Ok ==> r->Ok_0.2 == (BondingCurveLaunched {
            pool: pool_id,
            authority,
            total_supply: r->Ok_0.2.total_supply,
            target_sol: r->Ok_0.0.bonding_target_sol,
            target_tokens_sold: r->Ok_0.0.bonding_target_tokens_sold,
            timestamp: now,
        }),
{
    let supply: u64 = match total_supply {
        Some(v) => v,
        None => DEFAULT_TOTAL_SUPPLY,
    };
    let ts: u64 = match target_sol {
        Some(v) => v,
        None => DEFAULT_TARGET_SOL,
    };
    let tts: u64 = match target_tokens_sold {
        Some(v) => v,
        None => DEFAULT_TARGET_TOKENS_SOLD,
    };
    if supply == 0 || ts == 0 || tts == 0 || tts > supply {
        return Err(FacemeltError::InvalidBondingCurveParams);
    }
    let slope: u128 = match BondingCurve::calculate_slope(ts, tts) {
        Err(e) => {
            return Err(e);
        },
        Ok(v) => v,
    };
    proof {
        // The derived slope is non-negative and fits: the numerator is
        // far below 128 bits and division only shrinks it.
        let num = 2 * ts as int * crate::curve::SLOPE_PRECISION as int;
        let den = tts as int * tts as int;
        lemma_mul_strictly_positive(tts as int, tts as int);
        lemma_mul_nonnegative(2 * ts as int, crate::curve::SLOPE_PRECISION as int);
        lemma_div_pos_is_pos(num, den);
        lemma_div_is_ordered_by_denominator(num, 1, den);
        assert(num / 1 == num);
        assert(num <= 2 * (u64::MAX as int) * crate::curve::SLOPE_PRECISION as int)
            by (nonlinear_arith)
            requires
                num == 2 * ts as int * crate::curve::SLOPE_PRECISION as int,
                ts <= u64::MAX,
        ;
    }
    let curve = BondingCurve {
        bonding_curve_slope_m: slope,
        tokens_sold_on_curve: 0,
        sol_raised_on_curve: 0,
        bonding_target_sol: ts,
        bonding_target_tokens_sold: tts,
        status: BondingCurveStatus::Active,
    };
    let pool = Pool {
        sol_reserve: 0,
        token_reserve: 0,
        effective_sol_reserve: 0,
        effective_token_reserve: 0,
        total_delta_k_longs: 0,
        total_delta_k_shorts: 0,
        cumulative_funding_accumulator: 0,
        last_update_timestamp: now,
        ema_price: 0,
        ema_initialized: false,
        funding_constant_c: DEFAULT_FUNDING_CONSTANT_C,
        liquidation_divergence_threshold: DEFAULT_LIQUIDATION_DIVERGENCE_THRESHOLD,
        phase: PoolPhase::Curve,
    };
    let event = BondingCurveLaunched {
        pool: pool_id,
        authority,
        total_supply: supply,
        target_sol: ts,
        target_tokens_sold: tts,
        timestamp: now,
    };
    Ok((curve, pool, event))
}

/// What the direct AMM launch creates for every input.
pub open spec fn launch_transition(
    sol_amount: u64,
    token_supply: u64,
    funding_constant_c: Option<u128>,
    liquidation_divergence_threshold: Option<u128>,
    now: i64,
) -> Result<Pool, FacemeltError> {
    let c = match funding_constant_c {
        Some(v) => v,
        None => DEFAULT_FUNDING_CONSTANT_C,
    };
    let thr = match liquidation_divergence_threshold {
        Some(v) => v,
        None => DEFAULT_LIQUIDATION_DIVERGENCE_THRESHOLD,
    };
    if sol_amount == 0 || token_supply == 0 {
        Err(FacemeltError::InsufficientLiquidity)
    } else if thr > 100 {
        Err(FacemeltError::InvalidPoolState)
    } else {
        Ok(
            Pool {
                sol_reserve: sol_amount,
                token_reserve: token_supply,
                effective_sol_reserve: sol_amount,
                effective_token_reserve: token_supply,
                total_delta_k_longs: 0,
                total_delta_k_shorts: 0,
                cumulative_funding_accumulator: 0,
                last_update_timestamp: now,
                ema_price: (sol_amount as int * PRICE_PRECISION as int / token_supply as int) as u128,
                ema_initialized: true,
                funding_constant_c: c,
                liquidation_divergence_threshold: thr,
                phase: PoolPhase::Amm,
            },
        )
    }
}

/// Create a market directly in the AMM phase, seeded with the
/// authority's SOL and the minted token supply. The EMA starts at the
/// seeded price.
pub fn launch(
    authority: u64,
    pool_id: u64,
    sol_amount: u64,
    token_supply: u64,
    funding_constant_c: Option<u128>,
    liquidation_divergence_threshold: Option<u128>,
    now: i64,
) -> (r: Result<(Pool, PoolLaunched), FacemeltError>)
    ensures
        r is Err ==> launch_transition(
            sol_amount,
            token_supply,
            funding_constant_c,
            liquidation_divergence_threshold,
            now,
        ) == Err::<Pool, FacemeltError>(r->Err_0),
        r is Ok ==> launch_transition(
            sol_amount,
            token_supply,
            funding_constant_c,
            liquidation_divergence_threshold,
            now,
        ) == Ok::<Pool, FacemeltError>(r->Ok_0.0),
        r is Ok ==> r->Ok_0.0.wf() && r->Ok_0.0.phase is Amm,
        r is Ok ==> r->Ok_0.1 == (PoolLaunched {
            pool: pool_id,
            authority,
            sol_reserve: sol_amount,
            token_reserve: token_supply,
            timestamp: now,
        }),
{
    let c: u128 = match funding_constant_c {
        Some(v) => v,
        None => DEFAULT_FUNDING_CONSTANT_C,
    };
    let thr: u128 = match liquidation_divergence_threshold {
        Some(v) => v,
        None => DEFAULT_LIQUIDATION_DIVERGENCE_THRESHOLD,
    };
    if sol_amount == 0 || token_supply == 0 {
        return Err(FacemeltError::InsufficientLiquidity);
    }
    if thr > 100 {
        return Err(FacemeltError::InvalidPoolState);
    }
    proof {
        lemma_mul_upper_bound(
            sol_amount as int,
            u64::MAX as int,
            PRICE_PRECISION as int,
            PRICE_PRECISION as int,
        );
        lemma_mul_nonnegative(sol_amount as int, PRICE_PRECISION as int);
        lemma_div_pos_is_pos(sol_amount as int * PRICE_PRECISION as int, token_supply as int);
        lemma_div_is_ordered(
            sol_amount as int * PRICE_PRECISION as int,
            u64::MAX as int * PRICE_PRECISION as int,
            token_supply as int,
        );
        lemma_div_is_ordered_by_denominator(
            u64::MAX as int * PRICE_PRECISION as int,
            1,
            token_supply as int,
        );
        assert(u64::MAX as int * PRICE_PRECISION as int / 1 == u64::MAX as int
            * PRICE_PRECISION as int);
    }
    let ema: u128 = (sol_amount as u128) * PRICE_PRECISION / (token_supply as u128);
    let pool = Pool {
        sol_reserve: sol_amount,
        token_reserve: token_supply,
        effective_sol_reserve: sol_amount,
        effective_token_reserve: token_supply,
        total_delta_k_longs: 0,
        total_delta_k_shorts: 0,
        cumulative_funding_accumulator: 0,
        last_update_timestamp: now,
        ema_price: ema,
        ema_initialized: true,
        funding_constant_c: c,
        liquidation_divergence_threshold: thr,
        phase: PoolPhase::Amm,
    };
    let event = PoolLaunched {
        pool: pool_id,
        authority,
        sol_reserve: sol_amount,
        token_reserve: token_supply,
        timestamp: now,
    };
    Ok((pool, event))
}

/// What graduation does: mark the curve graduated and seed the AMM with
/// the raised SOL against half the token target, with the EMA set to
/// the seeded price.
pub open spec fn graduate_transition(c: BondingCurve, p: Pool, now: i64) -> Result<
    (BondingCurve, Pool),
    FacemeltError,
> {
    let lp = c.bonding_target_tokens_sold as int / 2;
    let seed = c.sol_raised_on_curve as int;
    if lp == 0 {
        Err(FacemeltError::MathOverflow)
    } else if seed == 0 {
        Err(FacemeltError::InsufficientLiquidity)
    } else {
        Ok(
            (
                BondingCurve { status: BondingCurveStatus::Graduated, ..c },
                Pool {
                    sol_reserve: seed as u64,
                    token_reserve: lp as u64,
                    effective_sol_reserve: seed as u64,
                    effective_token_reserve: lp as u64,
                    last_update_timestamp: now,
                    ema_price: (seed * PRICE_PRECISION as int / lp) as u128,
                    ema_initialized: true,
                    phase: PoolPhase::Amm,
                    ..p
                },
            ),
        )
    }
}

/// One-way hand-off from the curve to the AMM: `lp = target_tokens / 2`
/// tokens against the SOL raised, EMA initialized at the seeded price.
fn graduate_to_amm(curve: &mut BondingCurve, pool: &mut Pool, pool_id: u64, now: i64) -> (r:
    Result<BondingCurveGraduated, FacemeltError>)
    requires
        old(pool).wf(),
    ensures
        r is Err ==> *final(curve) == *old(curve) && *final(pool) == *old(pool)
            && graduate_transition(*old(curve), *old(pool), now) == Err::<
            (BondingCurve, Pool),
            FacemeltError,
        >(r->Err_0),
        r is Ok ==> graduate_transition(*old(curve), *old(pool), now) == Ok::<
            (BondingCurve, Pool),
            FacemeltError,
        >((*final(curve), *final(pool))),
        r is Ok ==> final(pool).wf() && final(pool).phase is Amm && final(curve).status
            is Graduated,
        r is Ok ==> r->Ok_0 == (BondingCurveGraduated {
            pool: pool_id,
            sol_raised: old(curve).sol_raised_on_curve,
            tokens_for_lp: (old(curve).bonding_target_tokens_sold / 2) as u64,
            timestamp: now,
        }),
{
    let lp_tokens: u64 = curve.bonding_target_tokens_sold / 2;
    if lp_tokens == 0 {
        return Err(FacemeltError::MathOverflow);
    }
    let sol_raised: u64 = curve.sol_raised_on_curve;
    if sol_raised == 0 {
        return Err(FacemeltError::InsufficientLiquidity);
    }
    proof {
        lemma_mul_upper_bound(
            sol_raised as int,
            u64::MAX as int,
            PRICE_PRECISION as int,
            PRICE_PRECISION as int,
        );
        lemma_mul_nonnegative(sol_raised as int, PRICE_PRECISION as int);
        lemma_div_pos_is_pos(sol_raised as int * PRICE_PRECISION as int, lp_tokens as int);
        lemma_div_is_ordered(
            sol_raised as int * PRICE_PRECISION as int,
            u64::MAX as int * PRICE_PRECISION as int,
            lp_tokens as int,
        );
        lemma_div_is_ordered_by_denominator(
            u64::MAX as int * PRICE_PRECISION as int,
            1,
            lp_tokens as int,
        );
        assert(u64::MAX as int * PRICE_PRECISION as int / 1 == u64::MAX as int
            * PRICE_PRECISION as int);
    }
    let current_price: u128 = (sol_raised as u128) * PRICE_PRECISION / (lp_tokens as u128);
    curve.status = BondingCurveStatus::Graduated;
    pool.sol_reserve = sol_raised;
    pool.effective_sol_reserve = sol_raised;
    pool.token_reserve = lp_tokens;
    pool.effective_token_reserve = lp_tokens;
    pool.last_update_timestamp = now;
    pool.ema_price = current_price;
    pool.ema_initialized = true;
    pool.phase = PoolPhase::Amm;
    Ok(
        BondingCurveGraduated {
            pool: pool_id,
            sol_raised,
            tokens_for_lp: lp_tokens,
            timestamp: now,
        },
    )
}

/// Everything a curve trade reports back: the output, how the payment
/// split into kept and refunded SOL (zero for sells), whether the buy
/// graduated the market, and the events to emit.
#[derive(Clone, Copy, Debug, PartialEq, Eq)]
pub struct CurveSwapOutcome {
    /// Tokens out of a buy, or lamports out of a sell.
    pub amount_out: u64,
    /// SOL the curve kept; equals the payment unless the buy was capped.
    pub sol_spent: u64,
    /// SOL to hand back to the buyer.
    pub sol_refund: u64,
    /// Whether this trade met a graduation target.
    pub graduated: bool,
    /// The trade event.
    pub swapped: BondingCurveSwapped,
    /// The graduation event, exactly when `graduated`.
    pub graduation: Option<BondingCurveGraduated>,
}

/// What a curve trade does to the curve and the pool for every input:
/// the exact successor states and amounts, or the exact error.
pub open spec fn swap_on_curve_transition(
    c: BondingCurve,
    p: Pool,
    amount_in: u64,
    min_amount_out: u64,
    input_is_sol: bool,
    now: i64,
) -> Result<(BondingCurve, Pool, u64, u64, u64, bool), FacemeltError> {
    if amount_in == 0 {
        Err(FacemeltError::ZeroSwapAmount)
    } else if !(c.status is Active) {
        Err(FacemeltError::BondingCurveNotActive)
    } else if input_is_sol {
        match c.buy_quote_spec(amount_in) {
            Err(e) => Err(e),
            Ok(q) => if q.tokens_out < min_amount_out {
                Err(FacemeltError::SlippageToleranceExceeded)
            } else if c.sol_raised_on_curve as int + q.sol_spent as int > u64::MAX as int {
                Err(FacemeltError::MathOverflow)
            } else {
                let c1 = BondingCurve {
                    tokens_sold_on_curve: (c.tokens_sold_on_curve + q.tokens_out) as u64,
                    sol_raised_on_curve: (c.sol_raised_on_curve + q.sol_spent) as u64,
                    ..c
                };
                let grad = c1.sol_raised_on_curve >= c.bonding_target_sol
                    || c1.tokens_sold_on_curve >= c.bonding_target_tokens_sold;
                if grad {
                    match graduate_transition(c1, p, now) {
                        Err(e) => Err(e),
                        Ok(cp) => Ok(
                            (cp.0, cp.1, q.tokens_out, q.sol_spent, q.sol_refund, true),
                        ),
                    }
                } else {
                    Ok((c1, p, q.tokens_out, q.sol_spent, q.sol_refund, false))
                }
            },
        }
    } else {
        let q1 = c.tokens_sold_on_curve as int;
        if amount_in > c.tokens_sold_on_curve {
            Err(FacemeltError::InsufficientTokensSold)
        } else {
            let sol = crate::curve::curve_cost_spec(
                c.bonding_curve_slope_m as int,
                q1 - amount_in,
                q1,
            );
            if sol > c.sol_raised_on_curve as int {
                Err(FacemeltError::InsufficientCurveSol)
            } else if sol < min_amount_out as int {
                Err(FacemeltError::SlippageToleranceExceeded)
            } else {
                Ok(
                    (
                        BondingCurve {
                            tokens_sold_on_curve: (q1 - amount_in) as u64,
                            sol_raised_on_curve: (c.sol_raised_on_curve as int - sol) as u64,
                            ..c
                        },
                        p,
                        sol as u64,
                        0,
                        0,
                        false,
                    ),
                )
            }
        }
    }
}

/// Trade on the bonding curve while it is active. A buy caps at the
/// token target and refunds the difference; a buy that meets either
/// target graduates the market into the AMM. Sells never graduate.
pub fn swap_on_curve(
    curve: &mut BondingCurve,
    pool: &mut Pool,
    user: u64,
    pool_id: u64,
    amount_in: u64,
    min_amount_out: u64,
    input_is_sol: bool,
    now: i64,
) -> (r: Result<CurveSwapOutcome, FacemeltError>)
    requires
        old(curve).wf(),
        old(pool).wf(),
    ensures
        r is Err ==> *final(curve) == *old(curve) && *final(pool) == *old(pool)
            && swap_on_curve_transition(
            *old(curve),
            *old(pool),
            amount_in,
            min_amount_out,
            input_is_sol,
            now,
        ) == Err::<(BondingCurve, Pool, u64, u64, u64, bool), FacemeltError>(r->Err_0),
        r is Ok ==> swap_on_curve_transition(
            *old(curve),
            *old(pool),
            amount_in,
            min_amount_out,
            input_is_sol,
            now,
        ) == Ok::<(BondingCurve, Pool, u64, u64, u64, bool), FacemeltError>(
            (
                *final(curve),
                *final(pool),
                r->Ok_0.amount_out,
                r->Ok_0.sol_spent,
                r->Ok_0.sol_refund,
                r->Ok_0.graduated,
            ),
        ),
        r is Ok ==> final(curve).wf() && final(pool).wf(),
        r is Ok && input_is_sol ==> final(curve).tokens_sold_on_curve
            == old(curve).tokens_sold_on_curve + r->Ok_0.amount_out
            && final(curve).tokens_sold_on_curve <= old(curve).bonding_target_tokens_sold
            && final(curve).sol_raised_on_curve == old(curve).sol_raised_on_curve
                + r->Ok_0.sol_spent
            && r->Ok_0.sol_spent + r->Ok_0.sol_refund == amount_in,
        r is Ok && !input_is_sol ==> old(curve).tokens_sold_on_curve
            == final(curve).tokens_sold_on_curve + amount_in
            && old(curve).sol_raised_on_curve == final(curve).sol_raised_on_curve
                + r->Ok_0.amount_out,
        r is Ok ==> r->Ok_0.graduated == (final(curve).status is Graduated)
            && r->Ok_0.graduated == (r->Ok_0.graduation is Some),
        r is Ok && !r->Ok_0.graduated ==> *final(pool) == *old(pool),
        r is Ok ==> r->Ok_0.swapped == (BondingCurveSwapped {
            user,
            pool: pool_id,
            input_is_sol,
            amount_in,
            amount_out: r->Ok_0.amount_out,
            tokens_sold_on_curve: final(curve).tokens_sold_on_curve,
            sol_raised_on_curve: final(curve).sol_raised_on_curve,
            timestamp: now,
        }),
{
    if amount_in == 0 {
        return Err(FacemeltError::ZeroSwapAmount);
    }
    if !curve.is_active() {
        return Err(FacemeltError::BondingCurveNotActive);
    }
    let mut c: BondingCurve = *curve;
    let mut p: Pool = *pool;
    if input_is_sol {
        let q: BuyQuote = match c.quote_buy(amount_in) {
            Err(e) => {
                return Err(e);
            },
            Ok(v) => v,
        };
        if q.tokens_out < min_amount_out {
            return Err(FacemeltError::SlippageToleranceExceeded);
        }
        let new_sol_raised: u64 = match c.sol_raised_on_curve.checked_add(q.sol_spent) {
            None => {
                return Err(FacemeltError::MathOverflow);
            },
            Some(v) => v,
        };
        c.tokens_sold_on_curve = c.tokens_sold_on_curve + q.tokens_out;
        c.sol_raised_on_curve = new_sol_raised;
        let should_graduate: bool = c.sol_raised_on_curve >= c.bonding_target_sol
            || c.tokens_sold_on_curve >= c.bonding_target_tokens_sold;
        let mut graduation: Option<BondingCurveGraduated> = None;
        if should_graduate {
            let ev: BondingCurveGraduated = match graduate_to_amm(&mut c, &mut p, pool_id, now) {
                Err(e) => {
                    return Err(e);
                },
                Ok(v) => v,
            };
            graduation = Some(ev);
        }
        *curve = c;
        *pool = p;
        let swapped = BondingCurveSwapped {
            user,
            pool: pool_id,
            input_is_sol,
            amount_in,
            amount_out: q.tokens_out,
            tokens_sold_on_curve: c.tokens_sold_on_curve,
            sol_raised_on_curve: c.sol_raised_on_curve,
            timestamp: now,
        };
        Ok(
            CurveSwapOutcome {
                amount_out: q.tokens_out,
                sol_spent: q.sol_spent,
                sol_refund: q.sol_refund,
                graduated: should_graduate,
                swapped,
                graduation,
            },
        )
    } else {
        let sol_out: u64 = match c.calculate_sol_out_for_tokens(amount_in) {
            Err(e) => {
                return Err(e);
            },
            Ok(v) => v,
        };
        if sol_out < min_amount_out {
            return Err(FacemeltError::SlippageToleranceExceeded);
        }
        c.tokens_sold_on_curve = c.tokens_sold_on_curve - amount_in;
        c.sol_raised_on_curve = c.sol_raised_on_curve - sol_out;
        *curve = c;
        let swapped = BondingCurveSwapped {
            user,
            pool: pool_id,
            input_is_sol,
            amount_in,
            amount_out: sol_out,
            tokens_sold_on_curve: c.tokens_sold_on_curve,
            sol_raised_on_curve: c.sol_raised_on_curve,
            timestamp: now,
        };
        Ok(
            CurveSwapOutcome {
                amount_out: sol_out,
                sol_spent: 0,
                sol_refund: 0,
                graduated: false,
                swapped,
                graduation: None,
            },
        )
    }
}

/// What a spot swap does to the pool for every input: the exact
/// successor state or the exact error.
pub open spec fn swap_transition(
    p: Pool,
    amount_in: u64,
    min_amount_out: u64,
    input_is_sol: bool,
    now: i64,
) -> Result<Pool, FacemeltError> {
    if !(p.phase is Amm) {
        Err(FacemeltError::InvalidPoolState)
    } else {
        match Pool::advance_funding_spec(p, now) {
            Err(e) => Err(e),
            Ok(p1) => match p1.calculate_output_spec(amount_in, input_is_sol) {
                Err(e) => Err(e),
                Ok(amount_out) => if amount_out < min_amount_out {
                    Err(FacemeltError::SlippageToleranceExceeded)
                } else if input_is_sol {
                    if p1.sol_reserve as int + amount_in as int > u64::MAX as int {
                        Err(FacemeltError::MathOverflow)
                    } else if amount_out >= p1.token_reserve {
                        Err(FacemeltError::MathUnderflow)
                    } else if p1.effective_sol_reserve as int + amount_in as int
                        > u64::MAX as int {
                        Err(FacemeltError::MathOverflow)
                    } else {
                        let p2 = Pool {
                            sol_reserve: (p1.sol_reserve + amount_in) as u64,
                            token_reserve: (p1.token_reserve - amount_out) as u64,
                            effective_sol_reserve: (p1.effective_sol_reserve
                                + amount_in) as u64,
                            effective_token_reserve: (p1.effective_token_reserve
                                - amount_out) as u64,
                            ..p1
                        };
                        Ok(
                            Pool {
                                ema_price: Pool::ema_next_spec(
                                    p2.ema_price as int,
                                    p2.spot_price_spec(),
                                ) as u128,
                                ..p2
                            },
                        )
                    }
                } else {
                    if p1.token_reserve as int + amount_in as int > u64::MAX as int {
                        Err(FacemeltError::MathOverflow)
                    } else if amount_out >= p1.sol_reserve {
                        Err(FacemeltError::MathUnderflow)
                    } else if p1.effective_token_reserve as int + amount_in as int
                        > u64::MAX as int {
                        Err(FacemeltError::MathOverflow)
                    } else {
                        let p2 = Pool {
                            sol_reserve: (p1.sol_reserve - amount_out) as u64,
                            token_reserve: (p1.token_reserve + amount_in) as u64,
                            effective_sol_reserve: (p1.effective_sol_reserve
                                - amount_out) as u64,
                            effective_token_reserve: (p1.effective_token_reserve
                                + amount_in) as u64,
                            ..p1
                        };
                        Ok(
                            Pool {
                                ema_price: Pool::ema_next_spec(
                                    p2.ema_price as int,
                                    p2.spot_price_spec(),
                                ) as u128,
                                ..p2
                            },
                        )
                    }
                },
            },
        }
    }
}

/// Spot swap over the effective reserves. Both the real and the
/// effective reserves move by the same amounts; the effective constant
/// product never decreases; afterwards the EMA observes the new price.
pub fn swap(
    pool: &mut Pool,
    user: u64,
    pool_id: u64,
    amount_in: u64,
    min_amount_out: u64,
    input_is_sol: bool,
    now: i64,
) -> (r: Result<Swapped, FacemeltError>)
    requires
        old(pool).wf(),
    ensures
        r is Err ==> *final(pool) == *old(pool) && swap_transition(
            *old(pool),
            amount_in,
            min_amount_out,
            input_is_sol,
            now,
        ) == Err::<Pool, FacemeltError>(r->Err_0),
        r is Ok ==> swap_transition(*old(pool), amount_in, min_amount_out, input_is_sol, now)
            == Ok::<Pool, FacemeltError>(*final(pool)),
        r is Ok ==> final(pool).wf(),
        r is Ok ==> final(pool).effective_k() >= old(pool).effective_k(),
        r is Ok ==> r->Ok_0 == (Swapped {
            user,
            pool: pool_id,
            input_is_sol,
            amount_in,
            amount_out: r->Ok_0.amount_out,
            timestamp: now,
        }),
        r is Ok && input_is_sol ==> final(pool).sol_reserve == old(pool).sol_reserve + amount_in
            && old(pool).token_reserve == final(pool).token_reserve + r->Ok_0.amount_out,
        r is Ok && !input_is_sol ==> final(pool).token_reserve == old(pool).token_reserve
            + amount_in && old(pool).sol_reserve == final(pool).sol_reserve + r->Ok_0.amount_out,
{
    match pool.phase {
        PoolPhase::Amm => {},
        _ => {
            return Err(FacemeltError::InvalidPoolState);
        },
    }
    let mut p: Pool = *pool;
    match p.update_funding_accumulators(now) {
        Err(e) => {
            return Err(e);
        },
        Ok(()) => {},
    }
    let ghost p1: Pool = p;
    let amount_out: u64 = match p.calculate_output(amount_in, input_is_sol) {
        Err(e) => {
            return Err(e);
        },
        Ok(v) => v,
    };
    if amount_out < min_amount_out {
        return Err(FacemeltError::SlippageToleranceExceeded);
    }
    proof {
        if input_is_sol {
            lemma_swap_output_bounds(
                p.effective_sol_reserve as int,
                p.effective_token_reserve as int,
                amount_in as int,
            );
        } else {
            lemma_swap_output_bounds(
                p.effective_token_reserve as int,
                p.effective_sol_reserve as int,
                amount_in as int,
            );
        }
    }
    if input_is_sol {
        let new_sol: u64 = match p.sol_reserve.checked_add(amount_in) {
            None => {
                return Err(FacemeltError::MathOverflow);
            },
            Some(v) => v,
        };
        if amount_out >= p.token_reserve {
            return Err(FacemeltError::MathUnderflow);
        }
        let new_eff_sol: u64 = match p.effective_sol_reserve.checked_add(amount_in) {
            None => {
                return Err(FacemeltError::MathOverflow);
            },
            Some(v) => v,
        };
        p.sol_reserve = new_sol;
        p.token_reserve = p.token_reserve - amount_out;
        p.effective_sol_reserve = new_eff_sol;
        p.effective_token_reserve = p.effective_token_reserve - amount_out;
    } else {
        let new_token: u64 = match p.token_reserve.checked_add(amount_in) {
            None => {
                return Err(FacemeltError::MathOverflow);
            },
            Some(v) => v,
        };
        if amount_out >= p.sol_reserve {
            return Err(FacemeltError::MathUnderflow);
        }
        let new_eff_token: u64 = match p.effective_token_reserve.checked_add(amount_in) {
            None => {
                return Err(FacemeltError::MathOverflow);
            },
            Some(v) => v,
        };
        p.token_reserve = new_token;
        p.sol_reserve = p.sol_reserve - amount_out;
        p.effective_token_reserve = new_eff_token;
        p.effective_sol_reserve = p.effective_sol_reserve - amount_out;
    }
    proof {
        // Funding only grew the effective reserves, and the swap step
        // itself protects the product, so the effective k never drops
        // across the whole operation.
        lemma_k_mono(
            old(pool).effective_sol_reserve as int,
            old(pool).effective_token_reserve as int,
            p1.effective_sol_reserve as int,
            p1.effective_token_reserve as int,
        );
        lemma_mul_is_commutative(
            p.effective_sol_reserve as int,
            p.effective_token_reserve as int,
        );
        lemma_mul_is_commutative(
            p1.effective_sol_reserve as int,
            p1.effective_token_reserve as int,
        );
    }
    p.update_ema();
    *pool = p;
    Ok(Swapped { user, pool: pool_id, input_is_sol, amount_in, amount_out, timestamp: now })
}

/// What a leverage open does for every input: the successor pool and
/// the new position, or the exact error. The position's `delta_k` is
/// exactly the drop of the effective constant product, and the whole
/// debt (including the new position) must stay below the effective `k`.
pub open spec fn leverage_swap_transition(
    p: Pool,
    owner: u64,
    pool_id: u64,
    amount_in: u64,
    min_amount_out: u64,
    leverage: u32,
    nonce: u64,
    input_is_sol: bool,
    now: i64,
) -> Result<(Pool, Position), FacemeltError> {
    match Pool::advance_funding_spec(p, now) {
        Err(e) => Err(e),
        Ok(p1) => if amount_in == 0 {
            Err(FacemeltError::ZeroSwapAmount)
        } else if leverage < 10 || leverage > 100 {
            Err(FacemeltError::InvalidLeverage)
        } else if amount_in as int * leverage as int > u64::MAX as int {
            Err(FacemeltError::MathOverflow)
        } else {
            let total_input = (amount_in as int * leverage as int / 10) as u64;
            match p1.calculate_output_spec(total_input, input_is_sol) {
                Err(e) => Err(e),
                Ok(out) => {
                    let x = p1.effective_sol_reserve as int;
                    let y = p1.effective_token_reserve as int;
                    let x_after = if input_is_sol {
                        x + amount_in as int
                    } else {
                        x - out as int
                    };
                    let y_after = if input_is_sol {
                        y - out as int
                    } else {
                        y + amount_in as int
                    };
                    let k_before = x * y;
                    let k_after = x_after * y_after;
                    if k_after > u128::MAX as int {
                        Err(FacemeltError::MathOverflow)
                    } else if k_before < k_after {
                        Err(FacemeltError::MathUnderflow)
                    } else {
                        let delta_k = k_before - k_after;
                        if out < min_amount_out {
                            Err(FacemeltError::SlippageToleranceExceeded)
                        } else if input_is_sol && p1.sol_reserve as int + amount_in as int
                            > u64::MAX as int {
                            Err(FacemeltError::MathOverflow)
                        } else if !input_is_sol && p1.token_reserve as int + amount_in as int
                            > u64::MAX as int {
                            Err(FacemeltError::MathOverflow)
                        } else if x_after > u64::MAX as int || y_after > u64::MAX as int {
                            Err(FacemeltError::MathOverflow)
                        } else {
                            let new_longs = if input_is_sol {
                                p1.total_delta_k_longs as int + delta_k
                            } else {
                                p1.total_delta_k_longs as int
                            };
                            let new_shorts = if input_is_sol {
                                p1.total_delta_k_shorts as int
                            } else {
                                p1.total_delta_k_shorts as int + delta_k
                            };
                            if new_longs > u128::MAX as int || new_shorts > u128::MAX as int {
                                Err(FacemeltError::MathOverflow)
                            } else if new_longs + new_shorts >= k_after {
                                Err(FacemeltError::ExcessiveLeverage)
                            } else {
                                let p2 = Pool {
                                    sol_reserve: if input_is_sol {
                                        (p1.sol_reserve + amount_in) as u64
                                    } else {
                                        p1.sol_reserve
                                    },
                                    token_reserve: if input_is_sol {
                                        p1.token_reserve
                                    } else {
                                        (p1.token_reserve + amount_in) as u64
                                    },
                                    effective_sol_reserve: x_after as u64,
                                    effective_token_reserve: y_after as u64,
                                    total_delta_k_longs: new_longs as u128,
                                    total_delta_k_shorts: new_shorts as u128,
                                    ..p1
                                };
                                let p3 = Pool {
                                    ema_price: if p2.ema_initialized {
                                        Pool::ema_next_spec(
                                            p2.ema_price as int,
                                            p2.spot_price_spec(),
                                        ) as u128
                                    } else {
                                        p2.spot_price_spec() as u128
                                    },
                                    ema_initialized: true,
                                    ..p2
                                };
                                Ok(
                                    (
                                        p3,
                                        Position {
                                            owner,
                                            pool: pool_id,
                                            is_long: input_is_sol,
                                            collateral: amount_in,
                                            leverage,
                                            size: out,
                                            delta_k: delta_k as u128,
                                            entry_funding_accumulator:
                                                p1.cumulative_funding_accumulator,
                                            nonce,
                                        },
                                    ),
                                )
                            }
                        }
                    }
                },
            }
        },
    }
}

/// Open a leveraged position: price the full borrowed input against the
/// effective reserves, but deposit only the collateral. The drop in the
/// effective product is stored on the position as its debt and added to
/// the side's outstanding total; the output is never paid out.
pub fn leverage_swap(
    pool: &mut Pool,
    owner: u64,
    pool_id: u64,
    amount_in: u64,
    min_amount_out: u64,
    leverage: u32,
    nonce: u64,
    input_is_sol: bool,
    now: i64,
) -> (r: Result<(Position, PositionOpened), FacemeltError>)
    requires
        old(pool).wf(),
    ensures
        r is Err ==> *final(pool) == *old(pool) && leverage_swap_transition(
            *old(pool),
            owner,
            pool_id,
            amount_in,
            min_amount_out,
            leverage,
            nonce,
            input_is_sol,
            now,
        ) == Err::<(Pool, Position), FacemeltError>(r->Err_0),
        r is Ok ==> leverage_swap_transition(
            *old(pool),
            owner,
            pool_id,
            amount_in,
            min_amount_out,
            leverage,
            nonce,
            input_is_sol,
            now,
        ) == Ok::<(Pool, Position), FacemeltError>((*final(pool), r->Ok_0.0)),
        r is Ok ==> final(pool).wf(),
        // The stored debt is exactly the drop of the effective product,
        // measured after the funding advance, and never exceeds it.
        r is Ok ==> r->Ok_0.0.delta_k as int == Pool::advance_funding_spec(
            *old(pool),
            now,
        )->Ok_0.effective_k() - final(pool).effective_k() && r->Ok_0.0.delta_k as int
            <= Pool::advance_funding_spec(*old(pool), now)->Ok_0.effective_k(),
        // Only the collateral moves into custody, on the input side.
        r is Ok && input_is_sol ==> final(pool).sol_reserve == old(pool).sol_reserve + amount_in
            && final(pool).token_reserve == old(pool).token_reserve,
        r is Ok && !input_is_sol ==> final(pool).token_reserve == old(pool).token_reserve
            + amount_in && final(pool).sol_reserve == old(pool).sol_reserve,
        // The position snapshots the accumulator the pool now carries.
        r is Ok ==> r->Ok_0.0.entry_funding_accumulator
            == final(pool).cumulative_funding_accumulator,
        // The whole outstanding debt stays below the effective k.
        r is Ok ==> (final(pool).total_delta_k_longs as int
            + final(pool).total_delta_k_shorts as int) < final(pool).effective_k(),
        r is Ok ==> r->Ok_0.1 == (PositionOpened {
            user: owner,
            pool: pool_id,
            position: nonce,
            is_long: input_is_sol,
            collateral: amount_in,
            leverage,
            size: r->Ok_0.0.size,
            timestamp: now,
        }),
{
    let mut p: Pool = *pool;
    match p.update_funding_accumulators(now) {
        Err(e) => {
            return Err(e);
        },
        Ok(()) => {},
    }
    let ghost p1: Pool = p;
    if amount_in == 0 {
        return Err(FacemeltError::ZeroSwapAmount);
    }
    if leverage < 10 || leverage > 100 {
        return Err(FacemeltError::InvalidLeverage);
    }
    let scaled: u64 = match amount_in.checked_mul(leverage as u64) {
        None => {
            return Err(FacemeltError::MathOverflow);
        },
        Some(v) => v,
    };
    let total_input: u64 = scaled / 10;
    let amount_out: u64 = match p.calculate_output(total_input, input_is_sol) {
        Err(e) => {
            return Err(e);
        },
        Ok(v) => v,
    };
    let x: u128 = p.effective_sol_reserve as u128;
    let y: u128 = p.effective_token_reserve as u128;
    proof {
        crate::fixed_point::lemma_u64_mul_fits_u128(x as int, y as int);
        if input_is_sol {
            lemma_swap_output_bounds(x as int, y as int, total_input as int);
        } else {
            lemma_swap_output_bounds(y as int, x as int, total_input as int);
        }
    }
    let (x_after, y_after): (u128, u128) = if input_is_sol {
        (x + amount_in as u128, y - amount_out as u128)
    } else {
        (x - amount_out as u128, y + amount_in as u128)
    };
    let k_before: u128 = x * y;
    let k_after: u128 = match x_after.checked_mul(y_after) {
        None => {
            return Err(FacemeltError::MathOverflow);
        },
        Some(v) => v,
    };
    if k_before < k_after {
        return Err(FacemeltError::MathUnderflow);
    }
    let delta_k: u128 = k_before - k_after;
    if amount_out < min_amount_out {
        return Err(FacemeltError::SlippageToleranceExceeded);
    }
    if input_is_sol {
        let new_sol: u64 = match p.sol_reserve.checked_add(amount_in) {
            None => {
                return Err(FacemeltError::MathOverflow);
            },
            Some(v) => v,
        };
        if x_after > u64::MAX as u128 {
            return Err(FacemeltError::MathOverflow);
        }
        let new_longs: u128 = match p.total_delta_k_longs.checked_add(delta_k) {
            None => {
                return Err(FacemeltError::MathOverflow);
            },
            Some(v) => v,
        };
        match new_longs.checked_add(p.total_delta_k_shorts) {
            None => {
                return Err(FacemeltError::ExcessiveLeverage);
            },
            Some(total) => {
                if total >= k_after {
                    return Err(FacemeltError::ExcessiveLeverage);
                }
            },
        }
        p.sol_reserve = new_sol;
        p.effective_sol_reserve = x_after as u64;
        p.effective_token_reserve = y_after as u64;
        p.total_delta_k_longs = new_longs;
    } else {
        let new_token: u64 = match p.token_reserve.checked_add(amount_in) {
            None => {
                return Err(FacemeltError::MathOverflow);
            },
            Some(v) => v,
        };
        if y_after > u64::MAX as u128 {
            return Err(FacemeltError::MathOverflow);
        }
        let new_shorts: u128 = match p.total_delta_k_shorts.checked_add(delta_k) {
            None => {
                return Err(FacemeltError::MathOverflow);
            },
            Some(v) => v,
        };
        match p.total_delta_k_longs.checked_add(new_shorts) {
            None => {
                return Err(FacemeltError::ExcessiveLeverage);
            },
            Some(total) => {
                if total >= k_after {
                    return Err(FacemeltError::ExcessiveLeverage);
                }
            },
        }
        p.token_reserve = new_token;
        p.effective_sol_reserve = x_after as u64;
        p.effective_token_reserve = y_after as u64;
        p.total_delta_k_shorts = new_shorts;
    }
    let position = Position {
        owner,
        pool: pool_id,
        is_long: input_is_sol,
        collateral: amount_in,
        leverage,
        size: amount_out,
        delta_k,
        entry_funding_accumulator: p.cumulative_funding_accumulator,
        nonce,
    };
    p.update_ema();
    *pool = p;
    let event = PositionOpened {
        user: owner,
        pool: pool_id,
        position: nonce,
        is_long: input_is_sol,
        collateral: amount_in,
        leverage,
        size: amount_out,
        timestamp: now,
    };
    Ok((position, event))
}


/// The settlement both close and liquidation perform once the live
/// part `(es, edk)` and the payout are known: return the claim to its
/// effective side, pay out of the opposite side and the matching real
/// reserve, retire the effective debt, snap residual dust to zero, and
/// snap the effective reserves to the real ones when the book is flat.
pub open spec fn settle_position_spec(
    p1: Pool,
    is_long: bool,
    es: int,
    edk: int,
    payout: int,
) -> Result<Pool, FacemeltError> {
    if is_long {
        if p1.effective_token_reserve as int + es > u64::MAX as int {
            Err(FacemeltError::MathOverflow)
        } else if payout > p1.effective_sol_reserve as int {
            Err(FacemeltError::MathOverflow)
        } else if payout >= p1.sol_reserve as int {
            Err(FacemeltError::InsufficientFunds)
        } else if edk > p1.total_delta_k_longs as int {
            Err(FacemeltError::MathUnderflow)
        } else {
            let x2 = p1.effective_sol_reserve as int - payout;
            let y2 = p1.effective_token_reserve as int + es;
            let longs2 = p1.total_delta_k_longs as int - edk;
            let longs3 = if longs2 < x2 * y2 / crate::pool::DELTA_K_SNAP_FRACTION as int {
                0
            } else {
                longs2
            };
            let p2 = Pool {
                sol_reserve: (p1.sol_reserve as int - payout) as u64,
                effective_sol_reserve: x2 as u64,
                effective_token_reserve: y2 as u64,
                total_delta_k_longs: longs3 as u128,
                ..p1
            };
            let p3 = if longs3 == 0 && p2.total_delta_k_shorts == 0 {
                Pool {
                    effective_sol_reserve: p2.sol_reserve,
                    effective_token_reserve: p2.token_reserve,
                    ..p2
                }
            } else {
                p2
            };
            Ok(
                Pool {
                    ema_price: if p3.ema_initialized {
                        Pool::ema_next_spec(p3.ema_price as int, p3.spot_price_spec()) as u128
                    } else {
                        p3.spot_price_spec() as u128
                    },
                    ema_initialized: true,
                    ..p3
                },
            )
        }
    } else {
        if p1.effective_sol_reserve as int + es > u64::MAX as int {
            Err(FacemeltError::MathOverflow)
        } else if payout > p1.effective_token_reserve as int {
            Err(FacemeltError::MathOverflow)
        } else if payout >= p1.token_reserve as int {
            Err(FacemeltError::InsufficientFunds)
        } else if edk > p1.total_delta_k_shorts as int {
            Err(FacemeltError::MathUnderflow)
        } else {
            let x2 = p1.effective_sol_reserve as int + es;
            let y2 = p1.effective_token_reserve as int - payout;
            let shorts2 = p1.total_delta_k_shorts as int - edk;
            let shorts3 = if shorts2 < x2 * y2 / crate::pool::DELTA_K_SNAP_FRACTION as int {
                0
            } else {
                shorts2
            };
            let p2 = Pool {
                token_reserve: (p1.token_reserve as int - payout) as u64,
                effective_sol_reserve: x2 as u64,
                effective_token_reserve: y2 as u64,
                total_delta_k_shorts: shorts3 as u128,
                ..p1
            };
            let p3 = if p2.total_delta_k_longs == 0 && shorts3 == 0 {
                Pool {
                    effective_sol_reserve: p2.sol_reserve,
                    effective_token_reserve: p2.token_reserve,
                    ..p2
                }
            } else {
                p2
            };
            Ok(
                Pool {
                    ema_price: if p3.ema_initialized {
                        Pool::ema_next_spec(p3.ema_price as int, p3.spot_price_spec()) as u128
                    } else {
                        p3.spot_price_spec() as u128
                    },
                    ema_initialized: true,
                    ..p3
                },
            )
        }
    }
}

/// Apply the shared settlement. On failure the pool is untouched.
fn settle_position(pool: &mut Pool, is_long: bool, es: u64, edk: u128, payout: u64) -> (r: Result<
    (),
    FacemeltError,
>)
    requires
        old(pool).wf(),
        old(pool).phase is Amm,
        is_long ==> payout < old(pool).effective_sol_reserve,
        !is_long ==> payout < old(pool).effective_token_reserve,
    ensures
        r is Err ==> *final(pool) == *old(pool) && settle_position_spec(
            *old(pool),
            is_long,
            es as int,
            edk as int,
            payout as int,
        ) == Err::<Pool, FacemeltError>(r->Err_0),
        r is Ok ==> settle_position_spec(*old(pool), is_long, es as int, edk as int, payout as int)
            == Ok::<Pool, FacemeltError>(*final(pool)),
        r is Ok ==> final(pool).wf(),
        r is Ok ==> final(pool).total_delta_k_longs == 0 && final(pool).total_delta_k_shorts == 0
            ==> final(pool).effective_sol_reserve == final(pool).sol_reserve
            && final(pool).effective_token_reserve == final(pool).token_reserve,
        r is Ok && is_long ==> final(pool).sol_reserve == old(pool).sol_reserve - payout
            && final(pool).token_reserve == old(pool).token_reserve,
        r is Ok && !is_long ==> final(pool).token_reserve == old(pool).token_reserve - payout
            && final(pool).sol_reserve == old(pool).sol_reserve,
        r is Ok ==> final(pool).cumulative_funding_accumulator
            == old(pool).cumulative_funding_accumulator && final(pool).last_update_timestamp
            == old(pool).last_update_timestamp && final(pool).phase == old(pool).phase,
{
    let mut p: Pool = *pool;
    if is_long {
        let new_eff_token: u64 = match p.effective_token_reserve.checked_add(es) {
            None => {
                return Err(FacemeltError::MathOverflow);
            },
            Some(v) => v,
        };
        if payout > p.effective_sol_reserve {
            return Err(FacemeltError::MathOverflow);
        }
        if payout >= p.sol_reserve {
            return Err(FacemeltError::InsufficientFunds);
        }
        let longs2: u128 = match p.total_delta_k_longs.checked_sub(edk) {
            None => {
                return Err(FacemeltError::MathUnderflow);
            },
            Some(v) => v,
        };
        p.effective_token_reserve = new_eff_token;
        p.effective_sol_reserve = p.effective_sol_reserve - payout;
        p.sol_reserve = p.sol_reserve - payout;
        proof {
            crate::fixed_point::lemma_u64_mul_fits_u128(
                p.effective_sol_reserve as int,
                p.effective_token_reserve as int,
            );
        }
        let k2: u128 = (p.effective_sol_reserve as u128) * (p.effective_token_reserve as u128);
        let threshold: u128 = k2 / crate::pool::DELTA_K_SNAP_FRACTION;
        p.total_delta_k_longs = if longs2 < threshold {
            0
        } else {
            longs2
        };
    } else {
        let new_eff_sol: u64 = match p.effective_sol_reserve.checked_add(es) {
            None => {
                return Err(FacemeltError::MathOverflow);
            },
            Some(v) => v,
        };
        if payout > p.effective_token_reserve {
            return Err(FacemeltError::MathOverflow);
        }
        if payout >= p.token_reserve {
            return Err(FacemeltError::InsufficientFunds);
        }
        let shorts2: u128 = match p.total_delta_k_shorts.checked_sub(edk) {
            None => {
                return Err(FacemeltError::MathUnderflow);
            },
            Some(v) => v,
        };
        p.effective_sol_reserve = new_eff_sol;
        p.effective_token_reserve = p.effective_token_reserve - payout;
        p.token_reserve = p.token_reserve - payout;
        proof {
            crate::fixed_point::lemma_u64_mul_fits_u128(
                p.effective_sol_reserve as int,
                p.effective_token_reserve as int,
            );
        }
        let k2: u128 = (p.effective_sol_reserve as u128) * (p.effective_token_reserve as u128);
        let threshold: u128 = k2 / crate::pool::DELTA_K_SNAP_FRACTION;
        p.total_delta_k_shorts = if shorts2 < threshold {
            0
        } else {
            shorts2
        };
    }
    if p.total_delta_k_longs == 0 && p.total_delta_k_shorts == 0 {
        p.effective_sol_reserve = p.sol_reserve;
        p.effective_token_reserve = p.token_reserve;
    }
    p.update_ema();
    *pool = p;
    Ok(())
}


/// A settlement payout `(xe * es - edk) / (ye + es)` is always a
/// proper part of the paying effective reserve.
proof fn lemma_payout_lt_reserve(xe: int, ye: int, es: int, edk: int)
    requires
        xe >= 1,
        ye >= 1,
        es >= 0,
        edk >= 0,
        xe * es > edk,
    ensures
        0 <= (xe * es - edk) / (ye + es),
        (xe * es - edk) / (ye + es) < xe,
{
    let num = xe * es - edk;
    let den = ye + es;
    lemma_div_pos_is_pos(num, den);
    assert(num < xe * den) by (nonlinear_arith)
        requires
            num == xe * es - edk,
            den == ye + es,
            xe >= 1,
            ye >= 1,
            edk >= 0,
            es >= 0,
    ;
    lemma_fundamental_div_mod(num, den);
    lemma_mod_bound(num, den);
    if num / den >= xe {
        assert(den * (num / den) >= den * xe) by (nonlinear_arith)
            requires
                den >= 1,
                num / den >= xe,
        ;
        assert(den * xe == xe * den) by (nonlinear_arith);
        assert(false);
    }
}

/// What closing a position does for every input: the successor pool
/// and the payout, or the exact error. Closing settles the live part
/// `size * f` and `delta_k * f` of the position against the effective
/// reserves; the payout leaves the real reserve of the paid side.
pub open spec fn close_position_transition(
    p: Pool,
    pos: Position,
    user: u64,
    pool_id: u64,
    now: i64,
) -> Result<(Pool, u64), FacemeltError> {
    if !(p.phase is Amm) {
        Err(FacemeltError::InvalidPoolState)
    } else if pos.owner != user || pos.pool != pool_id {
        Err(FacemeltError::InvalidPosition)
    } else {
        match Pool::advance_funding_spec(p, now) {
            Err(e) => Err(e),
            Ok(p1) => match Pool::remaining_factor_spec(p1, pos.entry_funding_accumulator) {
                Err(e) => Err(e),
                Ok(f) => {
                    let es = pos.size as int * f as int / FUNDING_PRECISION as int;
                    if pos.delta_k as int * f as int > u128::MAX as int {
                        Err(FacemeltError::MathOverflow)
                    } else {
                        let edk = pos.delta_k as int * f as int / FUNDING_PRECISION as int;
                        let xe = p1.effective_sol_reserve as int;
                        let ye = p1.effective_token_reserve as int;
                        let pv = if pos.is_long {
                            xe * es
                        } else {
                            ye * es
                        };
                        if pv <= edk {
                            Err(FacemeltError::PositionNotClosable)
                        } else {
                            let den = if pos.is_long {
                                ye + es
                            } else {
                                xe + es
                            };
                            let payout = (pv - edk) / den;
                            if payout == 0 {
                                Err(FacemeltError::PositionNotClosable)
                            } else {
                                match settle_position_spec(p1, pos.is_long, es, edk, payout) {
                                    Err(e) => Err(e),
                                    Ok(p2) => Ok((p2, payout as u64)),
                                }
                            }
                        }
                    }
                },
            },
        }
    }
}

/// Close a position: amortize it by the remaining factor, pay the net
/// value out of the paying side, return the claim to its side, retire
/// the effective debt, and snap dust. Only the owner may close, and
/// only for a positive payout.
pub fn close_position(
    pool: &mut Pool,
    position: &Position,
    user: u64,
    pool_id: u64,
    now: i64,
) -> (r: Result<(u64, PositionClosed), FacemeltError>)
    requires
        old(pool).wf(),
    ensures
        r is Err ==> *final(pool) == *old(pool) && close_position_transition(
            *old(pool),
            *position,
            user,
            pool_id,
            now,
        ) == Err::<(Pool, u64), FacemeltError>(r->Err_0),
        r is Ok ==> close_position_transition(*old(pool), *position, user, pool_id, now) == Ok::<
            (Pool, u64),
            FacemeltError,
        >((*final(pool), r->Ok_0.0)),
        r is Ok ==> final(pool).wf(),
        // Once the book is flat the effective reserves are the real ones.
        r is Ok ==> final(pool).total_delta_k_longs == 0 && final(pool).total_delta_k_shorts == 0
            ==> final(pool).effective_sol_reserve == final(pool).sol_reserve
            && final(pool).effective_token_reserve == final(pool).token_reserve,
        // The payout physically leaves the paid side's real reserve.
        r is Ok && position.is_long ==> old(pool).sol_reserve == final(pool).sol_reserve
            + r->Ok_0.0 && final(pool).token_reserve == old(pool).token_reserve,
        r is Ok && !position.is_long ==> old(pool).token_reserve == final(pool).token_reserve
            + r->Ok_0.0 && final(pool).sol_reserve == old(pool).sol_reserve,
        r is Ok ==> r->Ok_0.1 == (PositionClosed {
            user,
            pool: pool_id,
            position: position.nonce,
            is_long: position.is_long,
            position_size: position.size,
            output_amount: r->Ok_0.0,
            user_received: r->Ok_0.0,
            timestamp: now,
        }),
{
    match pool.phase {
        PoolPhase::Amm => {},
        _ => {
            return Err(FacemeltError::InvalidPoolState);
        },
    }
    if position.owner != user || position.pool != pool_id {
        return Err(FacemeltError::InvalidPosition);
    }
    let mut p: Pool = *pool;
    match p.update_funding_accumulators(now) {
        Err(e) => {
            return Err(e);
        },
        Ok(()) => {},
    }
    let f: u128 = match p.calculate_position_remaining_factor(position.entry_funding_accumulator) {
        Err(e) => {
            return Err(e);
        },
        Ok(v) => v,
    };
    proof {
        crate::fixed_point::lemma_u64_mul_fits_u128(position.size as int, f as int);
        crate::position::lemma_effective_le_original(position.size as int, f as int);
    }
    let es_wide: u128 = (position.size as u128) * f / crate::pool::FUNDING_PRECISION;
    let es: u64 = es_wide as u64;
    let edk: u128 = match position.delta_k.checked_mul(f) {
        None => {
            return Err(FacemeltError::MathOverflow);
        },
        Some(v) => v / crate::pool::FUNDING_PRECISION,
    };
    let xe: u128 = p.effective_sol_reserve as u128;
    let ye: u128 = p.effective_token_reserve as u128;
    proof {
        crate::fixed_point::lemma_u64_mul_fits_u128(xe as int, es as int);
        crate::fixed_point::lemma_u64_mul_fits_u128(ye as int, es as int);
    }
    let payout: u64 = if position.is_long {
        let pv: u128 = xe * es_wide;
        if pv <= edk {
            return Err(FacemeltError::PositionNotClosable);
        }
        let den: u128 = ye + es_wide;
        proof {
            lemma_payout_lt_reserve(xe as int, ye as int, es as int, edk as int);
        }
        let pay: u128 = (pv - edk) / den;
        if pay == 0 {
            return Err(FacemeltError::PositionNotClosable);
        }
        pay as u64
    } else {
        let pv: u128 = ye * es_wide;
        if pv <= edk {
            return Err(FacemeltError::PositionNotClosable);
        }
        let den: u128 = xe + es_wide;
        proof {
            lemma_payout_lt_reserve(ye as int, xe as int, es as int, edk as int);
        }
        let pay: u128 = (pv - edk) / den;
        if pay == 0 {
            return Err(FacemeltError::PositionNotClosable);
        }
        pay as u64
    };
    match settle_position(&mut p, position.is_long, es, edk, payout) {
        Err(e) => {
            return Err(e);
        },
        Ok(()) => {},
    }
    *pool = p;
    let event = PositionClosed {
        user,
        pool: pool_id,
        position: position.nonce,
        is_long: position.is_long,
        position_size: position.size,
        output_amount: payout,
        user_received: payout,
        timestamp: now,
    };
    Ok((payout, event))
}

/// What liquidation does for every input. Liquidation is a close by a
/// third party, allowed only while the spot price sits inside the EMA
/// divergence band, and only when the net payout has decayed to at most
/// five percent of the gross value of the remaining claim. An
/// underwater position (net value not positive) is not liquidatable:
/// funding must amortize it away.
pub open spec fn liquidate_transition(
    p: Pool,
    pos: Position,
    pool_id: u64,
    now: i64,
) -> Result<(Pool, u64), FacemeltError> {
    if !(p.phase is Amm) {
        Err(FacemeltError::InvalidPoolState)
    } else if pos.pool != pool_id {
        Err(FacemeltError::InvalidPosition)
    } else {
        match Pool::advance_funding_spec(p, now) {
            Err(e) => Err(e),
            Ok(p1) => if !p1.price_is_safe_spec() {
                Err(FacemeltError::LiquidationPriceManipulation)
            } else {
                match Pool::remaining_factor_spec(p1, pos.entry_funding_accumulator) {
                    Err(e) => Err(e),
                    Ok(f) => {
                        let es = pos.size as int * f as int / FUNDING_PRECISION as int;
                        if pos.delta_k as int * f as int > u128::MAX as int {
                            Err(FacemeltError::MathOverflow)
                        } else {
                            let edk = pos.delta_k as int * f as int / FUNDING_PRECISION as int;
                            match p1.calculate_output_spec(es as u64, !pos.is_long) {
                                Err(e) => Err(e),
                                Ok(gross) => {
                                    let xe = p1.effective_sol_reserve as int;
                                    let ye = p1.effective_token_reserve as int;
                                    let pv = if pos.is_long {
                                        xe * es
                                    } else {
                                        ye * es
                                    };
                                    if pv <= edk {
                                        Err(FacemeltError::PositionNotLiquidatable)
                                    } else {
                                        let den = if pos.is_long {
                                            ye + es
                                        } else {
                                            xe + es
                                        };
                                        let payout = (pv - edk) / den;
                                        if payout > gross as int * 5 / 100 {
                                            Err(FacemeltError::PositionNotLiquidatable)
                                        } else {
                                            match settle_position_spec(
                                                p1,
                                                pos.is_long,
                                                es,
                                                edk,
                                                payout,
                                            ) {
                                                Err(e) => Err(e),
                                                Ok(p2) => Ok((p2, payout as u64)),
                                            }
                                        }
                                    }
                                },
                            }
                        }
                    },
                }
            },
        }
    }
}

/// Liquidate a position. The price-safety band guards against
/// single-block manipulation; the whole (decayed) payout is the
/// liquidator's reward; settlement is exactly the close settlement.
pub fn liquidate(
    pool: &mut Pool,
    position: &Position,
    liquidator: u64,
    pool_id: u64,
    now: i64,
) -> (r: Result<(u64, PositionLiquidated), FacemeltError>)
    requires
        old(pool).wf(),
    ensures
        r is Err ==> *final(pool) == *old(pool) && liquidate_transition(
            *old(pool),
            *position,
            pool_id,
            now,
        ) == Err::<(Pool, u64), FacemeltError>(r->Err_0),
        r is Ok ==> liquidate_transition(*old(pool), *position, pool_id, now) == Ok::<
            (Pool, u64),
            FacemeltError,
        >((*final(pool), r->Ok_0.0)),
        r is Ok ==> final(pool).wf(),
        r is Ok ==> final(pool).total_delta_k_longs == 0 && final(pool).total_delta_k_shorts == 0
            ==> final(pool).effective_sol_reserve == final(pool).sol_reserve
            && final(pool).effective_token_reserve == final(pool).token_reserve,
        r is Ok && position.is_long ==> old(pool).sol_reserve == final(pool).sol_reserve
            + r->Ok_0.0 && final(pool).token_reserve == old(pool).token_reserve,
        r is Ok && !position.is_long ==> old(pool).token_reserve == final(pool).token_reserve
            + r->Ok_0.0 && final(pool).sol_reserve == old(pool).sol_reserve,
        r is Ok ==> r->Ok_0.1 == (PositionLiquidated {
            liquidator,
            position_owner: position.owner,
            pool: pool_id,
            position: position.nonce,
            position_size: position.size,
            expected_output: r->Ok_0.0,
            liquidator_reward: r->Ok_0.0,
            timestamp: now,
        }),
{
    match pool.phase {
        PoolPhase::Amm => {},
        _ => {
            return Err(FacemeltError::InvalidPoolState);
        },
    }
    if position.pool != pool_id {
        return Err(FacemeltError::InvalidPosition);
    }
    let mut p: Pool = *pool;
    match p.update_funding_accumulators(now) {
        Err(e) => {
            return Err(e);
        },
        Ok(()) => {},
    }
    if !p.price_is_safe() {
        return Err(FacemeltError::LiquidationPriceManipulation);
    }
    let f: u128 = match p.calculate_position_remaining_factor(position.entry_funding_accumulator) {
        Err(e) => {
            return Err(e);
        },
        Ok(v) => v,
    };
    proof {
        crate::fixed_point::lemma_u64_mul_fits_u128(position.size as int, f as int);
        crate::position::lemma_effective_le_original(position.size as int, f as int);
    }
    let es_wide: u128 = (position.size as u128) * f / crate::pool::FUNDING_PRECISION;
    let es: u64 = es_wide as u64;
    let edk: u128 = match position.delta_k.checked_mul(f) {
        None => {
            return Err(FacemeltError::MathOverflow);
        },
        Some(v) => v / crate::pool::FUNDING_PRECISION,
    };
    let gross: u64 = match p.calculate_output(es, !position.is_long) {
        Err(e) => {
            return Err(e);
        },
        Ok(v) => v,
    };
    let xe: u128 = p.effective_sol_reserve as u128;
    let ye: u128 = p.effective_token_reserve as u128;
    proof {
        crate::fixed_point::lemma_u64_mul_fits_u128(xe as int, es as int);
        crate::fixed_point::lemma_u64_mul_fits_u128(ye as int, es as int);
    }
    let payout: u64 = if position.is_long {
        let pv: u128 = xe * es_wide;
        if pv <= edk {
            return Err(FacemeltError::PositionNotLiquidatable);
        }
        let den: u128 = ye + es_wide;
        proof {
            lemma_payout_lt_reserve(xe as int, ye as int, es as int, edk as int);
        }
        ((pv - edk) / den) as u64
    } else {
        let pv: u128 = ye * es_wide;
        if pv <= edk {
            return Err(FacemeltError::PositionNotLiquidatable);
        }
        let den: u128 = xe + es_wide;
        proof {
            lemma_payout_lt_reserve(ye as int, xe as int, es as int, edk as int);
        }
        ((pv - edk) / den) as u64
    };
    let threshold: u64 = ((gross as u128) * 5 / 100) as u64;
    if payout > threshold {
        return Err(FacemeltError::PositionNotLiquidatable);
    }
    match settle_position(&mut p, position.is_long, es, edk, payout) {
        Err(e) => {
            return Err(e);
        },
        Ok(()) => {},
    }
    *pool = p;
    let event = PositionLiquidated {
        liquidator,
        position_owner: position.owner,
        pool: pool_id,
        position: position.nonce,
        position_size: position.size,
        expected_output: payout,
        liquidator_reward: payout,
        timestamp: now,
    };
    Ok((payout, event))
}

} // verus!
