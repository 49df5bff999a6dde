//! Laws that relate several operations: round trips, boundary
//! behaviour of the leverage scale, time-homogeneity of funding, and
//! the treatment of underwater positions. Each is proved from the
//! transition functions alone, so it holds of every state and input
//! that meets its hypotheses.

use vstd::prelude::*;
use vstd::arithmetic::div_mod::*;
use vstd::arithmetic::mul::*;

verus! {

use crate::errors::FacemeltError;
use crate::fixed_point::ceil_div_spec;
use crate::fixed_point::lemma_ceil_div_bounds;
use crate::pool::Pool;
use crate::pool::FUNDING_PRECISION;
use crate::position::Position;
use crate::ops::leverage_swap_transition;
use crate::curve::BondingCurve;
use crate::curve::SLOPE_PRECISION;
use crate::curve::curve_cost_spec;
use crate::fixed_point::isqrt_spec;
use crate::fixed_point::lemma_floor_div_bounds;
use crate::pool::SCALE_FACTOR;

/// At the lowest leverage scale (10, meaning 1.0x) an open prices its
/// collateral exactly like a spot swap: the whole input is collateral,
/// nothing is borrowed, the stored debt is zero, and the effective
/// constant product is unchanged.
pub proof fn lemma_leverage_ten_is_spot(
    p: Pool,
    owner: u64,
    pool_id: u64,
    amount_in: u64,
    min_amount_out: u64,
    nonce: u64,
    input_is_sol: bool,
    now: i64,
)
    requires
        leverage_swap_transition(
            p,
            owner,
            pool_id,
            amount_in,
            min_amount_out,
            10,
            nonce,
            input_is_sol,
            now,
        ) is Ok,
    ensures
        ({
            let r = leverage_swap_transition(
                p,
                owner,
                pool_id,
                amount_in,
                min_amount_out,
                10,
                nonce,
                input_is_sol,
                now,
            )->Ok_0;
            &&& r.1.delta_k == 0
            &&& r.1.collateral as int * r.1.leverage as int / 10 == r.1.collateral as int
            &&& r.0.effective_k() == Pool::advance_funding_spec(p, now)->Ok_0.effective_k()
        }),
{
    let p1 = Pool::advance_funding_spec(p, now)->Ok_0;
    // At scale 10 the total input is the collateral itself.
    assert(amount_in as int * 10 / 10 == amount_in as int) by {
        lemma_div_multiples_vanish(amount_in as int, 10);
        assert(amount_in as int * 10 == 10 * amount_in as int) by (nonlinear_arith);
    }
    let x = p1.effective_sol_reserve as int;
    let y = p1.effective_token_reserve as int;
    assert(amount_in >= 1);
    assert(x >= 1 && y >= 1);
    if input_is_sol {
        crate::pool::lemma_swap_output_bounds(x, y, amount_in as int);
        let out = crate::pool::swap_output_spec(x, y, amount_in as int);
        // The new opposite reserve is the ceiling, so the product can
        // only grow; a successful open therefore hit it exactly.
        let c = ceil_div_spec(x * y, x + amount_in as int);
        lemma_mul_nonnegative(x, y);
        lemma_ceil_div_bounds(x * y, x + amount_in as int);
        assert(y - out == c);
        assert((x + amount_in as int) * c >= x * y);
    } else {
        crate::pool::lemma_swap_output_bounds(y, x, amount_in as int);
        let out = crate::pool::swap_output_spec(y, x, amount_in as int);
        let c = ceil_div_spec(y * x, y + amount_in as int);
        lemma_mul_nonnegative(y, x);
        lemma_ceil_div_bounds(y * x, y + amount_in as int);
        assert(x - out == c);
        assert((y + amount_in as int) * c >= y * x);
        assert((x - out) * (y + amount_in as int) == (y + amount_in as int) * (x - out))
            by (nonlinear_arith);
        assert(y * x == x * y) by (nonlinear_arith);
    }
}

/// Opening a leveraged position and closing it with no time elapsed
/// hands the collateral back exactly, and restores the pool's
/// reserves, debt totals and accumulator to their prior values: a
/// zero-dt round trip is free.
pub proof fn lemma_open_close_round_trip(
    p: Pool,
    owner: u64,
    pool_id: u64,
    amount_in: u64,
    min_amount_out: u64,
    leverage: u32,
    nonce: u64,
    input_is_sol: bool,
    now: i64,
)
    requires
        p.wf(),
        p.phase is Amm,
        p.total_delta_k_longs == 0,
        p.total_delta_k_shorts == 0,
        p.effective_sol_reserve == p.sol_reserve,
        p.effective_token_reserve == p.token_reserve,
        p.last_update_timestamp == now,
        p.effective_k() * FUNDING_PRECISION as int <= u128::MAX as int,
        leverage_swap_transition(
            p,
            owner,
            pool_id,
            amount_in,
            min_amount_out,
            leverage,
            nonce,
            input_is_sol,
            now,
        ) is Ok,
    ensures
        ({
            let r = leverage_swap_transition(
                p,
                owner,
                pool_id,
                amount_in,
                min_amount_out,
                leverage,
                nonce,
                input_is_sol,
                now,
            )->Ok_0;
            let r2 = crate::ops::close_position_transition(r.0, r.1, owner, pool_id, now);
            &&& r2 is Ok
            &&& r2->Ok_0.1 == amount_in
            &&& r2->Ok_0.0.sol_reserve == p.sol_reserve
            &&& r2->Ok_0.0.token_reserve == p.token_reserve
            &&& r2->Ok_0.0.effective_sol_reserve == p.effective_sol_reserve
            &&& r2->Ok_0.0.effective_token_reserve == p.effective_token_reserve
            &&& r2->Ok_0.0.total_delta_k_longs == 0
            &&& r2->Ok_0.0.total_delta_k_shorts == 0
            &&& r2->Ok_0.0.cumulative_funding_accumulator == p.cumulative_funding_accumulator
        }),
{
    let r = leverage_swap_transition(
        p,
        owner,
        pool_id,
        amount_in,
        min_amount_out,
        leverage,
        nonce,
        input_is_sol,
        now,
    )->Ok_0;
    let p3 = r.0;
    let pos = r.1;
    // With no elapsed time the funding step is the identity, in the
    // open and again in the close.
    assert(Pool::advance_funding_spec(p, now) == Ok::<Pool, FacemeltError>(p));
    assert(p3.last_update_timestamp == now);
    assert(Pool::advance_funding_spec(p3, now) == Ok::<Pool, FacemeltError>(p3));
    // The accumulator never moved, so the position is fully live.
    assert(p3.cumulative_funding_accumulator == pos.entry_funding_accumulator);
    assert(Pool::remaining_factor_spec(p3, pos.entry_funding_accumulator) == Ok::<
        u128,
        FacemeltError,
    >(FUNDING_PRECISION));
    let x = p.effective_sol_reserve as int;
    let y = p.effective_token_reserve as int;
    let a = amount_in as int;
    let size = pos.size as int;
    let dk = pos.delta_k as int;
    assert(a >= 1);
    assert(x >= 1 && y >= 1);
    let ti = (amount_in as int * leverage as int / 10) as u64;
    proof_swap_bounds(p, ti, input_is_sol);
    // Full factor: the live part is the whole position.
    assert(size * FUNDING_PRECISION as int / FUNDING_PRECISION as int == size) by {
        assert(size * FUNDING_PRECISION as int == FUNDING_PRECISION as int * size)
            by (nonlinear_arith);
        lemma_div_multiples_vanish(size, FUNDING_PRECISION as int);
    }
    assert(dk <= p.effective_k()) by {
        lemma_mul_nonnegative(x, y);
    }
    assert(dk * FUNDING_PRECISION as int <= u128::MAX as int) by {
        assert(dk * FUNDING_PRECISION as int <= p.effective_k() * FUNDING_PRECISION as int)
            by (nonlinear_arith)
            requires
                0 <= dk <= p.effective_k(),
        ;
    }
    assert(dk * FUNDING_PRECISION as int / FUNDING_PRECISION as int == dk) by {
        assert(dk * FUNDING_PRECISION as int == FUNDING_PRECISION as int * dk)
            by (nonlinear_arith);
        lemma_div_multiples_vanish(dk, FUNDING_PRECISION as int);
    }
    if input_is_sol {
        // After the open the effective reserves are (x + a, y - size)
        // and dk == x*y - (x + a)*(y - size), so the close numerator
        // collapses to a * y and the denominator to y.
        assert(p3.effective_sol_reserve as int == x + a);
        assert(p3.effective_token_reserve as int == y - size);
        assert(dk == x * y - (x + a) * (y - size));
        let pv = (x + a) * (y - size + size);
        assert((x + a) * size - dk == a * y) by (nonlinear_arith)
            requires
                dk == x * y - (x + a) * (y - size),
        ;
        assert(a * y > 0) by (nonlinear_arith)
            requires
                a >= 1,
                y >= 1,
        ;
        assert(a * y / y == a) by {
            assert(a * y == y * a) by (nonlinear_arith);
            lemma_div_multiples_vanish(a, y);
        }
        // Settlement: the reserves return to where they started.
        assert(x + a - a == x);
        assert(y - size + size == y);
    } else {
        assert(p3.effective_sol_reserve as int == x - size);
        assert(p3.effective_token_reserve as int == y + a);
        assert(dk == x * y - (x - size) * (y + a));
        assert((y + a) * size - dk == a * x) by (nonlinear_arith)
            requires
                dk == x * y - (x - size) * (y + a),
        ;
        assert(a * x > 0) by (nonlinear_arith)
            requires
                a >= 1,
                x >= 1,
        ;
        assert(a * x / x == a) by {
            assert(a * x == x * a) by (nonlinear_arith);
            lemma_div_multiples_vanish(a, x);
        }
        assert(y + a - a == y);
        assert(x - size + size == x);
    }
}

/// An underwater position (live gross value at most its live debt) is
/// not liquidatable: the attempt fails with `PositionNotLiquidatable`,
/// never by seizing value, and funding must amortize it further.
pub proof fn lemma_underwater_not_liquidatable(p: Pool, pos: Position, pool_id: u64, now: i64)
    requires
        p.phase is Amm,
        pos.pool == pool_id,
        Pool::advance_funding_spec(p, now) is Ok,
        ({
            let p1 = Pool::advance_funding_spec(p, now)->Ok_0;
            &&& p1.price_is_safe_spec()
            &&& Pool::remaining_factor_spec(p1, pos.entry_funding_accumulator) is Ok
            &&& ({
                let f = Pool::remaining_factor_spec(p1, pos.entry_funding_accumulator)->Ok_0;
                let es = pos.size as int * f as int / FUNDING_PRECISION as int;
                &&& pos.delta_k as int * f as int <= u128::MAX as int
                &&& es >= 1
                &&& p1.effective_sol_reserve >= 1
                &&& p1.effective_token_reserve >= 1
                &&& (if pos.is_long {
                    p1.effective_sol_reserve as int * es
                } else {
                    p1.effective_token_reserve as int * es
                }) <= pos.delta_k as int * f as int / FUNDING_PRECISION as int
            })
        }),
    ensures
        crate::ops::liquidate_transition(p, pos, pool_id, now) == Err::<
            (Pool, u64),
            FacemeltError,
        >(FacemeltError::PositionNotLiquidatable),
{
    let p1 = Pool::advance_funding_spec(p, now)->Ok_0;
    let f = Pool::remaining_factor_spec(p1, pos.entry_funding_accumulator)->Ok_0;
    let es = pos.size as int * f as int / FUNDING_PRECISION as int;
    // The gross quote succeeds (the live size is positive and both
    // reserves are live), so the attempt reaches the underwater test
    // and stops there.
    crate::position::lemma_effective_le_original(pos.size as int, f as int);
    assert(p1.calculate_output_spec(es as u64, !pos.is_long) is Ok);
}


/// The swap output of a live pool stays inside the opposite reserve.
proof fn proof_swap_bounds(p1: Pool, total_input: u64, input_is_sol: bool)
    requires
        1 <= p1.effective_sol_reserve,
        1 <= p1.effective_token_reserve,
        1 <= total_input,
    ensures
        ({
            let x = p1.effective_sol_reserve as int;
            let y = p1.effective_token_reserve as int;
            &&& (input_is_sol ==> 0 <= crate::pool::swap_output_spec(x, y, total_input as int)
                < y)
            &&& (!input_is_sol ==> 0 <= crate::pool::swap_output_spec(y, x, total_input as int)
                < x)
        }),
{
    if input_is_sol {
        crate::pool::lemma_swap_output_bounds(
            p1.effective_sol_reserve as int,
            p1.effective_token_reserve as int,
            total_input as int,
        );
    } else {
        crate::pool::lemma_swap_output_bounds(
            p1.effective_token_reserve as int,
            p1.effective_sol_reserve as int,
            total_input as int,
        );
    }
}


/// Buying on the curve and immediately selling the received tokens
/// back never profits, and loses at most one marginal unit of price:
/// `SLOPE_PRECISION * loss < m * (q2 + 1) + SLOPE_PRECISION`. Where the
/// marginal price is below one lamport per base unit, the loss is at
/// most one lamport.
pub proof fn lemma_curve_buy_sell_round_trip(c: BondingCurve, sol_in: u64)
    requires
        c.wf(),
        1 <= c.bonding_curve_slope_m,
        1 <= sol_in,
        ({
            let m = c.bonding_curve_slope_m as int;
            let q1 = c.tokens_sold_on_curve as int;
            let term = 2 * sol_in as int * SLOPE_PRECISION as int / m;
            &&& q1 * q1 + term <= u128::MAX as int
            &&& q1 + 1 <= isqrt_spec(q1 * q1 + term)
            &&& isqrt_spec(q1 * q1 + term) <= c.bonding_target_tokens_sold as int
        }),
    ensures
        ({
            let m = c.bonding_curve_slope_m as int;
            let q1 = c.tokens_sold_on_curve as int;
            let s = SLOPE_PRECISION as int;
            let term = 2 * sol_in as int * s / m;
            let q2 = isqrt_spec(q1 * q1 + term);
            let sol_back = curve_cost_spec(m, q1, q2);
            &&& 0 <= sol_back <= sol_in
            &&& sol_back <= c.sol_raised_on_curve as int + sol_in as int
            &&& s * (sol_in as int - sol_back) < m * (q2 + 1) + s
            &&& (m * (q2 + 1) < s ==> sol_in as int - sol_back <= 1)
        }),
{
    let m = c.bonding_curve_slope_m as int;
    let q1 = c.tokens_sold_on_curve as int;
    let s = SLOPE_PRECISION as int;
    let n = sol_in as int;
    let term = 2 * n * s / m;
    let sum = q1 * q1 + term;
    lemma_mul_nonnegative(q1, q1);
    lemma_mul_nonnegative(2 * n, s);
    lemma_div_pos_is_pos(2 * n * s, m);
    crate::fixed_point::lemma_isqrt_exists(sum);
    let q2 = isqrt_spec(sum);
    let diff = q2 * q2 - q1 * q1;
    let big = m * diff;
    let half = big / 2;
    let sol_back = half / s;
    assert(q2 * q2 <= sum);
    assert(diff <= term);
    assert(diff >= 0) by (nonlinear_arith)
        requires
            0 <= q1 <= q2 - 1,
            diff == q2 * q2 - q1 * q1,
    ;
    lemma_mul_nonnegative(m, diff);
    lemma_div_pos_is_pos(big, 2);
    lemma_div_pos_is_pos(half, s);
    // Never a profit: m * diff <= m * term <= 2 n s, and dividing by 2
    // and by s brings it down to at most n.
    lemma_floor_div_bounds(2 * n * s, m);
    assert(big <= m * term) by (nonlinear_arith)
        requires
            big == m * diff,
            m >= 0,
            diff <= term,
    ;
    assert(m * term <= 2 * n * s);
    crate::fixed_point::lemma_div_le_mono(big, 2 * n * s, 2);
    assert(2 * n * s / 2 == n * s) by {
        assert(2 * n * s == 2 * (n * s)) by (nonlinear_arith);
        lemma_div_multiples_vanish(n * s, 2);
    }
    crate::fixed_point::lemma_div_le_mono(half, n * s, s);
    assert(n * s / s == n) by {
        assert(n * s == s * n) by (nonlinear_arith);
        lemma_div_multiples_vanish(n, s);
    }
    assert(sol_back <= n);
    // The loss bound. First, the root loses at most 2 * q2 from the
    // radicand, so the integral recovers all but one marginal step.
    assert(sum < (q2 + 1) * (q2 + 1));
    assert(diff >= term - 2 * q2) by (nonlinear_arith)
        requires
            sum < (q2 + 1) * (q2 + 1),
            sum == q1 * q1 + term,
            diff == q2 * q2 - q1 * q1,
    ;
    // Second, the term itself loses at most one divisor from the
    // payment: 2 n s < m * term + m.
    assert(2 * n * s < m * term + m);
    // Third, the two floors of the sell lose at most one unit each.
    lemma_floor_div_bounds(big, 2);
    lemma_floor_div_bounds(half, s);
    assert(2 * half >= big - 1);
    assert(s * sol_back > half - s);
    // Chain everything: 2 s sol_back > 2 n s - m (2 q2 + 1) - 2 s - 1.
    assert(big >= m * term - m * (2 * q2)) by (nonlinear_arith)
        requires
            big == m * diff,
            diff >= term - 2 * q2,
            m >= 0,
    ;
    assert(2 * (s * sol_back) > big - 1 - 2 * s);
    assert(2 * (s * (n - sol_back)) < m * (2 * q2) + m + 1 + 2 * s) by (nonlinear_arith)
        requires
            2 * (s * sol_back) > big - 1 - 2 * s,
            big >= m * term - m * (2 * q2),
            2 * n * s < m * term + m,
    ;
    assert(m * (2 * q2) + m + 1 <= 2 * (m * (q2 + 1))) by (nonlinear_arith)
        requires
            m >= 1,
            q2 >= 0,
    ;
    assert(s * (n - sol_back) < m * (q2 + 1) + s) by (nonlinear_arith)
        requires
            2 * (s * (n - sol_back)) < 2 * (m * (q2 + 1)) + 2 * s,
    ;
    if m * (q2 + 1) < s {
        assert(s * (n - sol_back) < 2 * s);
        assert(n - sol_back <= 1) by (nonlinear_arith)
            requires
                s * (n - sol_back) < 2 * s,
                s >= 1,
        ;
    }
}

/// The per-state funding rate, as the funding engine derives it:
/// `C * (total_delta_k / effective_k)^2` in fixed point, with both
/// ratio operands scaled down first.
pub open spec fn funding_rate_of(p: Pool) -> int {
    let total = p.total_delta_k_longs as int + p.total_delta_k_shorts as int;
    let k = p.effective_sol_reserve as int * p.effective_token_reserve as int;
    let sdk = total / SCALE_FACTOR as int;
    let sk = k / SCALE_FACTOR as int;
    let ratio = sdk * FUNDING_PRECISION as int / sk;
    let ratio_sq = ratio * ratio / FUNDING_PRECISION as int;
    p.funding_constant_c as int * ratio_sq / FUNDING_PRECISION as int
}

/// Funding is time-homogeneous: as long as the per-side fees round to
/// zero over the whole window, advancing the accumulator in two steps
/// produces exactly the state of one combined step. The accumulator
/// increment is linear in elapsed time at a fixed rate.
pub proof fn lemma_funding_time_homogeneous(p: Pool, t1: i64, t2: i64)
    requires
        (p.last_update_timestamp as int) < t1 as int,
        (t1 as int) < t2 as int,
        t2 as int - p.last_update_timestamp as int <= i64::MAX as int,
        1 <= p.total_delta_k_longs as int + p.total_delta_k_shorts as int,
        p.total_delta_k_longs as int + p.total_delta_k_shorts as int <= u128::MAX as int,
        1 <= p.effective_sol_reserve,
        1 <= p.effective_token_reserve,
        1 <= (p.effective_sol_reserve as int * p.effective_token_reserve as int)
            / SCALE_FACTOR as int,
        ({
            let total = p.total_delta_k_longs as int + p.total_delta_k_shorts as int;
            let sdk = total / SCALE_FACTOR as int;
            let sk = (p.effective_sol_reserve as int * p.effective_token_reserve as int)
                / SCALE_FACTOR as int;
            let ratio = sdk * FUNDING_PRECISION as int / sk;
            let rate = funding_rate_of(p);
            let dt = t2 as int - p.last_update_timestamp as int;
            let sdl = p.total_delta_k_longs as int / SCALE_FACTOR as int;
            let sds = p.total_delta_k_shorts as int / SCALE_FACTOR as int;
            &&& sdk * FUNDING_PRECISION as int <= u128::MAX as int
            &&& ratio * ratio <= u128::MAX as int
            &&& p.funding_constant_c as int * (ratio * ratio / FUNDING_PRECISION as int)
                <= u128::MAX as int
            &&& rate * dt <= u128::MAX as int
            &&& p.cumulative_funding_accumulator as int + rate * dt <= u128::MAX as int
            &&& rate * sdl <= u128::MAX as int
            &&& rate * sdl * dt < FUNDING_PRECISION as int
            &&& rate * sds <= u128::MAX as int
            &&& rate * sds * dt < FUNDING_PRECISION as int
        }),
    ensures
        Pool::advance_funding_spec(p, t1) is Ok,
        Pool::advance_funding_spec(p, t2) is Ok,
        Pool::advance_funding_spec(Pool::advance_funding_spec(p, t1)->Ok_0, t2)
            == Pool::advance_funding_spec(p, t2),
{
    let t0 = p.last_update_timestamp as int;
    let dt = t2 as int - t0;
    let dt1 = t1 as int - t0;
    let dt2 = t2 as int - t1 as int;
    let rate = funding_rate_of(p);
    let sdl = p.total_delta_k_longs as int / SCALE_FACTOR as int;
    let sds = p.total_delta_k_shorts as int / SCALE_FACTOR as int;
    lemma_funding_rate_nonneg(p);
    lemma_div_pos_is_pos(p.total_delta_k_longs as int, SCALE_FACTOR as int);
    lemma_div_pos_is_pos(p.total_delta_k_shorts as int, SCALE_FACTOR as int);
    lemma_mul_nonnegative(rate, sdl);
    lemma_mul_nonnegative(rate, sds);
    // Every window inside the full one keeps every product inside its
    // bound: all the step conditions are monotone in elapsed time.
    assert(rate * dt1 <= rate * dt && rate * dt2 <= rate * dt && rate * dt1 >= 0 && rate * dt2
        >= 0) by (nonlinear_arith)
        requires
            rate >= 0,
            0 <= dt1 <= dt,
            0 <= dt2 <= dt,
    ;
    assert(rate * sdl * dt1 <= rate * sdl * dt && rate * sdl * dt2 <= rate * sdl * dt && rate
        * sdl * dt1 >= 0 && rate * sdl * dt2 >= 0) by (nonlinear_arith)
        requires
            rate * sdl >= 0,
            0 <= dt1 <= dt,
            0 <= dt2 <= dt,
    ;
    assert(rate * sds * dt1 <= rate * sds * dt && rate * sds * dt2 <= rate * sds * dt && rate
        * sds * dt1 >= 0 && rate * sds * dt2 >= 0) by (nonlinear_arith)
        requires
            rate * sds >= 0,
            0 <= dt1 <= dt,
            0 <= dt2 <= dt,
    ;
    lemma_funding_single_step(p, t1);
    lemma_funding_single_step(p, t2);
    let p1 = Pool::advance_funding_spec(p, t1)->Ok_0;
    assert(p1 == (Pool {
        cumulative_funding_accumulator: (p.cumulative_funding_accumulator as int + rate
            * dt1) as u128,
        last_update_timestamp: t1,
        ..p
    }));
    // The second leg sees the same reserves, debt totals and constant,
    // hence the same rate; only the accumulator and clock moved.
    assert(funding_rate_of(p1) == rate);
    assert(p1.total_delta_k_longs as int / SCALE_FACTOR as int == sdl);
    assert(p1.total_delta_k_shorts as int / SCALE_FACTOR as int == sds);
    // The second leg's accumulator bound is the combined one.
    assert(rate * dt1 + rate * dt2 == rate * dt) by (nonlinear_arith)
        requires
            dt == dt1 + dt2,
    ;
    lemma_funding_single_step(p1, t2);
    let p12 = Pool::advance_funding_spec(p1, t2)->Ok_0;
    let p2 = Pool::advance_funding_spec(p, t2)->Ok_0;
    assert(p12 == p2);
}

/// The funding rate is never negative.
proof fn lemma_funding_rate_nonneg(p: Pool)
    requires
        1 <= (p.effective_sol_reserve as int * p.effective_token_reserve as int)
            / SCALE_FACTOR as int,
    ensures
        funding_rate_of(p) >= 0,
{
    let total = p.total_delta_k_longs as int + p.total_delta_k_shorts as int;
    let k = p.effective_sol_reserve as int * p.effective_token_reserve as int;
    let sdk = total / SCALE_FACTOR as int;
    let sk = k / SCALE_FACTOR as int;
    lemma_div_pos_is_pos(total, SCALE_FACTOR as int);
    lemma_mul_nonnegative(sdk, FUNDING_PRECISION as int);
    lemma_div_pos_is_pos(sdk * FUNDING_PRECISION as int, sk);
    let ratio = sdk * FUNDING_PRECISION as int / sk;
    lemma_mul_nonnegative(ratio, ratio);
    lemma_div_pos_is_pos(ratio * ratio, FUNDING_PRECISION as int);
    let ratio_sq = ratio * ratio / FUNDING_PRECISION as int;
    lemma_mul_nonnegative(p.funding_constant_c as int, ratio_sq);
    lemma_div_pos_is_pos(p.funding_constant_c as int * ratio_sq, FUNDING_PRECISION as int);
}

/// One leg of the homogeneity argument: under the hypotheses of the
/// law, a single funding step to any time inside the window succeeds,
/// moves the accumulator by `rate * dt`, and changes nothing else.
proof fn lemma_funding_single_step(p: Pool, t: i64)
    requires
        (p.last_update_timestamp as int) < t as int,
        t as int - p.last_update_timestamp as int <= i64::MAX as int,
        1 <= p.total_delta_k_longs as int + p.total_delta_k_shorts as int,
        p.total_delta_k_longs as int + p.total_delta_k_shorts as int <= u128::MAX as int,
        1 <= p.effective_sol_reserve,
        1 <= p.effective_token_reserve,
        1 <= (p.effective_sol_reserve as int * p.effective_token_reserve as int)
            / SCALE_FACTOR as int,
        ({
            let total = p.total_delta_k_longs as int + p.total_delta_k_shorts as int;
            let sdk = total / SCALE_FACTOR as int;
            let sk = (p.effective_sol_reserve as int * p.effective_token_reserve as int)
                / SCALE_FACTOR as int;
            let ratio = sdk * FUNDING_PRECISION as int / sk;
            let rate = funding_rate_of(p);
            let dt = t as int - p.last_update_timestamp as int;
            let sdl = p.total_delta_k_longs as int / SCALE_FACTOR as int;
            let sds = p.total_delta_k_shorts as int / SCALE_FACTOR as int;
            &&& sdk * FUNDING_PRECISION as int <= u128::MAX as int
            &&& ratio * ratio <= u128::MAX as int
            &&& p.funding_constant_c as int * (ratio * ratio / FUNDING_PRECISION as int)
                <= u128::MAX as int
            &&& rate * dt <= u128::MAX as int
            &&& p.cumulative_funding_accumulator as int + rate * dt <= u128::MAX as int
            &&& rate * sdl <= u128::MAX as int
            &&& rate * sdl * dt < FUNDING_PRECISION as int
            &&& rate * sds <= u128::MAX as int
            &&& rate * sds * dt < FUNDING_PRECISION as int
        }),
    ensures
        Pool::advance_funding_spec(p, t) == Ok::<Pool, FacemeltError>(
            Pool {
                cumulative_funding_accumulator: (p.cumulative_funding_accumulator as int
                    + funding_rate_of(p) * (t as int
                    - p.last_update_timestamp as int)) as u128,
                last_update_timestamp: t,
                ..p
            },
        ),
{
    let dt = t as int - p.last_update_timestamp as int;
    let x = p.effective_sol_reserve as int;
    let y = p.effective_token_reserve as int;
    let total = p.total_delta_k_longs as int + p.total_delta_k_shorts as int;
    let k = x * y;
    lemma_mul_strictly_positive(x, y);
    let sdk = total / SCALE_FACTOR as int;
    let sk = k / SCALE_FACTOR as int;
    let ratio = sdk * FUNDING_PRECISION as int / sk;
    let rate = funding_rate_of(p);
    let sdl = p.total_delta_k_longs as int / SCALE_FACTOR as int;
    let sds = p.total_delta_k_shorts as int / SCALE_FACTOR as int;
    lemma_funding_rate_nonneg(p);
    lemma_div_pos_is_pos(p.total_delta_k_longs as int, SCALE_FACTOR as int);
    lemma_div_pos_is_pos(p.total_delta_k_shorts as int, SCALE_FACTOR as int);
    lemma_mul_nonnegative(rate, sdl);
    lemma_mul_nonnegative(rate, sds);
    lemma_mul_nonnegative(rate * sdl, dt);
    lemma_mul_nonnegative(rate * sds, dt);
    // Both per-side fee products round to zero.
    lemma_basic_div(rate * sdl * dt, FUNDING_PRECISION as int);
    lemma_basic_div(rate * sds * dt, FUNDING_PRECISION as int);
    assert(0 * SCALE_FACTOR as int == 0) by (nonlinear_arith);
    lemma_mul_nonnegative(rate, dt);
}

} // verus!
