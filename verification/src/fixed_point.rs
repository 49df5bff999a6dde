//! Integer fixed-point primitives: ceiling division, multiply-divide with
//! an explicit rounding mode, and the floor integer square root.
//!
//! Rounding policy used throughout the crate: an amount leaving the pool
//! rounds down, an amount entering the pool rounds up.

use vstd::prelude::*;
use vstd::arithmetic::div_mod::*;
use vstd::arithmetic::mul::*;
use vstd::arithmetic::power2::*;

verus! {

use crate::errors::FacemeltError;

/// Explicit rounding mode for ratio computations.
#[derive(Clone, Copy, Debug, PartialEq, Eq, Structural)]
pub enum Rounding {
    Floor,
    Ceil,
}

/// Mathematical ceiling of `num / den`, meaningful for `den > 0`.
pub open spec fn ceil_div_spec(num: int, den: int) -> int {
    if num % den == 0 {
        num / den
    } else {
        num / den + 1
    }
}

/// Holds exactly when `r` is the floor square root of `n`.
pub open spec fn is_isqrt(r: int, n: int) -> bool {
    &&& 0 <= r
    &&& r * r <= n
    &&& n < (r + 1) * (r + 1)
}

/// The floor square root as a mathematical value; `lemma_isqrt_exists`
/// shows it is well defined for every non-negative argument.
pub open spec fn isqrt_spec(n: int) -> int {
    choose|r: int| is_isqrt(r, n)
}

/// Every non-negative integer has a floor square root.
pub proof fn lemma_isqrt_exists(n: int)
    requires
        n >= 0,
    ensures
        is_isqrt(isqrt_spec(n), n),
    decreases n,
{
    if n == 0 {
        assert(is_isqrt(0, 0)) by (nonlinear_arith);
        assert(exists|r: int| is_isqrt(r, 0));
    } else {
        lemma_isqrt_exists(n - 1);
        let r = isqrt_spec(n - 1);
        if (r + 1) * (r + 1) <= n {
            // n - 1 < (r+1)^2 <= n pins n == (r+1)^2.
            assert(is_isqrt(r + 1, n)) by (nonlinear_arith)
                requires
                    is_isqrt(r, n - 1),
                    (r + 1) * (r + 1) <= n,
            ;
        } else {
            assert(is_isqrt(r, n));
        }
        assert(exists|q: int| is_isqrt(q, n));
    }
}

/// At most one value satisfies `is_isqrt` for a given argument.
pub proof fn lemma_isqrt_unique(r: int, n: int)
    requires
        is_isqrt(r, n),
    ensures
        r == isqrt_spec(n),
{
    assert(n >= 0) by (nonlinear_arith)
        requires
            is_isqrt(r, n),
    ;
    lemma_isqrt_exists(n);
    let q = isqrt_spec(n);
    if r < q {
        assert(false) by (nonlinear_arith)
            requires
                is_isqrt(r, n),
                is_isqrt(q, n),
                r < q,
        ;
    }
    if q < r {
        assert(false) by (nonlinear_arith)
            requires
                is_isqrt(r, n),
                is_isqrt(q, n),
                q < r,
        ;
    }
}

/// The ceiling never rounds below the exact quotient: `den * ceil >= num`,
/// and it overshoots by less than one divisor.
pub proof fn lemma_ceil_div_bounds(num: int, den: int)
    requires
        num >= 0,
        den > 0,
    ensures
        den * ceil_div_spec(num, den) >= num,
        den * ceil_div_spec(num, den) < num + den,
        ceil_div_spec(num, den) >= 0,
{
    lemma_fundamental_div_mod(num, den);
    lemma_mod_bound(num, den);
    let q = num / den;
    lemma_div_pos_is_pos(num, den);
    if num % den == 0 {
        assert(den * q == num);
    } else {
        assert(den * (q + 1) == den * q + den) by (nonlinear_arith);
    }
}

/// Floor division stays at or below the exact quotient: `den * (num / den) <= num`.
pub proof fn lemma_floor_div_bounds(num: int, den: int)
    requires
        num >= 0,
        den > 0,
    ensures
        den * (num / den) <= num,
        num < den * (num / den) + den,
        num / den >= 0,
{
    lemma_fundamental_div_mod(num, den);
    lemma_mod_bound(num, den);
    lemma_div_pos_is_pos(num, den);
}

/// Dividing a larger numerator by the same positive divisor cannot give
/// a smaller quotient.
pub proof fn lemma_div_le_mono(a: int, b: int, den: int)
    requires
        0 <= a <= b,
        den > 0,
    ensures
        a / den <= b / den,
{
    lemma_div_is_ordered(a, b, den);
}

/// Ceiling of `num / den`; fails with `MathOverflow` on a zero divisor.
pub fn ceil_div(num: u128, den: u128) -> (r: Result<u128, FacemeltError>)
    ensures
        den == 0 ==> r == Err::<u128, FacemeltError>(FacemeltError::MathOverflow),
        den > 0 ==> r == Ok::<u128, FacemeltError>(ceil_div_spec(num as int, den as int) as u128),
        den > 0 ==> ceil_div_spec(num as int, den as int) <= num,
{
    if den == 0 {
        return Err(FacemeltError::MathOverflow);
    }
    let q: u128 = num / den;
    let rem: u128 = num % den;
    proof {
        lemma_fundamental_div_mod(num as int, den as int);
        lemma_div_pos_is_pos(num as int, den as int);
        if rem != 0 {
            // A nonzero remainder forces den >= 2, so q + 1 cannot overflow
            // and the ceiling still fits below the numerator.
            assert(den >= 2);
            assert(q * 2 <= q * den) by (nonlinear_arith)
                requires
                    q >= 0,
                    den >= 2,
            ;
            assert(q + 1 <= num);
        } else {
            assert(q <= num) by {
                lemma_floor_div_bounds(num as int, den as int);
                assert(den * (num as int / den as int) >= 1 * (num as int / den as int))
                    by (nonlinear_arith)
                    requires
                        den >= 1,
                        num as int / den as int >= 0,
                ;
            }
        }
    }
    if rem == 0 {
        Ok(q)
    } else {
        Ok(q + 1)
    }
}

/// `(a * b) / d` on a 128-bit intermediate with the requested rounding.
/// Fails with `MathOverflow` on a zero divisor or when the quotient does
/// not fit in 64 bits.
pub fn mul_div(a: u64, b: u64, d: u64, rounding: Rounding) -> (r: Result<u64, FacemeltError>)
    ensures
        d == 0 ==> r == Err::<u64, FacemeltError>(FacemeltError::MathOverflow),
        d > 0 && rounding is Floor ==> (if a as int * b as int / d as int <= u64::MAX as int {
            r == Ok::<u64, FacemeltError>((a as int * b as int / d as int) as u64)
        } else {
            r == Err::<u64, FacemeltError>(FacemeltError::MathOverflow)
        }),
        d > 0 && rounding is Ceil ==> (if ceil_div_spec(a as int * b as int, d as int) <= u64::MAX as int {
            r == Ok::<u64, FacemeltError>(ceil_div_spec(a as int * b as int, d as int) as u64)
        } else {
            r == Err::<u64, FacemeltError>(FacemeltError::MathOverflow)
        }),
{
    if d == 0 {
        return Err(FacemeltError::MathOverflow);
    }
    proof {
        lemma_u64_mul_fits_u128(a as int, b as int);
    }
    let p: u128 = (a as u128) * (b as u128);
    let q: u128 = p / (d as u128);
    let rem: u128 = p % (d as u128);
    proof {
        lemma_fundamental_div_mod(p as int, d as int);
        lemma_div_pos_is_pos(p as int, d as int);
        if rem != 0 {
            assert(d >= 2);
            assert(q * 2 <= q * d) by (nonlinear_arith)
                requires
                    q >= 0,
                    d >= 2,
            ;
        }
    }
    let out: u128 = match rounding {
        Rounding::Floor => q,
        Rounding::Ceil => if rem == 0 { q } else { q + 1 },
    };
    if out > u64::MAX as u128 {
        Err(FacemeltError::MathOverflow)
    } else {
        Ok(out as u64)
    }
}

/// The product of two 64-bit values always fits in 128 bits.
pub proof fn lemma_u64_mul_fits_u128(a: int, b: int)
    requires
        0 <= a <= u64::MAX,
        0 <= b <= u64::MAX,
    ensures
        0 <= a * b <= u64::MAX * u64::MAX,
        a * b <= u128::MAX,
{
    lemma_mul_nonnegative(a, b);
    lemma_mul_upper_bound(a, u64::MAX as int, b, u64::MAX as int);
}

/// Floor integer square root by Newton's method. The iteration starts
/// above the root and descends monotonically, so it terminates; the loop
/// invariant pins the result exactly.
pub fn isqrt(n: u128) -> (r: u128)
    ensures
        is_isqrt(r as int, n as int),
        r == isqrt_spec(n as int),
{
    if n == 0 {
        proof {
            assert(is_isqrt(0, 0)) by (nonlinear_arith);
            lemma_isqrt_unique(0, 0);
        }
        return 0;
    }
    let mut x: u128 = n / 2 + 1;
    proof {
        lemma_fundamental_div_mod(n as int, 2);
        let h = n as int / 2;
        assert((h + 2) * (h + 2) > n as int) by (nonlinear_arith)
            requires
                h >= 0,
                n as int <= 2 * h + 1,
        ;
        lemma_div_le_mono(n as int, u128::MAX as int, 2);
    }
    loop
        invariant
            n >= 1,
            1 <= x,
            x <= n / 2 + 1,
            (x as int + 1) * (x as int + 1) > n as int,
        decreases x,
    {
        proof {
            // x + n / x fits: large x makes n / x small, small x is itself small.
            if x >= 0x1_0000_0000_0000_0000u128 {
                lemma_div_le_mono(n as int, u128::MAX as int, x as int);
                lemma_div_le_mono(n as int, u128::MAX as int, 0x1_0000_0000_0000_0000);
                assert(n / x <= u128::MAX / 0x1_0000_0000_0000_0000u128) by {
                    lemma_div_is_ordered_by_denominator(
                        n as int, 0x1_0000_0000_0000_0000, x as int);
                    lemma_div_is_ordered(n as int, u128::MAX as int, 0x1_0000_0000_0000_0000);
                }
            } else {
                // n < (x+1)^2 gives n / x <= x + 2.
                assert(n as int <= x as int * (x as int + 3)) by (nonlinear_arith)
                    requires
                        (n as int) < ((x as int + 1) * (x as int + 1)),
                        x >= 1,
                ;
                lemma_div_le_mono(n as int, x as int * (x as int + 3), x as int);
                lemma_div_multiples_vanish(x as int + 3, x as int);
            }
        }
        let q: u128 = n / x;
        let y: u128 = (x + q) / 2;
        if y >= x {
            proof {
                // Exit: (x + q) / 2 >= x forces q >= x, hence x * x <= n.
                lemma_fundamental_div_mod((x + q) as int, 2);
                assert(q >= x);
                lemma_fundamental_div_mod(n as int, x as int);
                lemma_mod_bound(n as int, x as int);
                assert(x as int * x as int <= x as int * q as int) by (nonlinear_arith)
                    requires
                        x >= 1,
                        q >= x,
                ;
                lemma_isqrt_unique(x as int, n as int);
            }
            return x;
        }
        proof {
            // y < x: show the descent keeps y above or at the floor root,
            // that is (y + 1)^2 > n.
            let xi = x as int;
            let qi = q as int;
            let yi = y as int;
            let g = yi + 1;
            lemma_fundamental_div_mod((x + q) as int, 2);
            if g * g <= n as int {
                // q = n / x >= 2g - x, because otherwise
                // n < (q + 1) * x <= (2g - x) * x <= g * g <= n.
                lemma_fundamental_div_mod(n as int, xi);
                lemma_mod_bound(n as int, xi);
                if qi + 1 <= 2 * g - xi {
                    assert((qi + 1) * xi <= (2 * g - xi) * xi) by (nonlinear_arith)
                        requires
                            xi >= 1,
                            qi + 1 <= 2 * g - xi,
                    ;
                    assert((2 * g - xi) * xi <= g * g) by (nonlinear_arith);
                    assert((n as int) < (qi + 1) * xi) by (nonlinear_arith)
                        requires
                            n as int == qi * xi + n as int % xi,
                            n as int % xi < xi,
                    ;
                    assert(false);
                }
                // So x + q >= 2g and y >= g = y + 1: contradiction.
                assert(xi + qi >= 2 * g);
                assert(yi >= g) by (nonlinear_arith)
                    requires
                        2 * yi + 1 >= xi + qi,
                        xi + qi >= 2 * g,
                ;
                assert(false);
            }
            assert((yi + 1) * (yi + 1) > n as int);
            if y == 0 {
                assert((yi + 1) * (yi + 1) == 1) by (nonlinear_arith)
                    requires
                        yi == 0,
                ;
                assert(false);
            }
        }
        x = y;
    }
}


/// Wide multiply: the 256-bit product of two 128-bit values as a
/// `(high, low)` pair of 128-bit limbs.
pub fn wide_mul(a: u128, b: u128) -> (r: (u128, u128))
    ensures
        r.0 as int * 0x1_0000_0000_0000_0000_0000_0000_0000_0000 + r.1 as int == a as int
            * b as int,
{
    let half: u128 = 0x1_0000_0000_0000_0000;
    let a0: u128 = a % half;
    let a1: u128 = a / half;
    let b0: u128 = b % half;
    let b1: u128 = b / half;
    proof {
        lemma_fundamental_div_mod(a as int, half as int);
        lemma_fundamental_div_mod(b as int, half as int);
        lemma_mod_bound(a as int, half as int);
        lemma_mod_bound(b as int, half as int);
        lemma_div_pos_is_pos(a as int, half as int);
        lemma_div_pos_is_pos(b as int, half as int);
        assert((a as int / half as int) < half as int) by (nonlinear_arith)
            requires
                a as int <= 0xffff_ffff_ffff_ffff_ffff_ffff_ffff_ffff,
                a as int == half as int * (a as int / half as int) + a as int % half as int,
                half == 0x1_0000_0000_0000_0000,
                a as int % half as int >= 0,
        ;
        assert((b as int / half as int) < half as int) by (nonlinear_arith)
            requires
                b as int <= 0xffff_ffff_ffff_ffff_ffff_ffff_ffff_ffff,
                b as int == half as int * (b as int / half as int) + b as int % half as int,
                half == 0x1_0000_0000_0000_0000,
                b as int % half as int >= 0,
        ;
        lemma_half_products_fit(a0 as int, a1 as int, b0 as int, b1 as int);
    }
    let p00: u128 = a0 * b0;
    let p01: u128 = a0 * b1;
    let p10: u128 = a1 * b0;
    let p11: u128 = a1 * b1;
    let mid: u128 = p01 + p00 / half;
    let mid2: u128 = p10 + mid % half;
    proof {
        lemma_fundamental_div_mod(p00 as int, half as int);
        lemma_mod_bound(p00 as int, half as int);
        lemma_fundamental_div_mod(mid as int, half as int);
        lemma_mod_bound(mid as int, half as int);
        lemma_fundamental_div_mod(mid2 as int, half as int);
        lemma_mod_bound(mid2 as int, half as int);
        lemma_div_pos_is_pos(p00 as int, half as int);
        lemma_div_pos_is_pos(mid as int, half as int);
        lemma_div_pos_is_pos(mid2 as int, half as int);
        lemma_wide_mul_carries(
            a as int,
            b as int,
            a0 as int,
            a1 as int,
            b0 as int,
            b1 as int,
            p00 as int,
            p01 as int,
            p10 as int,
            p11 as int,
            mid as int,
            mid2 as int,
        );
    }
    let lo: u128 = (mid2 % half) * half + p00 % half;
    let hi: u128 = p11 + mid / half + mid2 / half;
    (hi, lo)
}

/// All four half-products and their carry sums stay inside 128 bits.
proof fn lemma_half_products_fit(a0: int, a1: int, b0: int, b1: int)
    requires
        0 <= a0 < 0x1_0000_0000_0000_0000,
        0 <= a1 < 0x1_0000_0000_0000_0000,
        0 <= b0 < 0x1_0000_0000_0000_0000,
        0 <= b1 < 0x1_0000_0000_0000_0000,
    ensures
        0 <= a0 * b0 <= u128::MAX - 0xffff_ffff_ffff_ffff,
        0 <= a0 * b1 <= u128::MAX - 0xffff_ffff_ffff_ffff,
        0 <= a1 * b0 <= u128::MAX - 0xffff_ffff_ffff_ffff,
        0 <= a1 * b1 <= u128::MAX - 2 * 0xffff_ffff_ffff_ffff,
{
    let m = 0xffff_ffff_ffff_ffffint;
    lemma_mul_nonnegative(a0, b0);
    lemma_mul_nonnegative(a0, b1);
    lemma_mul_nonnegative(a1, b0);
    lemma_mul_nonnegative(a1, b1);
    lemma_mul_upper_bound(a0, m, b0, m);
    lemma_mul_upper_bound(a0, m, b1, m);
    lemma_mul_upper_bound(a1, m, b0, m);
    lemma_mul_upper_bound(a1, m, b1, m);
    assert(m * m == u128::MAX - 2 * 0xffff_ffff_ffff_ffff) by (nonlinear_arith)
        requires
            m == 0xffff_ffff_ffff_ffffint,
    ;
}

/// Recombining limb products is the product of the recombined limbs:
/// a pure ring identity over a symbolic radix.
proof fn lemma_limbs_recombine(k: int, a0: int, a1: int, b0: int, b1: int)
    ensures
        (a1 * b1) * (k * k) + (a1 * b0) * k + (a0 * b1) * k + a0 * b0 == (k * a1 + a0) * (k * b1
            + b0),
{
    lemma_mul_is_distributive_add_other_way(k * b1 + b0, k * a1, a0);
    lemma_mul_is_distributive_add(k * a1, k * b1, b0);
    lemma_mul_is_distributive_add(a0, k * b1, b0);
    assert((k * a1) * (k * b1) == (a1 * b1) * (k * k)) by (nonlinear_arith);
    assert((k * a1) * b0 == (a1 * b0) * k) by (nonlinear_arith);
    assert(a0 * (k * b1) == (a0 * b1) * k) by (nonlinear_arith);
}

/// The carry bookkeeping of the schoolbook wide multiply is exact.
#[verifier::rlimit(50)]
proof fn lemma_wide_mul_carries(
    a: int,
    b: int,
    a0: int,
    a1: int,
    b0: int,
    b1: int,
    p00: int,
    p01: int,
    p10: int,
    p11: int,
    mid: int,
    mid2: int,
)
    requires
        a == 0x1_0000_0000_0000_0000 * a1 + a0,
        b == 0x1_0000_0000_0000_0000 * b1 + b0,
        0 <= a0 < 0x1_0000_0000_0000_0000,
        0 <= a1 < 0x1_0000_0000_0000_0000,
        0 <= b0 < 0x1_0000_0000_0000_0000,
        0 <= b1 < 0x1_0000_0000_0000_0000,
        p00 == a0 * b0,
        p01 == a0 * b1,
        p10 == a1 * b0,
        p11 == a1 * b1,
        mid == p01 + p00 / 0x1_0000_0000_0000_0000,
        mid2 == p10 + mid % 0x1_0000_0000_0000_0000,
    ensures
        (p11 + mid / 0x1_0000_0000_0000_0000 + mid2 / 0x1_0000_0000_0000_0000)
            * 0x1_0000_0000_0000_0000_0000_0000_0000_0000 + ((mid2 % 0x1_0000_0000_0000_0000)
            * 0x1_0000_0000_0000_0000 + p00 % 0x1_0000_0000_0000_0000) == a * b,
        p11 + mid / 0x1_0000_0000_0000_0000 + mid2 / 0x1_0000_0000_0000_0000 <= u128::MAX,
        (mid2 % 0x1_0000_0000_0000_0000) * 0x1_0000_0000_0000_0000 + p00
            % 0x1_0000_0000_0000_0000 <= u128::MAX,
{
    let h = 0x1_0000_0000_0000_0000int;
    lemma_fundamental_div_mod(p00, h);
    lemma_mod_bound(p00, h);
    lemma_fundamental_div_mod(mid, h);
    lemma_mod_bound(mid, h);
    lemma_fundamental_div_mod(mid2, h);
    lemma_mod_bound(mid2, h);
    lemma_div_pos_is_pos(p00, h);
    lemma_div_pos_is_pos(mid, h);
    lemma_div_pos_is_pos(mid2, h);
    // Bounds of the partial products and carries.
    assert(p00 <= (h - 1) * (h - 1) && p01 <= (h - 1) * (h - 1) && p10 <= (h - 1) * (h - 1) && p11
        <= (h - 1) * (h - 1)) by (nonlinear_arith)
        requires
            p00 == a0 * b0,
            p01 == a0 * b1,
            p10 == a1 * b0,
            p11 == a1 * b1,
            0 <= a0 <= h - 1,
            0 <= a1 <= h - 1,
            0 <= b0 <= h - 1,
            0 <= b1 <= h - 1,
    ;
    assert(p00 / h < h) by (nonlinear_arith)
        requires
            p00 == h * (p00 / h) + p00 % h,
            p00 <= (h - 1) * (h - 1),
            p00 % h >= 0,
            h == 0x1_0000_0000_0000_0000,
    ;
    assert(mid / h < h) by (nonlinear_arith)
        requires
            mid == h * (mid / h) + mid % h,
            mid <= (h - 1) * (h - 1) + (h - 1),
            mid % h >= 0,
            h == 0x1_0000_0000_0000_0000,
    ;
    assert(mid2 / h < h) by (nonlinear_arith)
        requires
            mid2 == h * (mid2 / h) + mid2 % h,
            mid2 <= (h - 1) * (h - 1) + (h - 1),
            mid2 % h >= 0,
            h == 0x1_0000_0000_0000_0000,
    ;
    // The defining identity, one carry substitution at a time.
    let lhs = (p11 + mid / h + mid2 / h) * (h * h) + ((mid2 % h) * h + p00 % h);
    assert(lhs == p11 * (h * h) + (mid / h) * (h * h) + mid2 * h + p00 % h) by (nonlinear_arith)
        requires
            lhs == (p11 + mid / h + mid2 / h) * (h * h) + ((mid2 % h) * h + p00 % h),
            mid2 % h == mid2 - h * (mid2 / h),
    ;
    assert(p11 * (h * h) + (mid / h) * (h * h) + mid2 * h + p00 % h == p11 * (h * h) + p10 * h
        + mid * h + p00 % h) by (nonlinear_arith)
        requires
            mid2 == p10 + mid - h * (mid / h),
    ;
    assert(p11 * (h * h) + p10 * h + mid * h + p00 % h == p11 * (h * h) + p10 * h + p01 * h
        + p00) by (nonlinear_arith)
        requires
            mid == p01 + p00 / h,
            p00 % h == p00 - h * (p00 / h),
    ;
    lemma_limbs_recombine(h, a0, a1, b0, b1);
    assert(h * h == 0x1_0000_0000_0000_0000_0000_0000_0000_0000) by (nonlinear_arith)
        requires
            h == 0x1_0000_0000_0000_0000int,
    ;
    // Range of the recombined limbs.
    assert((mid2 % h) * h + p00 % h <= u128::MAX) by (nonlinear_arith)
        requires
            0 <= mid2 % h < h,
            0 <= p00 % h < h,
            h == 0x1_0000_0000_0000_0000,
    ;
    assert(p11 + mid / h + mid2 / h <= u128::MAX) by (nonlinear_arith)
        requires
            0 <= p11 <= (h - 1) * (h - 1),
            0 <= mid / h < h,
            0 <= mid2 / h < h,
            h == 0x1_0000_0000_0000_0000,
    ;
}


/// Divide the 256-bit value `hi * 2^128 + lo` by a 128-bit divisor.
/// Fails with `MathOverflow` on a zero divisor or when the quotient
/// needs more than 128 bits, that is when `hi >= den`. Restoring
/// binary long division: the remainder starts at the high limb and
/// takes in one bit of the low limb per step.
pub fn wide_div(hi: u128, lo: u128, den: u128) -> (r: Result<u128, FacemeltError>)
    ensures
        den == 0 || hi >= den ==> r == Err::<u128, FacemeltError>(FacemeltError::MathOverflow),
        den > 0 && hi < den ==> r == Ok::<u128, FacemeltError>(
            ((hi as int * 0x1_0000_0000_0000_0000_0000_0000_0000_0000 + lo as int)
                / den as int) as u128,
        ),
{
    if den == 0 || hi >= den {
        return Err(FacemeltError::MathOverflow);
    }
    let mut p: u128 = 0x8000_0000_0000_0000_0000_0000_0000_0000;
    let mut q: u128 = 0;
    let mut rem: u128 = hi;
    let ghost mut j: nat = 127;
    proof {
        lemma2_to64();
        lemma_pow2_adds(32, 31);
        lemma_pow2_adds(64, 63);
        lemma_pow2_adds(64, 64);
        assert(pow2(63) == 0x8000_0000_0000_0000) by (nonlinear_arith)
            requires
                pow2(63) == pow2(32) * pow2(31),
                pow2(32) == 0x1_0000_0000,
                pow2(31) == 0x8000_0000,
        ;
        assert(pow2(127) == 0x8000_0000_0000_0000_0000_0000_0000_0000) by (nonlinear_arith)
            requires
                pow2(127) == pow2(64) * pow2(63),
                pow2(64) == 0x1_0000_0000_0000_0000,
                pow2(63) == 0x8000_0000_0000_0000,
        ;
        assert(pow2(128) == 0x1_0000_0000_0000_0000_0000_0000_0000_0000) by (nonlinear_arith)
            requires
                pow2(128) == pow2(64) * pow2(64),
                pow2(64) == 0x1_0000_0000_0000_0000,
        ;
        lemma_basic_div(lo as int, pow2(128) as int);
        assert(pow2((127 - j) as nat) == 1);
    }
    loop
        invariant
            1 <= den,
            hi < den,
            j <= 127,
            1 <= p,
            p as nat == pow2(j),
            rem < den,
            (q as int) < pow2((127 - j) as nat),
            q as int * den as int + rem as int == hi as int * pow2((127 - j) as nat) as int
                + lo as int / pow2((j + 1) as nat) as int,
            pow2(128) == 0x1_0000_0000_0000_0000_0000_0000_0000_0000,
        decreases j,
    {
        let t: u128 = lo / p;
        let bit: u128 = t % 2;
        let ghost q0: u128 = q;
        let ghost rem0: u128 = rem;
        proof {
            // One more bit of the low limb: lo / 2^j is twice the part
            // already taken in, plus this bit.
            lemma_pow2_pos(j);
            lemma_pow2_unfold((j + 1) as nat);
            lemma_div_denominator(lo as int, pow2(j) as int, 2);
            assert(pow2(j) as int * 2 == 2 * pow2(j) as int) by (nonlinear_arith);
            lemma_fundamental_div_mod(t as int, 2);
            lemma_mod_bound(t as int, 2);
            assert(t as int == 2 * (lo as int / pow2((j + 1) as nat) as int) + bit as int);
            lemma_pow2_unfold((128 - j) as nat);
            // The doubled state keeps the division identity.
            assert((2 * q as int + 1) * den as int == 2 * (q as int * den as int) + den as int
                && (2 * q as int) * den as int == 2 * (q as int * den as int))
                by (nonlinear_arith);
            assert(hi as int * pow2((128 - j) as nat) as int == 2 * (hi as int * pow2(
                (127 - j) as nat) as int)) by (nonlinear_arith)
                requires
                    pow2((128 - j) as nat) == 2 * pow2((127 - j) as nat),
            ;
            // The doubled quotient still fits its bound.
            assert((q as int) <= pow2((127 - j) as nat) - 1);
            if j >= 1 {
                lemma_pow2_strictly_increases((128 - j) as nat, 128);
            }
            assert(pow2((128 - j) as nat) <= pow2(128));
            assert(2 * q as int + 1 <= pow2((128 - j) as nat) - 1);
            assert(2 * q as int + 1 <= u128::MAX);
        }
        let qbit: u128;
        let new_rem: u128;
        if rem >= den - rem {
            qbit = 1;
            new_rem = (rem - (den - rem)) + bit;
        } else {
            let cand: u128 = (rem + rem) + bit;
            if cand >= den {
                qbit = 1;
                new_rem = cand - den;
            } else {
                qbit = 0;
                new_rem = cand;
            }
        }
        q = 2 * q + qbit;
        rem = new_rem;
        proof {
            // Taking in the bit kept the identity, one radix step on.
            assert(q as int * den as int + rem as int == 2 * (q0 as int * den as int
                + rem0 as int) + bit as int);
            assert(q as int * den as int + rem as int == hi as int * pow2((128 - j) as nat) as int
                + t as int);
        }
        if p == 1 {
            proof {
                // All 256 bits are in: the division identity plus the
                // remainder bound pin the quotient. The unit p forces
                // the bit index to zero.
                lemma2_to64();
                if j != 0 {
                    lemma_pow2_unfold(j);
                    lemma_pow2_pos((j - 1) as nat);
                    assert(false);
                }
                assert(t as int == lo as int / 1);
                assert(q as int * den as int + rem as int == hi as int * pow2(128) as int
                    + lo as int);
                lemma_fundamental_div_mod_converse(
                    hi as int * pow2(128) as int + lo as int,
                    den as int,
                    q as int,
                    rem as int,
                );
            }
            return Ok(q);
        }
        p = p / 2;
        proof {
            if j == 0 {
                // pow2(0) is one, and the loop would have returned.
                lemma2_to64();
                assert(false);
            }
            lemma_pow2_unfold(j);
            assert(p as nat == pow2((j - 1) as nat)) by {
                lemma_div_multiples_vanish(pow2((j - 1) as nat) as int, 2);
            }
            j = (j - 1) as nat;
        }
    }
}

} // verus!
