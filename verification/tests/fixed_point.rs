use facemelt::errors::FacemeltError;
use facemelt::fixed_point::{ceil_div, isqrt, mul_div, wide_div, wide_mul, Rounding};

#[test]
fn isqrt_small_values() {
    assert_eq!(isqrt(0), 0);
    assert_eq!(isqrt(1), 1);
    assert_eq!(isqrt(2), 1);
    assert_eq!(isqrt(3), 1);
    assert_eq!(isqrt(4), 2);
    assert_eq!(isqrt(99), 9);
    assert_eq!(isqrt(100), 10);
    assert_eq!(isqrt(101), 10);
}

#[test]
fn isqrt_large_values() {
    assert_eq!(isqrt(100_000_000), 10_000);
    assert_eq!(isqrt(80_000_000_000_000_000_000_000_000_000), 282_842_712_474_619);
    // The root of the largest 128-bit value is the largest 64-bit one.
    assert_eq!(isqrt(u128::MAX), u64::MAX as u128);
    let m = u64::MAX as u128;
    assert_eq!(isqrt(m * m), m);
    assert_eq!(isqrt(m * m - 1), m - 1);
}

#[test]
fn ceil_div_rounds_up() {
    assert_eq!(ceil_div(10, 3), Ok(4));
    assert_eq!(ceil_div(9, 3), Ok(3));
    assert_eq!(ceil_div(0, 5), Ok(0));
    assert_eq!(ceil_div(1, 1), Ok(1));
    assert_eq!(ceil_div(u128::MAX, 1), Ok(u128::MAX));
}

#[test]
fn ceil_div_zero_divisor() {
    assert_eq!(ceil_div(1, 0), Err(FacemeltError::MathOverflow));
}

#[test]
fn mul_div_rounding_modes() {
    assert_eq!(mul_div(7, 3, 2, Rounding::Floor), Ok(10));
    assert_eq!(mul_div(7, 3, 2, Rounding::Ceil), Ok(11));
    assert_eq!(mul_div(6, 4, 3, Rounding::Floor), Ok(8));
    assert_eq!(mul_div(6, 4, 3, Rounding::Ceil), Ok(8));
}

#[test]
fn mul_div_failure_modes() {
    assert_eq!(mul_div(1, 1, 0, Rounding::Floor), Err(FacemeltError::MathOverflow));
    // The 128-bit intermediate survives, but the quotient leaves 64 bits.
    assert_eq!(mul_div(u64::MAX, u64::MAX, 1, Rounding::Floor), Err(FacemeltError::MathOverflow));
    assert_eq!(mul_div(u64::MAX, 2, 2, Rounding::Floor), Ok(u64::MAX));
}

#[test]
fn wide_mul_exact_limbs() {
    assert_eq!(wide_mul(0, u128::MAX), (0, 0));
    assert_eq!(wide_mul(1, 12345), (0, 12345));
    // 2^64 squared is exactly the high limb's unit.
    let h = 1u128 << 64;
    assert_eq!(wide_mul(h, h), (1, 0));
    // (2^128 - 1)^2 = (2^128 - 2) * 2^128 + 1.
    assert_eq!(wide_mul(u128::MAX, u128::MAX), (u128::MAX - 1, 1));
}

#[test]
fn wide_div_exact_quotients() {
    assert_eq!(wide_div(0, 100, 7), Ok(14));
    assert_eq!(wide_div(1, 0, 2), Ok(1u128 << 127));
    assert_eq!(
        wide_div(1, 5, 3),
        Ok(113_427_455_640_312_821_154_458_202_477_256_070_487)
    );
}

#[test]
fn wide_div_failure_modes() {
    assert_eq!(wide_div(0, 1, 0), Err(FacemeltError::MathOverflow));
    // A quotient of 256-bit size does not fit the 128-bit result.
    assert_eq!(wide_div(7, 0, 7), Err(FacemeltError::MathOverflow));
}

#[test]
fn wide_mul_then_div_round_trips() {
    let a = 0xdead_beef_0123_4567_89ab_cdef_fedc_ba98u128;
    let b = 0x1234_5678_9abc_def0_1122_3344_5566_7788u128;
    let (hi, lo) = wide_mul(a, b);
    assert_eq!(wide_div(hi, lo, b), Ok(a));
    assert_eq!(wide_div(hi, lo, a), Ok(b));
}
