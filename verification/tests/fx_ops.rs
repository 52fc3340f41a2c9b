//! Exact values of the fixed-point scalar operations.

use ray_kernel::fx::{fx_div, fx_mul, fx_sqrt, isqrt, HALF, SCALE};

#[test]
fn one_is_the_multiplicative_unit() {
    assert_eq!(fx_mul(SCALE, SCALE), SCALE);
    assert_eq!(fx_mul(SCALE, 12345), 12345);
    assert_eq!(fx_mul(-98765, SCALE), -98765);
}

#[test]
fn half_times_half_is_a_quarter() {
    assert_eq!(fx_mul(HALF, HALF), 16384);
}

#[test]
fn multiplication_rounds_toward_zero_symmetrically() {
    // 0.5 * 0.7 (rounded) = 22937.5 counts, truncated the same way on both
    // sides of zero.
    assert_eq!(fx_mul(HALF, 45875), 22937);
    assert_eq!(fx_mul(-HALF, 45875), -22937);
    assert_eq!(fx_mul(HALF, -45875), -22937);
    assert_eq!(fx_mul(-HALF, -45875), 22937);
}

#[test]
fn division_by_one_and_by_two() {
    assert_eq!(fx_div(SCALE, SCALE), SCALE);
    assert_eq!(fx_div(SCALE, HALF), 2 * SCALE);
    assert_eq!(fx_div(-SCALE, HALF), -2 * SCALE);
    assert_eq!(fx_div(3 * SCALE, 2 * SCALE), 98304);
}

#[test]
fn integer_square_roots_round_down() {
    assert_eq!(isqrt(0), 0);
    assert_eq!(isqrt(1), 1);
    assert_eq!(isqrt(24), 4);
    assert_eq!(isqrt(25), 5);
    assert_eq!(isqrt(1 << 30), 32768);
    assert_eq!(isqrt(u64::MAX as u128), 4294967295);
}

#[test]
fn scalar_square_roots() {
    // sqrt(0.25) = 0.5 and sqrt(1) = 1, exactly representable.
    assert_eq!(fx_sqrt(16384), HALF);
    assert_eq!(fx_sqrt(SCALE), SCALE);
    // sqrt(2) rounded down: 92681 counts = 1.41421...
    assert_eq!(fx_sqrt(2 * SCALE), 92681);
}
