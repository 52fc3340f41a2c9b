//! Fixed-point scalar arithmetic.
//!
//! A scalar is an `i64` counting units of `1 / SCALE`; `SCALE` itself stands
//! for the real number one. Multiplication and division rescale their exact
//! integer result and round it toward zero, which keeps negation symmetric:
//! rounding toward zero commutes with changing the sign of either operand.
//! The square root rounds down.

use vstd::prelude::*;
use vstd::arithmetic::div_mod::{lemma_div_is_ordered, lemma_div_multiples_vanish, lemma_div_pos_is_pos};

verus! {

/// The scalar one: 2^16 counts of the smallest representable magnitude.
pub const SCALE: i64 = 65536;

/// The scalar one half.
pub const HALF: i64 = 32768;

pub open spec fn fits_i64(x: int) -> bool {
    (i64::MIN as int) <= x <= (i64::MAX as int)
}

/// Quotient of `p` by `q`, rounded toward zero.
pub open spec fn trunc_div(p: int, q: int) -> int
    recommends
        1 <= q,
{
    if p >= 0 {
        p / q
    } else {
        -((-p) / q)
    }
}

/// The product of two scalars, rescaled: the stored form of `(a/SCALE)·(b/SCALE)`.
pub open spec fn fx_mul_spec(a: int, b: int) -> int {
    trunc_div(a * b, SCALE as int)
}

/// The quotient of two scalars, rescaled: the stored form of `(a/SCALE)/(b/SCALE)`.
pub open spec fn fx_div_spec(a: int, b: int) -> int
    recommends
        1 <= b,
{
    trunc_div(a * (SCALE as int), b)
}

/// `r` is the square root of `x`, rounded down.
pub open spec fn is_sqrt(x: int, r: int) -> bool {
    &&& 0 <= r
    &&& r * r <= x
    &&& x < (r + 1) * (r + 1)
}

/// The square root of `x`, rounded down (meaningful for `x >= 0`).
pub open spec fn sqrt_floor(x: int) -> int {
    choose|r: int| is_sqrt(x, r)
}

/// The square root of a nonnegative scalar, rounded down to a scalar:
/// the stored form of `sqrt(x/SCALE)` is `sqrt(x·SCALE)` rounded down.
pub open spec fn fx_sqrt_spec(x: int) -> int {
    sqrt_floor(x * (SCALE as int))
}

/// Rounding toward zero stays within any bound that the exact quotient obeys.
pub proof fn lemma_trunc_div_bound(p: int, q: int, m: int)
    requires
        1 <= q,
        0 <= m,
        -(m * q) <= p <= m * q,
    ensures
        -m <= trunc_div(p, q) <= m,
{
    assert(m * q == q * m) by (nonlinear_arith);
    if p >= 0 {
        lemma_div_pos_is_pos(p, q);
        lemma_div_is_ordered(p, m * q, q);
        lemma_div_multiples_vanish(m, q);
    } else {
        lemma_div_pos_is_pos(-p, q);
        lemma_div_is_ordered(-p, m * q, q);
        lemma_div_multiples_vanish(m, q);
    }
}

/// Rounding toward zero is monotone in the dividend.
pub proof fn lemma_trunc_div_mono(p1: int, p2: int, q: int)
    requires
        1 <= q,
        p1 <= p2,
    ensures
        trunc_div(p1, q) <= trunc_div(p2, q),
{
    if p1 >= 0 {
        lemma_div_is_ordered(p1, p2, q);
    } else if p2 >= 0 {
        lemma_div_pos_is_pos(-p1, q);
        lemma_div_pos_is_pos(p2, q);
    } else {
        lemma_div_is_ordered(-p2, -p1, q);
    }
}

/// Negating one factor negates the rescaled product exactly.
pub proof fn lemma_fx_mul_neg(a: int, b: int)
    ensures
        fx_mul_spec(a, -b) == -fx_mul_spec(a, b),
{
    assert(a * (-b) == -(a * b)) by (nonlinear_arith);
}

/// The square of a scalar is nonnegative.
pub proof fn lemma_fx_square_nonneg(a: int)
    ensures
        0 <= fx_mul_spec(a, a),
{
    assert(0 <= a * a) by (nonlinear_arith);
    lemma_div_pos_is_pos(a * a, SCALE as int);
}

/// A bound on the rescaled product from bounds on the factors.
pub proof fn lemma_fx_mul_bound(a: int, b: int, aa: int, bb: int, m: int)
    requires
        -aa <= a <= aa,
        -bb <= b <= bb,
        0 <= aa,
        0 <= bb,
        aa * bb <= m * (SCALE as int),
        0 <= m,
    ensures
        -m <= fx_mul_spec(a, b) <= m,
{
    assert(-(aa * bb) <= a * b <= aa * bb) by (nonlinear_arith)
        requires
            -aa <= a <= aa,
            -bb <= b <= bb,
            0 <= aa,
            0 <= bb,
    ;
    lemma_trunc_div_bound(a * b, SCALE as int, m);
}

/// A bound on the rescaled quotient from a bound on the dividend, for a
/// divisor of at least one count.
pub proof fn lemma_fx_div_bound(a: int, b: int, aa: int)
    requires
        -aa <= a <= aa,
        1 <= b,
        0 <= aa,
    ensures
        -(aa * (SCALE as int)) <= fx_div_spec(a, b) <= aa * (SCALE as int),
{
    assert(-((aa * (SCALE as int)) * b) <= a * (SCALE as int) <= (aa * (SCALE as int)) * b)
        by (nonlinear_arith)
        requires
            -aa <= a <= aa,
            1 <= b,
            0 <= aa,
    ;
    lemma_trunc_div_bound(a * (SCALE as int), b, aa * (SCALE as int));
}

/// Every nonnegative integer has a square root rounded down.
pub proof fn lemma_sqrt_exists(x: nat)
    ensures
        exists|r: int| is_sqrt(x as int, r),
    decreases x,
{
    if x == 0 {
        assert(is_sqrt(0, 0));
    } else {
        lemma_sqrt_exists((x - 1) as nat);
        let r = choose|r: int| #[trigger] is_sqrt(x - 1, r);
        assert(is_sqrt(x - 1, r));
        if (r + 1) * (r + 1) <= x {
            assert(x < (r + 2) * (r + 2)) by (nonlinear_arith)
                requires
                    0 <= r,
                    (r + 1) * (r + 1) <= x,
                    x - 1 < (r + 1) * (r + 1),
            ;
            assert(is_sqrt(x as int, r + 1));
        } else {
            assert(is_sqrt(x as int, r));
        }
    }
}

/// The square root rounded down is the unique witness of `is_sqrt`.
pub proof fn lemma_sqrt_floor_is(x: int, r: int)
    requires
        is_sqrt(x, r),
    ensures
        sqrt_floor(x) == r,
{
    let r2 = sqrt_floor(x);
    assert(is_sqrt(x, r2));
    assert(r2 == r) by (nonlinear_arith)
        requires
            0 <= r,
            0 <= r2,
            r * r <= x,
            x < (r + 1) * (r + 1),
            r2 * r2 <= x,
            x < (r2 + 1) * (r2 + 1),
    ;
}

/// `sqrt_floor` on a nonnegative argument satisfies `is_sqrt`.
pub proof fn lemma_sqrt_floor_props(x: int)
    requires
        0 <= x,
    ensures
        is_sqrt(x, sqrt_floor(x)),
{
    lemma_sqrt_exists(x as nat);
}

/// A strict upper bound on the square root from one on the square.
pub proof fn lemma_sqrt_lt(x: int, m: int)
    requires
        0 <= x,
        0 <= m,
        x < m * m,
    ensures
        sqrt_floor(x) < m,
{
    lemma_sqrt_floor_props(x);
    let r = sqrt_floor(x);
    assert(r < m) by (nonlinear_arith)
        requires
            0 <= r,
            0 <= m,
            r * r <= x,
            x < m * m,
    ;
}

/// Product of two scalars, rescaled, rounded toward zero.
pub fn fx_mul(a: i64, b: i64) -> (r: i64)
    requires
        fits_i64(fx_mul_spec(a as int, b as int)),
    ensures
        r as int == fx_mul_spec(a as int, b as int),
{
    proof {
        assert(-0x4000_0000_0000_0000_0000_0000_0000_0000
            <= (a as int) * (b as int)
            <= 0x4000_0000_0000_0000_0000_0000_0000_0000) by (nonlinear_arith);
    }
    let p: i128 = (a as i128) * (b as i128);
    if p >= 0 {
        let q: u128 = (p as u128) / (SCALE as u128);
        q as i64
    } else {
        let m: u128 = (-p) as u128;
        let q: u128 = m / (SCALE as u128);
        let qi: i128 = -(q as i128);
        qi as i64
    }
}

/// Quotient of two scalars, rescaled, rounded toward zero. The divisor must
/// be positive.
pub fn fx_div(a: i64, b: i64) -> (r: i64)
    requires
        1 <= b,
        fits_i64(fx_div_spec(a as int, b as int)),
    ensures
        r as int == fx_div_spec(a as int, b as int),
{
    let p: i128 = (a as i128) * (SCALE as i128);
    if p >= 0 {
        let q: u128 = (p as u128) / (b as u128);
        q as i64
    } else {
        let m: u128 = (-p) as u128;
        let q: u128 = m / (b as u128);
        let qi: i128 = -(q as i128);
        qi as i64
    }
}

/// Square root of an integer, rounded down, by bisection.
pub fn isqrt(x: u128) -> (r: u128)
    ensures
        r as int == sqrt_floor(x as int),
        is_sqrt(x as int, r as int),
{
    let mut lo: u128 = 0;
    let mut hi: u128 = 0x1_0000_0000_0000_0000;
    proof {
        assert((x as int) < (hi as int) * (hi as int)) by (nonlinear_arith)
            requires
                hi == 0x1_0000_0000_0000_0000u128,
                x <= u128::MAX,
        ;
    }
    while lo + 1 < hi
        invariant
            lo < hi <= 0x1_0000_0000_0000_0000u128,
            (lo as int) * (lo as int) <= x as int,
            (x as int) < (hi as int) * (hi as int),
        decreases hi - lo,
    {
        let mid: u128 = lo + (hi - lo) / 2;
        proof {
            assert((mid as int) * (mid as int) <= u128::MAX as int) by (nonlinear_arith)
                requires
                    mid < 0x1_0000_0000_0000_0000u128,
            ;
        }
        if mid * mid <= x {
            lo = mid;
        } else {
            hi = mid;
        }
    }
    proof {
        assert(is_sqrt(x as int, lo as int));
        lemma_sqrt_floor_is(x as int, lo as int);
    }
    lo
}

/// Square root of a nonnegative scalar, rounded down.
pub fn fx_sqrt(x: i64) -> (r: i64)
    requires
        0 <= x,
    ensures
        r as int == fx_sqrt_spec(x as int),
        is_sqrt((x as int) * (SCALE as int), r as int),
{
    proof {
        assert(((x as u128) as int) * ((SCALE as u128) as int) <= u128::MAX as int)
            by (nonlinear_arith)
            requires
                (x as u128) <= 0x7fff_ffff_ffff_ffffu128,
                (SCALE as u128) == 65536u128,
        ;
    }
    let scaled: u128 = (x as u128) * (SCALE as u128);
    let r = isqrt(scaled);
    proof {
        assert((scaled as int) < 0x1_0000_0000_0000 * 0x1_0000_0000_0000) by (nonlinear_arith)
            requires
                scaled as int == (x as int) * 65536,
                0 <= x <= 0x7fff_ffff_ffff_ffffi64,
        ;
        lemma_sqrt_lt(scaled as int, 0x1_0000_0000_0000);
    }
    r as i64
}

} // verus!
