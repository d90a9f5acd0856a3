//! Fixed-point scalar arithmetic.
//!
//! A scalar is an `i64` counting millionths of a scene unit, so `1.0` is the
//! constant [`SCALE`]. Products and quotients are rounded toward zero; the
//! spec functions [`fmul`], [`fdiv`] and [`fsqrt`] state the exact integer
//! each executable operation returns.

use vstd::prelude::*;
use vstd::arithmetic::div_mod::{
    lemma_div_is_ordered, lemma_div_multiples_vanish, lemma_div_multiples_vanish_quotient,
    lemma_div_pos_is_pos,
};

verus! {

/// One scene unit: scalars count millionths.
pub const SCALE: i64 = 1_000_000;

/// One half of a scene unit.
pub const HALF_SCALE: i64 = 500_000;

/// Quotient of `p` by a positive `q`, rounded toward zero.
pub open spec fn sdiv(p: int, q: int) -> int {
    if p >= 0 {
        p / q
    } else {
        -((-p) / q)
    }
}

/// Product of two fixed-point scalars, rounded toward zero.
pub open spec fn fmul(a: int, b: int) -> int {
    sdiv(a * b, SCALE as int)
}

/// Quotient of two fixed-point scalars, rounded toward zero.
pub open spec fn fdiv(a: int, b: int) -> int {
    sdiv(a * (SCALE as int), b)
}

/// `r` is the square root of `x`, rounded down to an integer.
pub open spec fn is_sqrt_down(x: int, r: int) -> bool {
    0 <= r && r * r <= x && x < (r + 1) * (r + 1)
}

/// The square root of `x`, rounded down to an integer.
pub open spec fn sqrt_down(x: int) -> int {
    choose|r: int| is_sqrt_down(x, r)
}

/// Square root of a nonnegative fixed-point scalar, rounded down:
/// the scalar `v` stands for `v / SCALE`, whose root is `sqrt(v * SCALE) / SCALE`.
pub open spec fn fsqrt(v: int) -> int {
    sqrt_down(v * (SCALE as int))
}

/// `x` held into the interval `[lo, hi]`.
pub open spec fn clamp_spec(x: int, lo: int, hi: int) -> int {
    if x < lo {
        lo
    } else if x > hi {
        hi
    } else {
        x
    }
}

/// Rounding toward zero is exact on multiples of the divisor.
pub proof fn lemma_sdiv_exact(k: int, q: int)
    requires
        q > 0,
    ensures
        sdiv(k * q, q) == k,
{
    if k >= 0 {
        assert(k * q >= 0) by (nonlinear_arith)
            requires
                k >= 0,
                q > 0,
        ;
        lemma_div_multiples_vanish(k, q);
        assert(k * q == q * k) by (nonlinear_arith);
    } else {
        assert(k * q < 0) by (nonlinear_arith)
            requires
                k < 0,
                q > 0,
        ;
        lemma_div_multiples_vanish(-k, q);
        assert(-(k * q) == q * (-k)) by (nonlinear_arith);
    }
}

/// A quotient of constants, checked by multiplying back.
pub proof fn lemma_sdiv_const(p: int, q: int, k: int)
    requires
        q > 0,
        p == k * q,
    ensures
        sdiv(p, q) == k,
{
    lemma_sdiv_exact(k, q);
}

/// Rounding toward zero commutes with negation.
pub proof fn lemma_sdiv_neg(p: int, q: int)
    requires
        q > 0,
    ensures
        sdiv(-p, q) == -sdiv(p, q),
{
}

/// A quotient rounded toward zero is bounded by the quotient of a bound
/// on its numerator.
pub proof fn lemma_sdiv_bound(p: int, q: int, m: int)
    requires
        q > 0,
        -m <= p <= m,
    ensures
        -sdiv(m, q) <= sdiv(p, q) <= sdiv(m, q),
{
    if p >= 0 {
        lemma_div_pos_is_pos(p, q);
        lemma_div_is_ordered(p, m, q);
    } else {
        lemma_div_pos_is_pos(-p, q);
        lemma_div_is_ordered(-p, m, q);
    }
    lemma_div_pos_is_pos(m, q);
}

/// A fixed-point product is bounded by the product of bounds on its factors.
pub proof fn lemma_fmul_bound(a: int, b: int, ab: int, bb: int)
    requires
        -ab <= a <= ab,
        -bb <= b <= bb,
    ensures
        -sdiv(ab * bb, SCALE as int) <= fmul(a, b) <= sdiv(ab * bb, SCALE as int),
{
    assert(-(ab * bb) <= a * b <= ab * bb) by (nonlinear_arith)
        requires
            -ab <= a <= ab,
            -bb <= b <= bb,
    ;
    lemma_sdiv_bound(a * b, SCALE as int, ab * bb);
}

/// A fixed-point quotient by a divisor of at least one unit is bounded by
/// a bound on its numerator.
pub proof fn lemma_fdiv_bound(a: int, b: int, ab: int)
    requires
        b >= SCALE,
        -ab <= a <= ab,
        0 <= ab,
    ensures
        -ab <= fdiv(a, b) <= ab,
{
    assert(-(ab * (SCALE as int)) <= a * (SCALE as int) <= ab * (SCALE as int));
    lemma_sdiv_bound(a * (SCALE as int), b, ab * (SCALE as int));
    assert(ab * (SCALE as int) <= ab * b) by (nonlinear_arith)
        requires
            0 <= ab,
            SCALE as int <= b,
    ;
    lemma_div_is_ordered(ab * (SCALE as int), ab * b, b);
    lemma_sdiv_exact(ab, b);
    assert(ab * b == b * ab) by (nonlinear_arith);
}

/// Negating one factor negates a fixed-point product.
pub proof fn lemma_fmul_neg_right(a: int, b: int)
    ensures
        fmul(a, -b) == -fmul(a, b),
{
    assert(a * (-b) == -(a * b)) by (nonlinear_arith);
    lemma_sdiv_neg(a * b, SCALE as int);
}

/// The fixed-point square of a scalar is nonnegative.
pub proof fn lemma_fmul_square_nonneg(a: int)
    ensures
        fmul(a, a) >= 0,
{
    assert(a * a >= 0) by (nonlinear_arith);
    lemma_div_pos_is_pos(a * a, SCALE as int);
}

/// The rounded-down square root is unique.
pub proof fn lemma_sqrt_down_unique(x: int, r: int)
    requires
        is_sqrt_down(x, r),
    ensures
        sqrt_down(x) == r,
{
    assert(exists|s: int| is_sqrt_down(x, s)) by {
        assert(is_sqrt_down(x, r));
    }
    let s = sqrt_down(x);
    assert(is_sqrt_down(x, s));
    if s < r {
        assert((s + 1) * (s + 1) <= r * r) by (nonlinear_arith)
            requires
                0 <= s,
                s < r,
        ;
        assert(false);
    }
    if s > r {
        assert((r + 1) * (r + 1) <= s * s) by (nonlinear_arith)
            requires
                0 <= r,
                r < s,
        ;
        assert(false);
    }
}

/// A rounded-down square root is at least any `b` whose square is below `x`.
pub proof fn lemma_sqrt_down_lower(x: int, r: int, b: int)
    requires
        is_sqrt_down(x, r),
        0 <= b,
        b * b <= x,
    ensures
        b <= r,
{
    if r < b {
        assert((r + 1) * (r + 1) <= b * b) by (nonlinear_arith)
            requires
                0 <= r,
                r < b,
        ;
        assert(false);
    }
}

/// A rounded-down square root is below any `b` whose square is above `x`.
pub proof fn lemma_sqrt_down_upper(x: int, r: int, b: int)
    requires
        is_sqrt_down(x, r),
        0 <= b,
        x < b * b,
    ensures
        r < b,
{
    if b <= r {
        assert(b * b <= r * r) by (nonlinear_arith)
            requires
                0 <= b,
                b <= r,
        ;
        assert(false);
    }
}

/// A rounded-down square root, built by counting up; witness for
/// [`lemma_sqrt_down_exists`].
spec fn sqrt_down_rec(x: nat) -> nat
    decreases x,
{
    if x == 0 {
        0
    } else {
        let r = sqrt_down_rec((x - 1) as nat);
        if (r + 1) * (r + 1) <= x {
            r + 1
        } else {
            r
        }
    }
}

proof fn lemma_sqrt_down_rec_ok(x: nat)
    ensures
        is_sqrt_down(x as int, sqrt_down_rec(x) as int),
    decreases x,
{
    if x > 0 {
        lemma_sqrt_down_rec_ok((x - 1) as nat);
        let r = sqrt_down_rec((x - 1) as nat) as int;
        if (r + 1) * (r + 1) <= x {
            assert((r + 1) * (r + 1) < (r + 2) * (r + 2)) by (nonlinear_arith)
                requires
                    0 <= r,
            ;
        }
    }
}

/// Every nonnegative integer has a rounded-down square root.
pub proof fn lemma_sqrt_down_exists(x: int)
    requires
        0 <= x,
    ensures
        is_sqrt_down(x, sqrt_down(x)),
{
    lemma_sqrt_down_rec_ok(x as nat);
    assert(exists|r: int| is_sqrt_down(x, r)) by {
        assert(is_sqrt_down(x, sqrt_down_rec(x as nat) as int));
    }
}

/// A fixed-point quotient is bounded by a bound on its numerator scaled by
/// a lower bound on its divisor.
pub proof fn lemma_fdiv_bound_general(a: int, b: int, ab: int, bmin: int)
    requires
        0 < bmin <= b,
        -ab <= a <= ab,
    ensures
        -sdiv(ab * (SCALE as int), bmin) <= fdiv(a, b) <= sdiv(ab * (SCALE as int), bmin),
{
    assert(-(ab * (SCALE as int)) <= a * (SCALE as int) <= ab * (SCALE as int));
    lemma_sdiv_bound(a * (SCALE as int), b, ab * (SCALE as int));
    vstd::arithmetic::div_mod::lemma_div_is_ordered_by_denominator(
        ab * (SCALE as int),
        bmin,
        b,
    );
    lemma_div_pos_is_pos(ab * (SCALE as int), b);
}

/// Scaling numerator and divisor by the same positive factor keeps the
/// quotient rounded toward zero.
pub proof fn lemma_sdiv_cancel_factor(a: int, q: int, m: int)
    requires
        q > 0,
        m > 0,
    ensures
        sdiv(a * m, q * m) == sdiv(a, q),
{
    assert(q * m > 0) by (nonlinear_arith)
        requires
            q > 0,
            m > 0,
    ;
    if a >= 0 {
        assert(a * m >= 0) by (nonlinear_arith)
            requires
                a >= 0,
                m > 0,
        ;
        lemma_div_multiples_vanish_quotient(m, a, q);
        assert(m * a == a * m && m * q == q * m) by (nonlinear_arith);
    } else {
        assert(a * m < 0) by (nonlinear_arith)
            requires
                a < 0,
                m > 0,
        ;
        lemma_div_multiples_vanish_quotient(m, -a, q);
        assert(m * (-a) == -(a * m) && m * q == q * m) by (nonlinear_arith);
    }
}

/// Fixed-point multiplication. The result is the exact product of the two
/// scalars, rounded toward zero.
pub fn fixed_mul(a: i64, b: i64) -> (r: i64)
    requires
        i64::MIN <= fmul(a as int, b as int) <= i64::MAX,
    ensures
        r as int == fmul(a as int, b as int),
{
    proof {
        assert(i128::MIN <= (a as int) * (b as int) <= i128::MAX) by (nonlinear_arith);
    }
    let p: i128 = (a as i128) * (b as i128);
    if p >= 0 {
        let q: u128 = (p as u128) / (SCALE as u128);
        proof {
            lemma_div_pos_is_pos(p as int, SCALE as int);
            lemma_div_is_ordered(p as int, i64::MAX as int * SCALE as int + (SCALE as int - 1), SCALE as int);
        }
        q as i64
    } else {
        let m: u128 = (-p) as u128;
        let q: u128 = m / (SCALE as u128);
        proof {
            lemma_div_pos_is_pos(m as int, SCALE as int);
            lemma_div_is_ordered(m as int, -(i64::MIN as int) * (SCALE as int) + (SCALE as int - 1), SCALE as int);
        }
        (-(q as i128)) as i64
    }
}

/// Fixed-point division by a positive scalar. The result is the exact
/// quotient of the two scalars, rounded toward zero.
pub fn fixed_div(a: i64, b: i64) -> (r: i64)
    requires
        b > 0,
        i64::MIN <= fdiv(a as int, b as int) <= i64::MAX,
    ensures
        r as int == fdiv(a as int, b as int),
{
    let p: i128 = (a as i128) * (SCALE as i128);
    if p >= 0 {
        let q: u128 = (p as u128) / (b as u128);
        proof {
            lemma_div_pos_is_pos(p as int, b as int);
        }
        q as i64
    } else {
        let m: u128 = (-p) as u128;
        let q: u128 = m / (b as u128);
        proof {
            lemma_div_pos_is_pos(m as int, b as int);
        }
        (-(q as i128)) as i64
    }
}

/// Quotient of a wide accumulator by a positive count, rounded toward zero.
pub fn int_div(a: i128, b: i64) -> (r: i64)
    requires
        b > 0,
        i128::MIN < a,
        i64::MIN <= sdiv(a as int, b as int) <= i64::MAX,
    ensures
        r as int == sdiv(a as int, b as int),
{
    if a >= 0 {
        let q: u128 = (a as u128) / (b as u128);
        proof {
            lemma_div_pos_is_pos(a as int, b as int);
        }
        q as i64
    } else {
        let m: u128 = (-a) as u128;
        let q: u128 = m / (b as u128);
        proof {
            lemma_div_pos_is_pos(m as int, b as int);
        }
        (-(q as i128)) as i64
    }
}

/// Square root of an integer, rounded down, by bisection.
pub fn isqrt(x: u128) -> (r: u64)
    ensures
        is_sqrt_down(x as int, r as int),
{
    let mut lo: u128 = 0;
    let mut hi: u128 = 0x1_0000_0000_0000_0000;
    while hi - lo > 1
        invariant
            lo < hi <= 0x1_0000_0000_0000_0000,
            (lo as int) * (lo as int) <= x as int,
            (x as int) < (hi as int) * (hi as int),
        decreases hi - lo,
    {
        let mid: u128 = lo + (hi - lo) / 2;
        proof {
            assert((mid as int) * (mid as int) < 0x1_0000_0000_0000_0000_0000_0000_0000_0000int)
                by (nonlinear_arith)
                requires
                    mid < 0x1_0000_0000_0000_0000u128,
            ;
        }
        let sq: u128 = mid * mid;
        if sq <= x {
            lo = mid;
        } else {
            hi = mid;
        }
    }
    lo as u64
}

/// Square root of a nonnegative fixed-point scalar, rounded down.
pub fn fixed_sqrt(v: i64) -> (r: i64)
    requires
        0 <= v,
    ensures
        r as int == fsqrt(v as int),
        is_sqrt_down((v as int) * (SCALE as int), r as int),
        0 <= r,
{
    proof {
        assert((v as int) * (SCALE as int) <= 0x7FFF_FFFF_FFFF_FFFFint * 0xF_4240int)
            by (nonlinear_arith)
            requires
                0 <= v <= 0x7FFF_FFFF_FFFF_FFFFi64,
        ;
    }
    let prod: u128 = (v as u128) * (SCALE as u128);
    let r64: u64 = isqrt(prod);
    proof {
        lemma_sqrt_down_unique(prod as int, r64 as int);
        assert(prod as int == (v as int) * (SCALE as int));
        assert((v as int) * (SCALE as int) < 0x8000_0000_0000_0000int * 0x8000_0000_0000_0000int)
            by (nonlinear_arith)
            requires
                0 <= v <= 0x7FFF_FFFF_FFFF_FFFFi64,
        ;
        lemma_sqrt_down_upper(prod as int, r64 as int, 0x8000_0000_0000_0000int);
    }
    r64 as i64
}

/// `x` held into the interval `[lo, hi]`: below it gives `lo`, above it `hi`.
pub fn clamp(x: i64, lo: i64, hi: i64) -> (r: i64)
    ensures
        r as int == clamp_spec(x as int, lo as int, hi as int),
{
    if x < lo {
        lo
    } else if x > hi {
        hi
    } else {
        x
    }
}

} // verus!
