//! Three-component vectors over fixed-point scalars.
//!
//! `Vector` is the executable type; its mathematical model is [`Vec3`], a
//! triple of unbounded integers, and every operation states the exact model
//! value it produces. The same type stands for positions and colors, as the
//! aliases [`Point`] and [`Color`] record.

use vstd::prelude::*;
use crate::fixed::{
    fdiv, fixed_div, fixed_mul, fixed_sqrt, fmul, fsqrt, is_sqrt_down, lemma_fdiv_bound,
    lemma_fmul_square_nonneg, lemma_sdiv_bound, lemma_sdiv_exact, sdiv, SCALE,
};

verus! {

/// Largest magnitude allowed for a world coordinate: 200 scene units.
pub const COORD_LIM: i64 = 200_000_000;

/// The mathematical value of a [`Vector`]: exact integer components.
pub struct Vec3 {
    pub x: int,
    pub y: int,
    pub z: int,
}

/// A vector of three fixed-point scalars.
#[derive(Clone, Copy, Debug, PartialEq, Eq, Structural)]
pub struct Vector {
    pub x: i64,
    pub y: i64,
    pub z: i64,
}

/// A color: components stand for red, green and blue in `[0, 1]`.
pub type Color = Vector;

/// A position in space.
pub type Point = Vector;

impl View for Vector {
    type V = Vec3;

    open spec fn view(&self) -> Vec3 {
        Vec3 { x: self.x as int, y: self.y as int, z: self.z as int }
    }
}

pub open spec fn fits_i64(x: int) -> bool {
    i64::MIN <= x <= i64::MAX
}

/// Both components have magnitude at most `b`.
pub open spec fn in_bound(x: int, b: int) -> bool {
    -b <= x <= b
}

/// Every component has magnitude at most `b`.
pub open spec fn v_in_bound(v: Vec3, b: int) -> bool {
    in_bound(v.x, b) && in_bound(v.y, b) && in_bound(v.z, b)
}

pub open spec fn v_neg(a: Vec3) -> Vec3 {
    Vec3 { x: -a.x, y: -a.y, z: -a.z }
}

pub open spec fn v_add(a: Vec3, b: Vec3) -> Vec3 {
    Vec3 { x: a.x + b.x, y: a.y + b.y, z: a.z + b.z }
}

pub open spec fn v_sub(a: Vec3, b: Vec3) -> Vec3 {
    Vec3 { x: a.x - b.x, y: a.y - b.y, z: a.z - b.z }
}

/// Componentwise product with the scalar `t`.
pub open spec fn v_scale(a: Vec3, t: int) -> Vec3 {
    Vec3 { x: fmul(a.x, t), y: fmul(a.y, t), z: fmul(a.z, t) }
}

/// Componentwise quotient by the scalar `t`.
pub open spec fn v_div(a: Vec3, t: int) -> Vec3 {
    Vec3 { x: fdiv(a.x, t), y: fdiv(a.y, t), z: fdiv(a.z, t) }
}

/// Dot product: the fixed-point products of matching components, summed.
pub open spec fn v_dot(a: Vec3, b: Vec3) -> int {
    fmul(a.x, b.x) + fmul(a.y, b.y) + fmul(a.z, b.z)
}

/// Squared length.
pub open spec fn v_lensq(a: Vec3) -> int {
    v_dot(a, a)
}

pub open spec fn v_cross(a: Vec3, b: Vec3) -> Vec3 {
    Vec3 {
        x: fmul(a.y, b.z) - fmul(a.z, b.y),
        y: fmul(a.z, b.x) - fmul(a.x, b.z),
        z: fmul(a.x, b.y) - fmul(a.y, b.x),
    }
}

/// The vector scaled to unit length (rounded toward zero componentwise).
pub open spec fn v_unit(a: Vec3) -> Vec3 {
    v_div(a, fsqrt(v_lensq(a)))
}

pub open spec fn v_neg_fits(a: Vec3) -> bool {
    fits_i64(-a.x) && fits_i64(-a.y) && fits_i64(-a.z)
}

pub open spec fn v_add_fits(a: Vec3, b: Vec3) -> bool {
    fits_i64(a.x + b.x) && fits_i64(a.y + b.y) && fits_i64(a.z + b.z)
}

pub open spec fn v_sub_fits(a: Vec3, b: Vec3) -> bool {
    fits_i64(a.x - b.x) && fits_i64(a.y - b.y) && fits_i64(a.z - b.z)
}

pub open spec fn v_scale_fits(a: Vec3, t: int) -> bool {
    fits_i64(fmul(a.x, t)) && fits_i64(fmul(a.y, t)) && fits_i64(fmul(a.z, t))
}

pub open spec fn v_div_fits(a: Vec3, t: int) -> bool {
    fits_i64(fdiv(a.x, t)) && fits_i64(fdiv(a.y, t)) && fits_i64(fdiv(a.z, t))
}

/// The plain product of the two scalars is small enough that three
/// fixed-point products of this size sum without overflow.
pub open spec fn sprod_ok(x: int, y: int) -> bool {
    -3_000_000_000_000_000_000_000_000 <= x * y <= 3_000_000_000_000_000_000_000_000
}

/// Every componentwise product of the two vectors is within [`sprod_ok`],
/// so dot and cross products cannot overflow.
pub open spec fn v_sprods_ok(a: Vec3, b: Vec3) -> bool {
    &&& sprod_ok(a.x, b.x)
    &&& sprod_ok(a.x, b.y)
    &&& sprod_ok(a.x, b.z)
    &&& sprod_ok(a.y, b.x)
    &&& sprod_ok(a.y, b.y)
    &&& sprod_ok(a.y, b.z)
    &&& sprod_ok(a.z, b.x)
    &&& sprod_ok(a.z, b.y)
    &&& sprod_ok(a.z, b.z)
}

/// A fixed-point product of scalars within [`sprod_ok`] stays within a third
/// of the `i64` range.
pub proof fn lemma_fmul_fits_from_sprod(x: int, y: int)
    requires
        sprod_ok(x, y),
    ensures
        -3_000_000_000_000_000_000 <= fmul(x, y) <= 3_000_000_000_000_000_000,
{
    lemma_sdiv_bound(x * y, SCALE as int, 3_000_000_000_000_000_000_000_000int);
    assert(3_000_000_000_000_000_000int * (SCALE as int) == 3_000_000_000_000_000_000_000_000int);
    lemma_sdiv_exact(3_000_000_000_000_000_000int, SCALE as int);
}

/// Componentwise bounds whose product is small give [`sprod_ok`] on a pair.
pub proof fn lemma_sprod_from_bounds(x: int, y: int, xb: int, yb: int)
    requires
        in_bound(x, xb),
        in_bound(y, yb),
        0 <= xb,
        0 <= yb,
        xb * yb <= 3_000_000_000_000_000_000_000_000,
    ensures
        sprod_ok(x, y),
{
    assert(-(xb * yb) <= x * y <= xb * yb) by (nonlinear_arith)
        requires
            -xb <= x <= xb,
            -yb <= y <= yb,
    ;
}

/// Componentwise bounds whose product is small give [`v_sprods_ok`].
pub proof fn lemma_sprods_from_bounds(a: Vec3, b: Vec3, ab: int, bb: int)
    requires
        v_in_bound(a, ab),
        v_in_bound(b, bb),
        0 <= ab,
        0 <= bb,
        ab * bb <= 3_000_000_000_000_000_000_000_000,
    ensures
        v_sprods_ok(a, b),
{
    lemma_sprod_from_bounds(a.x, b.x, ab, bb);
    lemma_sprod_from_bounds(a.x, b.y, ab, bb);
    lemma_sprod_from_bounds(a.x, b.z, ab, bb);
    lemma_sprod_from_bounds(a.y, b.x, ab, bb);
    lemma_sprod_from_bounds(a.y, b.y, ab, bb);
    lemma_sprod_from_bounds(a.y, b.z, ab, bb);
    lemma_sprod_from_bounds(a.z, b.x, ab, bb);
    lemma_sprod_from_bounds(a.z, b.y, ab, bb);
    lemma_sprod_from_bounds(a.z, b.z, ab, bb);
}

/// A scalar whose square is within [`sprod_ok`] has magnitude well below
/// the `i64` range.
pub proof fn lemma_sprod_self_bound(x: int)
    requires
        sprod_ok(x, x),
    ensures
        in_bound(x, 1_800_000_000_000),
{
    if x > 1_800_000_000_000 || x < -1_800_000_000_000 {
        assert(x * x > 3_000_000_000_000_000_000_000_000) by (nonlinear_arith)
            requires
                x > 1_800_000_000_000 || x < -1_800_000_000_000,
        ;
    }
}

/// A dot product is bounded by three fixed-point products of componentwise
/// bounds.
pub proof fn lemma_v_dot_bound_by(a: Vec3, b: Vec3, ab: int, bb: int)
    requires
        v_in_bound(a, ab),
        v_in_bound(b, bb),
        0 <= ab,
        0 <= bb,
    ensures
        -3 * sdiv(ab * bb, SCALE as int) <= v_dot(a, b) <= 3 * sdiv(ab * bb, SCALE as int),
{
    crate::fixed::lemma_fmul_bound(a.x, b.x, ab, bb);
    crate::fixed::lemma_fmul_bound(a.y, b.y, ab, bb);
    crate::fixed::lemma_fmul_bound(a.z, b.z, ab, bb);
}

/// Negating the right argument negates a dot product.
pub proof fn lemma_v_dot_neg_right(a: Vec3, b: Vec3)
    ensures
        v_dot(a, v_neg(b)) == -v_dot(a, b),
{
    crate::fixed::lemma_fmul_neg_right(a.x, b.x);
    crate::fixed::lemma_fmul_neg_right(a.y, b.y);
    crate::fixed::lemma_fmul_neg_right(a.z, b.z);
}

impl Vector {
    /// The vector with every component negated.
    pub fn neg(self) -> (r: Vector)
        requires
            v_neg_fits(self@),
        ensures
            r@ == v_neg(self@),
    {
        Vector { x: -self.x, y: -self.y, z: -self.z }
    }

    /// Componentwise sum.
    pub fn add(self, other: Vector) -> (r: Vector)
        requires
            v_add_fits(self@, other@),
        ensures
            r@ == v_add(self@, other@),
    {
        Vector { x: self.x + other.x, y: self.y + other.y, z: self.z + other.z }
    }

    /// Componentwise difference.
    pub fn sub(self, other: Vector) -> (r: Vector)
        requires
            v_sub_fits(self@, other@),
        ensures
            r@ == v_sub(self@, other@),
    {
        Vector { x: self.x - other.x, y: self.y - other.y, z: self.z - other.z }
    }

    /// The vector scaled by the fixed-point scalar `term`.
    pub fn mul(self, term: i64) -> (r: Vector)
        requires
            v_scale_fits(self@, term as int),
        ensures
            r@ == v_scale(self@, term as int),
    {
        Vector {
            x: fixed_mul(self.x, term),
            y: fixed_mul(self.y, term),
            z: fixed_mul(self.z, term),
        }
    }

    /// The vector divided by the positive fixed-point scalar `term`.
    pub fn div(self, term: i64) -> (r: Vector)
        requires
            term > 0,
            v_div_fits(self@, term as int),
        ensures
            r@ == v_div(self@, term as int),
    {
        Vector {
            x: fixed_div(self.x, term),
            y: fixed_div(self.y, term),
            z: fixed_div(self.z, term),
        }
    }

    /// Add `other` in place.
    pub fn add_assign(&mut self, other: Vector)
        requires
            v_add_fits(old(self)@, other@),
        ensures
            final(self)@ == v_add(old(self)@, other@),
    {
        *self = Vector { x: self.x + other.x, y: self.y + other.y, z: self.z + other.z };
    }

    /// Scale by `term` in place.
    pub fn mul_assign(&mut self, term: i64)
        requires
            v_scale_fits(old(self)@, term as int),
        ensures
            final(self)@ == v_scale(old(self)@, term as int),
    {
        *self = Vector {
            x: fixed_mul(self.x, term),
            y: fixed_mul(self.y, term),
            z: fixed_mul(self.z, term),
        };
    }

    /// Divide by the positive scalar `term` in place.
    pub fn div_assign(&mut self, term: i64)
        requires
            term > 0,
            v_div_fits(old(self)@, term as int),
        ensures
            final(self)@ == v_div(old(self)@, term as int),
    {
        *self = Vector {
            x: fixed_div(self.x, term),
            y: fixed_div(self.y, term),
            z: fixed_div(self.z, term),
        };
    }

    /// Squared length of the vector.
    pub fn length_squared(&self) -> (r: i64)
        requires
            v_sprods_ok(self@, self@),
        ensures
            r as int == v_lensq(self@),
            0 <= r,
    {
        proof {
            lemma_fmul_fits_from_sprod(self@.x, self@.x);
            lemma_fmul_fits_from_sprod(self@.y, self@.y);
            lemma_fmul_fits_from_sprod(self@.z, self@.z);
            lemma_fmul_square_nonneg(self@.x);
            lemma_fmul_square_nonneg(self@.y);
            lemma_fmul_square_nonneg(self@.z);
        }
        fixed_mul(self.x, self.x) + fixed_mul(self.y, self.y) + fixed_mul(self.z, self.z)
    }

    /// Length of the vector, rounded down.
    fn length(&self) -> (r: i64)
        requires
            v_sprods_ok(self@, self@),
        ensures
            r as int == fsqrt(v_lensq(self@)),
            is_sqrt_down(v_lensq(self@) * (SCALE as int), r as int),
            0 <= r,
    {
        let lensq = self.length_squared();
        fixed_sqrt(lensq)
    }

    /// Dot product with `other`.
    pub fn dot(&self, other: Vector) -> (r: i64)
        requires
            v_sprods_ok(self@, other@),
        ensures
            r as int == v_dot(self@, other@),
    {
        proof {
            lemma_fmul_fits_from_sprod(self@.x, other@.x);
            lemma_fmul_fits_from_sprod(self@.y, other@.y);
            lemma_fmul_fits_from_sprod(self@.z, other@.z);
        }
        fixed_mul(self.x, other.x) + fixed_mul(self.y, other.y) + fixed_mul(self.z, other.z)
    }

    /// Cross product with `other`.
    pub fn cross(&self, other: Vector) -> (r: Vector)
        requires
            v_sprods_ok(self@, other@),
        ensures
            r@ == v_cross(self@, other@),
    {
        proof {
            lemma_fmul_fits_from_sprod(self@.x, other@.x);
            lemma_fmul_fits_from_sprod(self@.x, other@.y);
            lemma_fmul_fits_from_sprod(self@.x, other@.z);
            lemma_fmul_fits_from_sprod(self@.y, other@.x);
            lemma_fmul_fits_from_sprod(self@.y, other@.y);
            lemma_fmul_fits_from_sprod(self@.y, other@.z);
            lemma_fmul_fits_from_sprod(self@.z, other@.x);
            lemma_fmul_fits_from_sprod(self@.z, other@.y);
            lemma_fmul_fits_from_sprod(self@.z, other@.z);
        }
        Vector {
            x: fixed_mul(self.y, other.z) - fixed_mul(self.z, other.y),
            y: fixed_mul(self.z, other.x) - fixed_mul(self.x, other.z),
            z: fixed_mul(self.x, other.y) - fixed_mul(self.y, other.x),
        }
    }

    /// The vector scaled to unit length. The length must be at least one
    /// unit; shorter directions must be scaled up by the caller first.
    pub fn unit_vector(self) -> (r: Vector)
        requires
            v_sprods_ok(self@, self@),
            v_lensq(self@) >= SCALE,
        ensures
            r@ == v_unit(self@),
    {
        let length = self.length();
        proof {
            assert((SCALE as int) * (SCALE as int) <= v_lensq(self@) * (SCALE as int))
                by (nonlinear_arith)
                requires
                    v_lensq(self@) >= SCALE as int,
            ;
            crate::fixed::lemma_sqrt_down_lower(
                v_lensq(self@) * (SCALE as int),
                length as int,
                SCALE as int,
            );
            lemma_sprod_self_bound(self@.x);
            lemma_sprod_self_bound(self@.y);
            lemma_sprod_self_bound(self@.z);
            lemma_fdiv_bound(self@.x, length as int, 1_800_000_000_000int);
            lemma_fdiv_bound(self@.y, length as int, 1_800_000_000_000int);
            lemma_fdiv_bound(self@.z, length as int, 1_800_000_000_000int);
        }
        Vector {
            x: fixed_div(self.x, length),
            y: fixed_div(self.y, length),
            z: fixed_div(self.z, length),
        }
    }
}

/// A unit vector keeps any componentwise bound of its argument, because the
/// divisor is at least one unit.
pub proof fn lemma_v_unit_bound(a: Vec3, m: int)
    requires
        v_lensq(a) >= SCALE,
        v_in_bound(a, m),
        0 <= m,
    ensures
        v_in_bound(v_unit(a), m),
{
    crate::fixed::lemma_sqrt_down_exists(v_lensq(a) * (SCALE as int));
    let len = fsqrt(v_lensq(a));
    assert((SCALE as int) * (SCALE as int) <= v_lensq(a) * (SCALE as int)) by (nonlinear_arith)
        requires
            v_lensq(a) >= SCALE as int,
    ;
    crate::fixed::lemma_sqrt_down_lower(v_lensq(a) * (SCALE as int), len, SCALE as int);
    lemma_fdiv_bound(a.x, len, m);
    lemma_fdiv_bound(a.y, len, m);
    lemma_fdiv_bound(a.z, len, m);
}

} // verus!
