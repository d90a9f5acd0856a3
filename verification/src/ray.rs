//! Rays: an origin and a direction, with parametrized point evaluation.

use vstd::prelude::*;
use crate::fixed::{lemma_fmul_bound, lemma_sdiv_const, SCALE};
use crate::vector::{v_add, v_dot, v_in_bound, v_scale, Point, Vec3, Vector, COORD_LIM};

verus! {

/// Largest ray parameter magnitude the intersection code can produce.
pub const T_LIM: i64 = 600_000_000_000;

/// Largest magnitude of a component of a point on a well-formed ray
/// within [`T_LIM`].
pub const POINT_LIM: i64 = 130_000_000_000_000;

/// The mathematical value of a [`Ray`].
pub struct RayModel {
    pub origin: Vec3,
    pub direction: Vec3,
}

/// A ray `P(t) = origin + direction * t`.
#[derive(Clone, Copy, Debug, PartialEq, Eq, Structural)]
pub struct Ray {
    pub origin: Point,
    pub direction: Vector,
}

impl View for Ray {
    type V = RayModel;

    open spec fn view(&self) -> RayModel {
        RayModel { origin: self.origin@, direction: self.direction@ }
    }
}

/// The point of the ray at parameter `t`.
pub open spec fn ray_at(r: RayModel, t: int) -> Vec3 {
    v_add(r.origin, v_scale(r.direction, t))
}

/// A well-formed ray: origin and direction within world bounds, and a
/// direction of at least unit length, so intersection quotients stay finite.
pub open spec fn ray_wf(r: RayModel) -> bool {
    &&& v_in_bound(r.origin, COORD_LIM as int)
    &&& v_in_bound(r.direction, COORD_LIM as int)
    &&& v_dot(r.direction, r.direction) >= SCALE
}

/// A point of a well-formed ray at a bounded parameter is itself bounded.
pub proof fn lemma_ray_at_bound(r: RayModel, t: int)
    requires
        ray_wf(r),
        -T_LIM <= t <= T_LIM,
    ensures
        v_in_bound(ray_at(r, t), POINT_LIM as int),
{
    lemma_fmul_bound(r.direction.x, t, COORD_LIM as int, T_LIM as int);
    lemma_fmul_bound(r.direction.y, t, COORD_LIM as int, T_LIM as int);
    lemma_fmul_bound(r.direction.z, t, COORD_LIM as int, T_LIM as int);
    assert((COORD_LIM as int) * (T_LIM as int) == 120_000_000_000_000int * (SCALE as int));
    lemma_sdiv_const(
        (COORD_LIM as int) * (T_LIM as int),
        SCALE as int,
        120_000_000_000_000int,
    );
}

impl Ray {
    /// The point of the ray at parameter `t`.
    pub fn at(self, t: i64) -> (p: Vector)
        requires
            ray_wf(self@),
            -T_LIM <= t <= T_LIM,
        ensures
            p@ == ray_at(self@, t as int),
            v_in_bound(p@, POINT_LIM as int),
    {
        proof {
            lemma_ray_at_bound(self@, t as int);
            lemma_fmul_bound(self@.direction.x, t as int, COORD_LIM as int, T_LIM as int);
            lemma_fmul_bound(self@.direction.y, t as int, COORD_LIM as int, T_LIM as int);
            lemma_fmul_bound(self@.direction.z, t as int, COORD_LIM as int, T_LIM as int);
            assert((COORD_LIM as int) * (T_LIM as int) == 120_000_000_000_000int * (SCALE as int));
            lemma_sdiv_const(
                (COORD_LIM as int) * (T_LIM as int),
                SCALE as int,
                120_000_000_000_000int,
            );
        }
        self.origin.add(self.direction.mul(t))
    }
}

} // verus!
