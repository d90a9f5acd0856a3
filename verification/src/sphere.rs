//! Spheres and their analytic ray intersection.

use vstd::prelude::*;
use crate::fixed::{
    fdiv, fmul, fsqrt, lemma_fdiv_bound, lemma_fdiv_bound_general, lemma_fmul_bound,
    lemma_fmul_square_nonneg, lemma_sdiv_const, lemma_sdiv_exact, lemma_sqrt_down_unique,
    lemma_sqrt_down_upper, SCALE,
};
use crate::hittable::{face_of, oriented_normal, HitRec, HitRecord, Hittable, RayLocale};
use crate::ray::{ray_at, Ray, RayModel};
use crate::vector::{
    in_bound, lemma_sprods_from_bounds, lemma_v_dot_bound_by, lemma_v_dot_neg_right, v_div,
    v_dot, v_in_bound, v_lensq, v_sub, Point, Vec3, COORD_LIM,
};

verus! {

/// Smallest radius a scene sphere may have: a hundredth of a unit. Below
/// this, the outward-normal quotient could not be bounded.
pub const RADIUS_MIN: i64 = 10_000;

/// A sphere, fixed in the scene.
#[derive(Clone, Copy, Debug, PartialEq, Eq, Structural)]
pub struct Sphere {
    pub center: Point,
    pub radius: i64,
}

/// The sphere lies within world bounds and its radius is neither degenerate
/// nor oversized.
pub open spec fn sphere_wf(s: Sphere) -> bool {
    &&& v_in_bound(s.center@, COORD_LIM as int)
    &&& RADIUS_MIN <= s.radius <= COORD_LIM
}

/// The hit record the sphere produces at ray parameter `t`: the hit point,
/// the outward normal `(p - center) / radius`, and the normal flipped to
/// oppose the ray when it arrives from inside.
pub open spec fn sphere_hit_record(s: Sphere, r: RayModel, t: int) -> HitRec {
    let p = ray_at(r, t);
    let outward = v_div(v_sub(p, s.center@), s.radius as int);
    let face = face_of(r.direction, outward);
    HitRec { p, normal: oriented_normal(face, outward), t, front_face: face }
}

/// The exact result of intersecting a ray with the sphere: the quadratic
/// `a t^2 + 2 half_b t + c = 0` in fixed-point arithmetic, then the smaller
/// root strictly inside `(t_min, t_max)`, then the larger, else no hit.
pub open spec fn sphere_hit_model(s: Sphere, r: RayModel, t_min: int, t_max: int) -> Option<
    HitRec,
> {
    let oc = v_sub(r.origin, s.center@);
    let a = v_dot(r.direction, r.direction);
    let half_b = v_dot(oc, r.direction);
    let c = v_lensq(oc) - fmul(s.radius as int, s.radius as int);
    let discriminant = fmul(half_b, half_b) - fmul(a, c);
    if discriminant < 0 {
        Option::None
    } else {
        let disc_term = fsqrt(discriminant);
        let first_root = fdiv(-half_b - disc_term, a);
        let second_root = fdiv(-half_b + disc_term, a);
        if t_min < first_root < t_max {
            Option::Some(sphere_hit_record(s, r, first_root))
        } else if t_min < second_root < t_max {
            Option::Some(sphere_hit_record(s, r, second_root))
        } else {
            Option::None
        }
    }
}

/// The normal orientation invariant: every hit's stored normal opposes the
/// incoming ray, and the face marks `Outside` exactly when the ray runs
/// against the geometric outward normal `(p - center) / radius`.
pub proof fn lemma_normal_opposes_ray(s: Sphere, r: RayModel, t_min: int, t_max: int)
    ensures
        sphere_hit_model(s, r, t_min, t_max) matches Some(rec) ==> v_dot(r.direction, rec.normal)
            <= 0,
        sphere_hit_model(s, r, t_min, t_max) matches Some(rec) ==> ((rec.front_face
            == RayLocale::Outside) <==> v_dot(
            r.direction,
            v_div(v_sub(rec.p, s.center@), s.radius as int),
        ) < 0),
{
    match sphere_hit_model(s, r, t_min, t_max) {
        Option::Some(rec) => {
            let outward = v_div(v_sub(rec.p, s.center@), s.radius as int);
            assert(rec.normal == oriented_normal(face_of(r.direction, outward), outward));
            if face_of(r.direction, outward) is Inside {
                lemma_v_dot_neg_right(r.direction, outward);
            }
        },
        Option::None => {},
    }
}

/// The axial hit: a ray from `(0, 0, 5)` straight toward `(0, 0, -1)`
/// meets a sphere of radius `rr` at the origin at `t = 5 - rr` exactly,
/// with unit normal `(0, 0, 1)`, struck from outside. Exactness asks that
/// `rr * rr` be a whole number of scale steps, as it is for radii such as
/// one or one half; for other radii the rounded root may sit one step off.
pub proof fn lemma_axial_sphere_hit(rr: i64, t_min: int, t_max: int)
    requires
        0 < rr < 5 * SCALE,
        (rr * rr) % (SCALE as int) == 0,
        t_min < 5 * (SCALE as int) - rr < t_max,
    ensures
        ({
            let s = Sphere { center: Point { x: 0, y: 0, z: 0 }, radius: rr };
            let r = RayModel {
                origin: Vec3 { x: 0, y: 0, z: 5 * SCALE as int },
                direction: Vec3 { x: 0, y: 0, z: -(SCALE as int) },
            };
            sphere_hit_model(s, r, t_min, t_max) == Option::Some(
                HitRec {
                    p: Vec3 { x: 0, y: 0, z: rr as int },
                    normal: Vec3 { x: 0, y: 0, z: SCALE as int },
                    t: 5 * (SCALE as int) - rr,
                    front_face: RayLocale::Outside,
                },
            )
        }),
{
    let s = Sphere { center: Point { x: 0, y: 0, z: 0 }, radius: rr };
    let r = RayModel {
        origin: Vec3 { x: 0, y: 0, z: 5 * SCALE as int },
        direction: Vec3 { x: 0, y: 0, z: -(SCALE as int) },
    };
    let oc = v_sub(r.origin, s.center@);
    // a = 1, half_b = -5, both exactly.
    assert((-(SCALE as int)) * (-(SCALE as int)) == 1_000_000_000_000int) by (nonlinear_arith);
    assert((5 * SCALE as int) * (-(SCALE as int)) == -5_000_000_000_000int) by (nonlinear_arith);
    assert((5 * SCALE as int) * (5 * SCALE as int) == 25_000_000_000_000int) by (nonlinear_arith);
    lemma_sdiv_const(1_000_000_000_000int, 1_000_000int, 1_000_000int);
    lemma_sdiv_const(-5_000_000_000_000int, 1_000_000int, -5_000_000int);
    lemma_sdiv_const(25_000_000_000_000int, 1_000_000int, 25_000_000int);
    lemma_sdiv_const(0int, 1_000_000int, 0int);
    assert(v_dot(r.direction, r.direction) == SCALE as int);
    assert(v_dot(oc, r.direction) == -5 * SCALE as int);
    // rr * rr is a whole number of scale steps, so c is exact.
    let q2 = (rr as int) * (rr as int) / (SCALE as int);
    vstd::arithmetic::div_mod::lemma_fundamental_div_mod((rr as int) * (rr as int), SCALE as int);
    assert((rr as int) * (rr as int) == (SCALE as int) * q2);
    assert(q2 * (SCALE as int) == (rr as int) * (rr as int)) by (nonlinear_arith)
        requires
            (rr as int) * (rr as int) == (SCALE as int) * q2,
    ;
    assert(q2 >= 0 && (rr as int) * (rr as int) >= 0) by (nonlinear_arith)
        requires
            0 < rr,
            (SCALE as int) * q2 == (rr as int) * (rr as int),
    ;
    assert(fmul(rr as int, rr as int) == q2);
    let c = v_lensq(oc) - fmul(rr as int, rr as int);
    assert(c == 25 * (SCALE as int) - q2);
    // The discriminant collapses to rr^2 / SCALE.
    assert((-5 * SCALE as int) * (-5 * SCALE as int) == 25_000_000_000_000int)
        by (nonlinear_arith);
    assert((SCALE as int) * c == c * (SCALE as int)) by (nonlinear_arith);
    lemma_sdiv_exact(c, SCALE as int);
    assert(fmul(SCALE as int, c) == c);
    let disc = fmul(-5 * SCALE as int, -5 * SCALE as int) - fmul(SCALE as int, c);
    assert(disc == q2);
    // Its square root is exactly rr.
    assert((rr as int) * (rr as int) < (rr as int + 1) * (rr as int + 1)) by (nonlinear_arith)
        requires
            0 < rr,
    ;
    lemma_sqrt_down_unique((rr as int) * (rr as int), rr as int);
    assert(disc * (SCALE as int) == (rr as int) * (rr as int));
    assert(fsqrt(disc) == rr as int);
    // The near root is 5 - rr, exactly.
    lemma_sdiv_exact(5 * (SCALE as int) - rr, SCALE as int);
    assert(fdiv(5 * (SCALE as int) - rr, SCALE as int) == 5 * (SCALE as int) - rr);
    let t0 = 5 * (SCALE as int) - rr;
    // The hit point is (0, 0, rr).
    lemma_sdiv_const(0int * t0, SCALE as int, 0int);
    assert((-(SCALE as int)) * t0 == (-t0) * (SCALE as int)) by (nonlinear_arith);
    lemma_sdiv_exact(-t0, SCALE as int);
    assert(fmul(-(SCALE as int), t0) == -t0);
    let p = ray_at(r, t0);
    assert(p == (Vec3 { x: 0, y: 0, z: rr as int }));
    // The outward normal is (0, 0, 1), and the ray runs against it.
    lemma_sdiv_const(0int * (SCALE as int), rr as int, 0int);
    assert((rr as int) * (SCALE as int) == (SCALE as int) * (rr as int)) by (nonlinear_arith);
    lemma_sdiv_exact(SCALE as int, rr as int);
    assert(fdiv(rr as int, rr as int) == SCALE as int);
    let outward = v_div(v_sub(p, s.center@), rr as int);
    assert(outward == (Vec3 { x: 0, y: 0, z: SCALE as int }));
    assert((-(SCALE as int)) * (SCALE as int) == -1_000_000_000_000int) by (nonlinear_arith);
    lemma_sdiv_const(-1_000_000_000_000int, 1_000_000int, -1_000_000int);
    assert(v_dot(r.direction, outward) == -(SCALE as int));
}

impl Hittable for Sphere {
    open spec fn wf(&self) -> bool {
        sphere_wf(*self)
    }

    open spec fn hit_model(&self, r: RayModel, t_min: int, t_max: int) -> Option<HitRec> {
        sphere_hit_model(*self, r, t_min, t_max)
    }

    #[verifier::rlimit(100)]
    fn hit(&self, r: &Ray, t_min: i64, t_max: i64) -> (res: Option<HitRecord>) {
        proof {
            lemma_sprods_from_bounds(
                r@.direction,
                r@.direction,
                COORD_LIM as int,
                COORD_LIM as int,
            );
        }
        let difference_vector = r.origin.sub(self.center);
        proof {
            assert(v_in_bound(difference_vector@, 400_000_000int));
            lemma_sprods_from_bounds(difference_vector@, r@.direction, 400_000_000int, COORD_LIM as int);
            lemma_sprods_from_bounds(difference_vector@, difference_vector@, 400_000_000int, 400_000_000int);
            // a = |d|^2 is at most 3 * (COORD_LIM^2 / SCALE).
            lemma_v_dot_bound_by(r@.direction, r@.direction, COORD_LIM as int, COORD_LIM as int);
            lemma_sdiv_const(
                (COORD_LIM as int) * (COORD_LIM as int),
                SCALE as int,
                40_000_000_000int,
            );
            // half_b is at most 3 * (400e6 * COORD_LIM / SCALE).
            lemma_v_dot_bound_by(difference_vector@, r@.direction, 400_000_000int, COORD_LIM as int);
            lemma_sdiv_const(400_000_000int * (COORD_LIM as int), SCALE as int, 80_000_000_000int);
            // |oc|^2 is at most 3 * (400e6^2 / SCALE).
            lemma_v_dot_bound_by(difference_vector@, difference_vector@, 400_000_000int, 400_000_000int);
            lemma_sdiv_const(400_000_000int * 400_000_000int, SCALE as int, 160_000_000_000int);
            // radius^2 / SCALE is at most 40e9, and is nonnegative.
            lemma_fmul_bound(self.radius as int, self.radius as int, COORD_LIM as int, COORD_LIM as int);
            lemma_fmul_square_nonneg(self.radius as int);
        }
        let a = r.direction.length_squared();
        let half_b = difference_vector.dot(r.direction);
        let c = difference_vector.length_squared() - crate::fixed::fixed_mul(self.radius, self.radius);
        proof {
            assert(in_bound(a as int, 120_000_000_000int));
            assert(in_bound(half_b as int, 240_000_000_000int));
            assert(in_bound(c as int, 520_000_000_000int));
            // half_b^2 / SCALE and a * c / SCALE are each at most 62.4e15.
            lemma_fmul_bound(half_b as int, half_b as int, 240_000_000_000int, 240_000_000_000int);
            lemma_sdiv_const(
                240_000_000_000int * 240_000_000_000int,
                SCALE as int,
                57_600_000_000_000_000int,
            );
            lemma_fmul_bound(a as int, c as int, 120_000_000_000int, 520_000_000_000int);
            lemma_sdiv_const(
                120_000_000_000int * 520_000_000_000int,
                SCALE as int,
                62_400_000_000_000_000int,
            );
        }
        let discriminant = crate::fixed::fixed_mul(half_b, half_b) - crate::fixed::fixed_mul(a, c);
        if discriminant < 0 {
            return None;
        }
        let disc_term = crate::fixed::fixed_sqrt(discriminant);
        proof {
            assert(350_000_000_000int * 350_000_000_000int == 122_500_000_000_000_000_000_000int);
            lemma_sqrt_down_upper(
                (discriminant as int) * (SCALE as int),
                disc_term as int,
                350_000_000_000int,
            );
            assert(in_bound(-(half_b as int) - disc_term as int, 590_000_000_000int));
            assert(in_bound(-(half_b as int) + disc_term as int, 590_000_000_000int));
            assert(a >= SCALE);
            lemma_fdiv_bound(-(half_b as int) - disc_term as int, a as int, 590_000_000_000int);
            lemma_fdiv_bound(-(half_b as int) + disc_term as int, a as int, 590_000_000_000int);
        }
        let first_root = crate::fixed::fixed_div(-half_b - disc_term, a);
        let second_root = crate::fixed::fixed_div(-half_b + disc_term, a);
        let root: i64 = if first_root < t_max && first_root > t_min {
            first_root
        } else if second_root < t_max && second_root > t_min {
            second_root
        } else {
            return None;
        };

        let t = root;
        let p = r.at(root);
        proof {
            assert(v_in_bound(v_sub(p@, self.center@), 130_200_000_000_000int));
            lemma_fdiv_bound_general(
                p@.x - self.center@.x,
                self.radius as int,
                130_200_000_000_000int,
                RADIUS_MIN as int,
            );
            lemma_fdiv_bound_general(
                p@.y - self.center@.y,
                self.radius as int,
                130_200_000_000_000int,
                RADIUS_MIN as int,
            );
            lemma_fdiv_bound_general(
                p@.z - self.center@.z,
                self.radius as int,
                130_200_000_000_000int,
                RADIUS_MIN as int,
            );
            lemma_sdiv_const(
                130_200_000_000_000int * (SCALE as int),
                RADIUS_MIN as int,
                13_020_000_000_000_000int,
            );
        }
        let outward_normal = p.sub(self.center).div(self.radius);
        proof {
            assert(v_in_bound(outward_normal@, 13_020_000_000_000_000int));
            lemma_sprods_from_bounds(
                r@.direction,
                outward_normal@,
                COORD_LIM as int,
                13_020_000_000_000_000int,
            );
        }
        let front_face = crate::hittable::update_record_face(r, outward_normal);
        let normal = crate::hittable::update_record_normal(&front_face, outward_normal);
        proof {
            if front_face is Inside {
                lemma_v_dot_neg_right(r@.direction, outward_normal@);
            }
        }
        let record = HitRecord { p, t, front_face, normal };
        proof {
            assert(record@ == sphere_hit_record(*self, r@, t as int));
        }
        Some(record)
    }
}

} // verus!
