//! The camera: maps fractional screen coordinates to world-space rays
//! through a rectangular viewport centered on the view axis.

use vstd::prelude::*;
use crate::fixed::{
    fdiv, fmul, lemma_fdiv_bound_general, lemma_fmul_bound, lemma_fmul_square_nonneg,
    lemma_sdiv_cancel_factor, lemma_sdiv_const, sdiv, HALF_SCALE, SCALE,
};
use crate::ray::{ray_wf, Ray};
use crate::vector::{in_bound, v_add, v_div, v_dot, v_in_bound, v_scale, v_sub, Point, Vec3, Vector};

verus! {

/// Distance from the eye to the viewport plane: one unit.
pub const FOCAL_LENGTH: i64 = SCALE;

/// Height of the viewport: two units.
pub const VIEWPORT_HEIGHT: i64 = 2_000_000;

/// Largest accepted aspect ratio (width over height): eight.
pub const ASPECT_MAX: i64 = 8_000_000;

/// Largest magnitude of a screen coordinate handed to `get_ray`; values
/// beyond `[0, 1]` extrapolate past the viewport, as jittered samples may.
pub const UV_LIM: i64 = 4_000_000;

/// Largest magnitude of a component of the eye point.
pub const EYE_LIM: i64 = 10_000_000;

/// Half the largest viewport extent.
pub const VIEW_LIM: i64 = 16_000_000;

/// The mathematical value of a [`Camera`].
pub struct CameraModel {
    pub origin: Vec3,
    pub horizontal: Vec3,
    pub vertical: Vec3,
    pub lower_left_corner: Vec3,
}

/// A camera: an eye point and a viewport, fixed per render.
pub struct Camera {
    origin: Point,
    horizontal: Vector,
    vertical: Vector,
    lower_left_corner: Point,
}

impl View for Camera {
    type V = CameraModel;

    closed spec fn view(&self) -> CameraModel {
        CameraModel {
            origin: self.origin@,
            horizontal: self.horizontal@,
            vertical: self.vertical@,
            lower_left_corner: self.lower_left_corner@,
        }
    }
}

/// The viewport axis of sight, from the eye toward the viewport plane.
pub open spec fn focal_vec() -> Vec3 {
    Vec3 { x: 0, y: 0, z: FOCAL_LENGTH as int }
}

/// The lower-left corner of the viewport: the eye, pushed down the axis of
/// sight and back by half of each viewport extent.
pub open spec fn lower_left_corner_spec(origin: Vec3, horizontal: Vec3, vertical: Vec3) -> Vec3 {
    v_sub(
        v_sub(v_sub(origin, focal_vec()), v_div(horizontal, 2 * SCALE)),
        v_div(vertical, 2 * SCALE),
    )
}

/// A well-formed camera: the viewport spans the two screen axes, its
/// extents and the eye are bounded, and the corner is derived from them.
pub open spec fn camera_wf(c: CameraModel) -> bool {
    &&& v_in_bound(c.origin, EYE_LIM as int)
    &&& in_bound(c.horizontal.x, VIEW_LIM as int)
    &&& c.horizontal.y == 0
    &&& c.horizontal.z == 0
    &&& c.vertical.x == 0
    &&& in_bound(c.vertical.y, VIEW_LIM as int)
    &&& c.vertical.z == 0
    &&& c.lower_left_corner == lower_left_corner_spec(c.origin, c.horizontal, c.vertical)
}

/// The direction of the ray through screen coordinates `(u, v)`.
pub open spec fn camera_ray_dir(c: CameraModel, u: int, v: int) -> Vec3 {
    v_add(
        v_add(v_sub(c.lower_left_corner, c.origin), v_scale(c.horizontal, u)),
        v_scale(c.vertical, v),
    )
}

impl Camera {
    /// A camera with the given aspect ratio (width over height, fixed
    /// point), a viewport of height two, focal length one, and the eye at
    /// the origin.
    pub fn new(aspect_ratio: i64) -> (c: Camera)
        requires
            0 < aspect_ratio <= ASPECT_MAX,
        ensures
            c@.origin == (Vec3 { x: 0, y: 0, z: 0 }),
            c@.horizontal == (Vec3 {
                x: fmul(aspect_ratio as int, VIEWPORT_HEIGHT as int),
                y: 0,
                z: 0,
            }),
            c@.vertical == (Vec3 { x: 0, y: VIEWPORT_HEIGHT as int, z: 0 }),
            camera_wf(c@),
    {
        proof {
            // The width is exactly twice the aspect ratio.
            assert((aspect_ratio as int) * (VIEWPORT_HEIGHT as int) == (2 * aspect_ratio)
                * (SCALE as int));
            lemma_sdiv_const(
                (aspect_ratio as int) * (VIEWPORT_HEIGHT as int),
                SCALE as int,
                2 * aspect_ratio as int,
            );
        }
        let viewport_width = crate::fixed::fixed_mul(aspect_ratio, VIEWPORT_HEIGHT);
        let origin = Point { x: 0, y: 0, z: 0 };
        let horizontal = Vector { x: viewport_width, y: 0, z: 0 };
        let vertical = Vector { x: 0, y: VIEWPORT_HEIGHT, z: 0 };
        let focal_length_vec = Vector { x: 0, y: 0, z: FOCAL_LENGTH };
        proof {
            lemma_fdiv_bound_general(
                horizontal@.x,
                2 * SCALE as int,
                VIEW_LIM as int,
                2 * SCALE as int,
            );
            lemma_fdiv_bound_general(
                vertical@.y,
                2 * SCALE as int,
                VIEW_LIM as int,
                2 * SCALE as int,
            );
            lemma_sdiv_const(
                (VIEW_LIM as int) * (SCALE as int),
                2 * SCALE as int,
                (VIEW_LIM as int) / 2,
            );
        }
        let lower_left_corner = origin.sub(focal_length_vec).sub(horizontal.div(2 * SCALE)).sub(
            vertical.div(2 * SCALE),
        );
        Camera { origin, horizontal, vertical, lower_left_corner }
    }

    /// The ray from the eye through screen coordinates `(u, v)`, where
    /// `(0, 0)` is the lower-left viewport corner and `(1, 1)` the upper
    /// right (both fixed point).
    pub fn get_ray(&self, u: i64, v: i64) -> (r: Ray)
        requires
            camera_wf(self@),
            -UV_LIM <= u <= UV_LIM,
            -UV_LIM <= v <= UV_LIM,
        ensures
            r@.origin == self@.origin,
            r@.direction == camera_ray_dir(self@, u as int, v as int),
            ray_wf(r@),
    {
        proof {
            lemma_fdiv_bound_general(
                self@.horizontal.x,
                2 * SCALE as int,
                VIEW_LIM as int,
                2 * SCALE as int,
            );
            lemma_fdiv_bound_general(
                self@.vertical.y,
                2 * SCALE as int,
                VIEW_LIM as int,
                2 * SCALE as int,
            );
            lemma_sdiv_const(
                (VIEW_LIM as int) * (SCALE as int),
                2 * SCALE as int,
                (VIEW_LIM as int) / 2,
            );
            lemma_fmul_bound(self@.horizontal.x, u as int, VIEW_LIM as int, UV_LIM as int);
            lemma_fmul_bound(self@.horizontal.y, u as int, VIEW_LIM as int, UV_LIM as int);
            lemma_fmul_bound(self@.horizontal.z, u as int, VIEW_LIM as int, UV_LIM as int);
            lemma_fmul_bound(self@.vertical.x, v as int, VIEW_LIM as int, UV_LIM as int);
            lemma_fmul_bound(self@.vertical.y, v as int, VIEW_LIM as int, UV_LIM as int);
            lemma_fmul_bound(self@.vertical.z, v as int, VIEW_LIM as int, UV_LIM as int);
            lemma_sdiv_const(
                (VIEW_LIM as int) * (UV_LIM as int),
                SCALE as int,
                64_000_000int,
            );
        }
        let direction = self.lower_left_corner.sub(self.origin).add(self.horizontal.mul(u)).add(
            self.vertical.mul(v),
        );
        proof {
            // The z component is exactly minus the focal length, so the
            // direction has at least unit length.
            assert(direction@.z == -(FOCAL_LENGTH as int));
            lemma_sdiv_const((SCALE as int) * (SCALE as int), SCALE as int, SCALE as int);
            assert(fmul(-(SCALE as int), -(SCALE as int)) == SCALE as int);
            lemma_fmul_square_nonneg(direction@.x);
            lemma_fmul_square_nonneg(direction@.y);
            assert(v_dot(direction@, direction@) >= SCALE);
        }
        Ray { origin: self.origin, direction }
    }
}

/// The round trip of the viewport math: the ray through `(0, 0)` points at
/// the lower-left corner, the ray through `(1, 1)` at the upper-right
/// corner, and the ray through the screen center runs straight down the
/// axis of sight.
pub proof fn lemma_viewport_corners(c: CameraModel)
    requires
        camera_wf(c),
    ensures
        camera_ray_dir(c, 0, 0) == v_sub(c.lower_left_corner, c.origin),
        camera_ray_dir(c, SCALE as int, SCALE as int) == v_add(
            v_add(v_sub(c.lower_left_corner, c.origin), c.horizontal),
            c.vertical,
        ),
        camera_ray_dir(c, HALF_SCALE as int, HALF_SCALE as int).x == 0,
        camera_ray_dir(c, HALF_SCALE as int, HALF_SCALE as int).y == 0,
        camera_ray_dir(c, HALF_SCALE as int, HALF_SCALE as int).z == -(FOCAL_LENGTH as int),
{
    // u = 0 and u = 1 scale the viewport extents exactly.
    lemma_sdiv_const(0int * (SCALE as int), SCALE as int, 0int);
    lemma_sdiv_exact_components(c.horizontal);
    lemma_sdiv_exact_components(c.vertical);
    // At the center, the half extents cancel against the corner offsets:
    // both are the extent divided by two, rounded the same way.
    lemma_sdiv_cancel_factor(c.horizontal.x, 2, HALF_SCALE as int);
    assert(fmul(c.horizontal.x, HALF_SCALE as int) == sdiv(c.horizontal.x, 2));
    lemma_sdiv_cancel_factor(c.horizontal.x, 2, SCALE as int);
    assert(fdiv(c.horizontal.x, 2 * SCALE as int) == sdiv(c.horizontal.x, 2));
    lemma_sdiv_cancel_factor(c.vertical.y, 2, HALF_SCALE as int);
    lemma_sdiv_cancel_factor(c.vertical.y, 2, SCALE as int);
}

/// Scaling a viewport extent by a whole unit returns it unchanged.
proof fn lemma_sdiv_exact_components(a: Vec3)
    ensures
        v_scale(a, SCALE as int) == a,
        v_scale(a, 0) == (Vec3 { x: 0, y: 0, z: 0 }),
{
    crate::fixed::lemma_sdiv_exact(a.x, SCALE as int);
    crate::fixed::lemma_sdiv_exact(a.y, SCALE as int);
    crate::fixed::lemma_sdiv_exact(a.z, SCALE as int);
}

} // verus!
