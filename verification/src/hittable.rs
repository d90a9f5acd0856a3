//! The hittable contract: can a ray strike the object within a parametric
//! range, and if so, what is the hit record.

use vstd::prelude::*;
use crate::ray::{ray_wf, Ray, RayModel};
use crate::vector::{
    v_dot, v_in_bound, v_neg, v_neg_fits, v_sprods_ok, Point, Vec3, Vector,
};

verus! {

/// Largest magnitude a component of a returned hit normal can have.
pub const NORM_LIM: i64 = 14_000_000_000_000_000;

/// Whether the ray struck the surface from outside or from inside.
#[derive(Clone, Copy, Debug, PartialEq, Eq, Structural)]
pub enum RayLocale {
    Outside,
    Inside,
}

/// The mathematical value of a [`HitRecord`]: exact integer fields.
pub struct HitRec {
    pub p: Vec3,
    pub normal: Vec3,
    pub t: int,
    pub front_face: RayLocale,
}

/// The nearest valid intersection of one ray with one object. The stored
/// normal always opposes the incoming ray; `front_face` records whether the
/// geometric outward normal already did.
#[derive(Clone, Copy, Debug, PartialEq, Eq, Structural)]
pub struct HitRecord {
    pub p: Point,
    pub normal: Vector,
    pub t: i64,
    pub front_face: RayLocale,
}

impl View for HitRecord {
    type V = HitRec;

    open spec fn view(&self) -> HitRec {
        HitRec {
            p: self.p@,
            normal: self.normal@,
            t: self.t as int,
            front_face: self.front_face,
        }
    }
}

/// The model of an optional hit record.
pub open spec fn opt_view(o: Option<HitRecord>) -> Option<HitRec> {
    match o {
        Option::Some(rec) => Option::Some(rec@),
        Option::None => Option::None,
    }
}

/// Which side the ray comes from: `Outside` exactly when it runs against
/// the outward normal.
pub open spec fn face_of(direction: Vec3, outward_normal: Vec3) -> RayLocale {
    if v_dot(direction, outward_normal) < 0 {
        RayLocale::Outside
    } else {
        RayLocale::Inside
    }
}

/// The stored normal: the outward normal, flipped when the ray comes from
/// inside, so that it always opposes the ray.
pub open spec fn oriented_normal(front_face: RayLocale, outward_normal: Vec3) -> Vec3 {
    match front_face {
        RayLocale::Outside => outward_normal,
        RayLocale::Inside => v_neg(outward_normal),
    }
}

/// Which side of the surface the ray comes from.
pub fn update_record_face(ray: &Ray, outward_normal: Vector) -> (f: RayLocale)
    requires
        v_sprods_ok(ray@.direction, outward_normal@),
    ensures
        f == face_of(ray@.direction, outward_normal@),
{
    match ray.direction.dot(outward_normal) < 0 {
        true => RayLocale::Outside,
        false => RayLocale::Inside,
    }
}

/// The normal to store: flipped to oppose the incoming ray.
pub fn update_record_normal(front_face: &RayLocale, outward_normal: Vector) -> (n: Vector)
    requires
        v_neg_fits(outward_normal@),
    ensures
        n@ == oriented_normal(*front_face, outward_normal@),
{
    match front_face {
        RayLocale::Outside => outward_normal,
        RayLocale::Inside => outward_normal.neg(),
    }
}

/// Anything a ray can strike. `hit_model` is the exact mathematical result
/// of `hit`, and every hit lies strictly inside the queried range, carries a
/// bounded normal, and that normal opposes the incoming ray.
pub trait Hittable {
    /// The object lies within world bounds.
    spec fn wf(&self) -> bool;

    /// The exact result of `hit` on the model values.
    spec fn hit_model(&self, r: RayModel, t_min: int, t_max: int) -> Option<HitRec>;

    /// The nearest intersection with parameter strictly inside
    /// `(t_min, t_max)`, or `None` when there is none.
    fn hit(&self, r: &Ray, t_min: i64, t_max: i64) -> (res: Option<HitRecord>)
        requires
            self.wf(),
            ray_wf(r@),
        ensures
            opt_view(res) == self.hit_model(r@, t_min as int, t_max as int),
            res matches Some(rec) ==> t_min < rec.t < t_max,
            res matches Some(rec) ==> v_in_bound(rec@.normal, NORM_LIM as int),
            res matches Some(rec) ==> v_dot(r@.direction, rec@.normal) <= 0,
    ;
}

} // verus!
