//! Sphere intersection and nearest-hit selection across a scene.

use raytracer::hittable::{update_record_face, update_record_normal, Hittable, RayLocale};
use raytracer::hittablelist::HittableList;
use raytracer::ray::Ray;
use raytracer::sphere::Sphere;
use raytracer::vector::Vector;

fn v(x: i64, y: i64, z: i64) -> Vector {
    Vector { x, y, z }
}

/// A ray from (0, 0, 5) pointing straight down the negative z axis.
fn axial_ray() -> Ray {
    Ray { origin: v(0, 0, 5_000_000), direction: v(0, 0, -1_000_000) }
}

#[test]
fn sphere_hit_axial_unit_radius() {
    // Radius 1: front hit at t = 5 - 1 = 4, outward normal (0, 0, 1).
    let sphere = Sphere { center: v(0, 0, 0), radius: 1_000_000 };
    let rec = sphere.hit(&axial_ray(), 0, i64::MAX).unwrap();
    assert_eq!(rec.t, 4_000_000);
    assert_eq!(rec.p, v(0, 0, 1_000_000));
    assert_eq!(rec.normal, v(0, 0, 1_000_000));
    assert_eq!(rec.front_face, RayLocale::Outside);
}

#[test]
fn sphere_hit_axial_half_radius() {
    // Radius 1/2: front hit at t = 4.5.
    let sphere = Sphere { center: v(0, 0, 0), radius: 500_000 };
    let rec = sphere.hit(&axial_ray(), 0, i64::MAX).unwrap();
    assert_eq!(rec.t, 4_500_000);
    assert_eq!(rec.p, v(0, 0, 500_000));
    assert_eq!(rec.normal, v(0, 0, 1_000_000));
    assert_eq!(rec.front_face, RayLocale::Outside);
}

#[test]
fn sphere_hit_within_upper_bound() {
    // The hit at t = 4 is found when t_max = 4.9 still admits it.
    let sphere = Sphere { center: v(0, 0, 0), radius: 1_000_000 };
    let rec = sphere.hit(&axial_ray(), 0, 4_900_000).unwrap();
    assert_eq!(rec.t, 4_000_000);
}

#[test]
fn sphere_miss_outside_range() {
    // With t_min = 4.5 the near hit at t = 4 is excluded, and t_max = 4.9
    // excludes the far one at t = 6: no hit.
    let sphere = Sphere { center: v(0, 0, 0), radius: 1_000_000 };
    assert!(sphere.hit(&axial_ray(), 4_500_000, 4_900_000).is_none());
}

#[test]
fn sphere_range_bounds_are_strict() {
    // Roots lie at t = 4 and t = 6; both bounds are exclusive.
    let sphere = Sphere { center: v(0, 0, 0), radius: 1_000_000 };
    assert!(sphere.hit(&axial_ray(), 4_000_000, 6_000_000).is_none());
    let rec = sphere.hit(&axial_ray(), 3_999_999, 6_000_000).unwrap();
    assert_eq!(rec.t, 4_000_000);
}

#[test]
fn sphere_hit_from_inside_flips_normal() {
    // From the center of a unit sphere, the geometric normal at the exit
    // point is flipped to oppose the ray, and the face reads Inside.
    let sphere = Sphere { center: v(0, 0, 0), radius: 1_000_000 };
    let r = Ray { origin: v(0, 0, 0), direction: v(0, 0, -1_000_000) };
    let rec = sphere.hit(&r, 0, i64::MAX).unwrap();
    assert_eq!(rec.t, 1_000_000);
    assert_eq!(rec.p, v(0, 0, -1_000_000));
    assert_eq!(rec.front_face, RayLocale::Inside);
    assert_eq!(rec.normal, v(0, 0, 1_000_000));
    // The returned normal opposes the incoming ray.
    assert!(r.direction.dot(rec.normal) <= 0);
}

#[test]
fn nearest_hit_wins_regardless_of_order() {
    // Two overlapping spheres along the axial ray; the nearer hit, at
    // t = 3, must win with either insertion order.
    let far = Sphere { center: v(0, 0, 0), radius: 1_000_000 };
    let near = Sphere { center: v(0, 0, 1_000_000), radius: 1_000_000 };
    let mut world_a = HittableList::new();
    world_a.add(far);
    world_a.add(near);
    let mut world_b = HittableList::new();
    world_b.add(near);
    world_b.add(far);
    let rec_a = world_a.hit(&axial_ray(), 0, i64::MAX).unwrap();
    let rec_b = world_b.hit(&axial_ray(), 0, i64::MAX).unwrap();
    assert_eq!(rec_a.t, 3_000_000);
    assert_eq!(rec_b.t, 3_000_000);
}

#[test]
fn empty_scene_misses() {
    let world = HittableList::new();
    assert!(world.hit(&axial_ray(), 0, i64::MAX).is_none());
}

#[test]
fn cleared_scene_misses() {
    let mut world = HittableList::new();
    world.add(Sphere { center: v(0, 0, 0), radius: 1_000_000 });
    world.clear();
    assert!(world.hit(&axial_ray(), 0, i64::MAX).is_none());
}

#[test]
fn record_face_helpers() {
    let r = axial_ray();
    let against = v(0, 0, 1_000_000);
    let along = v(0, 0, -1_000_000);
    assert_eq!(update_record_face(&r, against), RayLocale::Outside);
    assert_eq!(update_record_face(&r, along), RayLocale::Inside);
    assert_eq!(update_record_normal(&RayLocale::Outside, against), against);
    assert_eq!(update_record_normal(&RayLocale::Inside, along), against);
}
