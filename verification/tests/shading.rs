//! Shading: the sky gradient, normal shading, sampling and channel output.

use raytracer::camera::Camera;
use raytracer::hittablelist::HittableList;
use raytracer::ray::Ray;
use raytracer::render::{color_channels, pixel_color, ray_color};
use raytracer::sphere::Sphere;
use raytracer::vector::Vector;

fn v(x: i64, y: i64, z: i64) -> Vector {
    Vector { x, y, z }
}

#[test]
fn sky_straight_up_is_sky_blue() {
    let world = HittableList::new();
    let r = Ray { origin: v(0, 0, 0), direction: v(0, 1_000_000, 0) };
    assert_eq!(ray_color(&r, &world), v(500_000, 700_000, 1_000_000));
}

#[test]
fn sky_straight_down_is_white() {
    let world = HittableList::new();
    let r = Ray { origin: v(0, 0, 0), direction: v(0, -1_000_000, 0) };
    assert_eq!(ray_color(&r, &world), v(1_000_000, 1_000_000, 1_000_000));
}

#[test]
fn hit_shades_the_normal() {
    // The axial hit has normal (0, 0, 1); shading maps it to (0.5, 0.5, 1).
    let mut world = HittableList::new();
    world.add(Sphere { center: v(0, 0, 0), radius: 1_000_000 });
    let r = Ray { origin: v(0, 0, 5_000_000), direction: v(0, 0, -1_000_000) };
    assert_eq!(ray_color(&r, &world), v(500_000, 500_000, 1_000_000));
}

#[test]
fn channels_scale_and_hold_the_range() {
    // 1.0 is held to 0.999 and maps to 255; 0.5 maps to 128; negative
    // values are held up to zero.
    let white = v(1_000_000, 500_000, -250_000);
    assert_eq!(color_channels(&white), (255, 128, 0));
}

#[test]
fn channels_of_exact_bounds() {
    assert_eq!(color_channels(&v(0, 999_000, 2_000_000)), (0, 255, 255));
}

#[test]
fn equal_samples_average_to_one_sample() {
    // Three identical centered samples give exactly the single-sample
    // color for that pixel.
    let cam = Camera::new(2_000_000);
    let mut world = HittableList::new();
    world.add(Sphere { center: v(0, 0, -1_000_000), radius: 500_000 });
    let one = vec![(0i64, 0i64)];
    let three = vec![(0i64, 0i64), (0i64, 0i64), (0i64, 0i64)];
    let single = pixel_color(&cam, &world, 100, 50, 200, 100, &one);
    let averaged = pixel_color(&cam, &world, 100, 50, 200, 100, &three);
    assert_eq!(averaged, single);
}

#[test]
fn jitter_moves_the_sample() {
    // A jitter of nearly a pixel lands elsewhere than the centered sample.
    let cam = Camera::new(2_000_000);
    let mut world = HittableList::new();
    world.add(Sphere { center: v(0, 0, -1_000_000), radius: 500_000 });
    let centered = pixel_color(&cam, &world, 60, 50, 200, 100, &vec![(0i64, 0i64)]);
    let nudged = pixel_color(&cam, &world, 60, 50, 200, 100, &vec![(999_999i64, 999_999i64)]);
    assert_ne!(centered, nudged);
}
