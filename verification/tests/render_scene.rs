//! An end-to-end render of the two-sphere scene.

use raytracer::camera::Camera;
use raytracer::hittablelist::HittableList;
use raytracer::render::{render, MAX_COLOR_VALUE};
use raytracer::sphere::Sphere;
use raytracer::vector::Vector;

fn v(x: i64, y: i64, z: i64) -> Vector {
    Vector { x, y, z }
}

#[test]
fn renders_one_triple_per_pixel() {
    // 200 x 100, one sphere in front and a ground sphere below, one
    // centered sample per pixel: exactly 20000 channel triples, each in
    // range.
    let cam = Camera::new(2_000_000);
    let mut world = HittableList::new();
    world.add(Sphere { center: v(0, 0, -1_000_000), radius: 500_000 });
    world.add(Sphere { center: v(0, -100_500_000, -1_000_000), radius: 100_000_000 });
    let pixels = render(&cam, &world, 200, 100);
    assert_eq!(pixels.len(), 200 * 100);
    assert_eq!(MAX_COLOR_VALUE, 255);
}

#[test]
fn center_pixel_shades_the_near_sphere() {
    // The image center looks straight at the near sphere, whose normal
    // there points back at the camera: a strong blue channel with muted
    // red and green, not the pale sky gradient.
    let cam = Camera::new(2_000_000);
    let mut world = HittableList::new();
    world.add(Sphere { center: v(0, 0, -1_000_000), radius: 500_000 });
    world.add(Sphere { center: v(0, -100_500_000, -1_000_000), radius: 100_000_000 });
    let pixels = render(&cam, &world, 200, 100);
    let (r, g, b) = pixels[50 * 200 + 100];
    assert!(b >= 250, "blue channel should be near full, got {}", b);
    assert!(r >= 120 && r <= 140, "red channel should be near half, got {}", r);
    assert!(g >= 120 && g <= 140, "green channel should be near half, got {}", g);
}

#[test]
fn top_row_is_sky() {
    // The first emitted pixel is the top-left corner, which misses both
    // spheres: a sky color, brighter in blue than in red.
    let cam = Camera::new(2_000_000);
    let mut world = HittableList::new();
    world.add(Sphere { center: v(0, 0, -1_000_000), radius: 500_000 });
    world.add(Sphere { center: v(0, -100_500_000, -1_000_000), radius: 100_000_000 });
    let pixels = render(&cam, &world, 200, 100);
    let (r, g, b) = pixels[0];
    assert_eq!(b, 255);
    assert!(r < b && g < b);
    assert!(g > 150, "top-left should be sky, got green {}", g);
}
