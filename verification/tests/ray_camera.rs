//! Rays and the viewport math of the camera.

use raytracer::camera::Camera;
use raytracer::ray::Ray;
use raytracer::vector::Vector;

fn v(x: i64, y: i64, z: i64) -> Vector {
    Vector { x, y, z }
}

#[test]
fn ray_at_parametrizes_the_line() {
    let r = Ray { origin: v(1_000_000, 2_000_000, 3_000_000), direction: v(0, 0, -1_000_000) };
    assert_eq!(r.at(0), v(1_000_000, 2_000_000, 3_000_000));
    assert_eq!(r.at(2_500_000), v(1_000_000, 2_000_000, 500_000));
    assert_eq!(r.at(-1_000_000), v(1_000_000, 2_000_000, 4_000_000));
}

#[test]
fn camera_corner_rays() {
    // Aspect ratio 2: viewport 4 x 2, focal length 1, eye at the origin,
    // so the lower-left corner sits at (-2, -1, -1).
    let cam = Camera::new(2_000_000);
    let lower_left = cam.get_ray(0, 0);
    assert_eq!(lower_left.origin, v(0, 0, 0));
    assert_eq!(lower_left.direction, v(-2_000_000, -1_000_000, -1_000_000));
    let upper_right = cam.get_ray(1_000_000, 1_000_000);
    assert_eq!(upper_right.direction, v(2_000_000, 1_000_000, -1_000_000));
}

#[test]
fn camera_center_ray_runs_down_the_axis() {
    let cam = Camera::new(2_000_000);
    let center = cam.get_ray(500_000, 500_000);
    assert_eq!(center.direction, v(0, 0, -1_000_000));
}

#[test]
fn camera_extrapolates_past_the_viewport() {
    // Coordinates beyond [0, 1] are accepted and extrapolate.
    let cam = Camera::new(2_000_000);
    let past = cam.get_ray(2_000_000, -1_000_000);
    assert_eq!(past.direction, v(6_000_000, -3_000_000, -1_000_000));
}
