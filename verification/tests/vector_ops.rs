//! Vector arithmetic on fixed-point scalars (one unit = 1_000_000).

use raytracer::vector::Vector;

fn v(x: i64, y: i64, z: i64) -> Vector {
    Vector { x, y, z }
}

#[test]
fn vector_add() {
    let a = v(1_000_000, 2_000_000, -3_000_000);
    let b = v(500_000, -500_000, 1_500_000);
    assert_eq!(a.add(b), v(1_500_000, 1_500_000, -1_500_000));
}

#[test]
fn vector_sub() {
    let a = v(1_000_000, 2_000_000, 3_000_000);
    let b = v(250_000, 2_000_000, -1_000_000);
    assert_eq!(a.sub(b), v(750_000, 0, 4_000_000));
}

#[test]
fn vector_neg() {
    assert_eq!(v(1, -2, 0).neg(), v(-1, 2, 0));
}

#[test]
fn vector_scalar_mul() {
    // (1.5, -2, 0.25) * 2 = (3, -4, 0.5)
    let a = v(1_500_000, -2_000_000, 250_000);
    assert_eq!(a.mul(2_000_000), v(3_000_000, -4_000_000, 500_000));
}

#[test]
fn vector_scalar_mul_rounds_toward_zero() {
    // 0.000003 * 0.5 = 0.0000015, held to 0.000001; mirrored for the negative.
    assert_eq!(v(3, -3, 0).mul(500_000), v(1, -1, 0));
}

#[test]
fn vector_scalar_div() {
    // (3, -4, 1) / 2 = (1.5, -2, 0.5)
    let a = v(3_000_000, -4_000_000, 1_000_000);
    assert_eq!(a.div(2_000_000), v(1_500_000, -2_000_000, 500_000));
}

#[test]
fn vector_assign_ops() {
    let mut a = v(1_000_000, 0, -1_000_000);
    a.add_assign(v(1_000_000, 2_000_000, 3_000_000));
    assert_eq!(a, v(2_000_000, 2_000_000, 2_000_000));
    a.mul_assign(500_000);
    assert_eq!(a, v(1_000_000, 1_000_000, 1_000_000));
    a.div_assign(4_000_000);
    assert_eq!(a, v(250_000, 250_000, 250_000));
}

#[test]
fn vector_length_squared() {
    // |(0, 3, 4)|^2 = 25
    assert_eq!(v(0, 3_000_000, 4_000_000).length_squared(), 25_000_000);
}

#[test]
fn vector_dot() {
    // (1,2,3) . (4,5,6) = 32
    let a = v(1_000_000, 2_000_000, 3_000_000);
    let b = v(4_000_000, 5_000_000, 6_000_000);
    assert_eq!(a.dot(b), 32_000_000);
}

#[test]
fn vector_cross_axes() {
    // x cross y = z
    let x = v(1_000_000, 0, 0);
    let y = v(0, 1_000_000, 0);
    assert_eq!(x.cross(y), v(0, 0, 1_000_000));
    assert_eq!(y.cross(x), v(0, 0, -1_000_000));
}

#[test]
fn vector_unit() {
    // (0, 3, 4) normalized is (0, 0.6, 0.8), exactly.
    let a = v(0, 3_000_000, 4_000_000);
    assert_eq!(a.unit_vector(), v(0, 600_000, 800_000));
}
