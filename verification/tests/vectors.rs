//! Vector arithmetic on exact fixed-point values.

use ray_kernel::fx::SCALE;
use ray_kernel::vec3::Vec3;

fn v(x: i64, y: i64, z: i64) -> Vec3 {
    Vec3 { x, y, z }
}

#[test]
fn add_sub_neg_are_componentwise() {
    let a = v(SCALE, -2 * SCALE, 3 * SCALE);
    let b = v(4 * SCALE, 5 * SCALE, -6 * SCALE);
    assert_eq!(a.add(b), v(5 * SCALE, 3 * SCALE, -3 * SCALE));
    assert_eq!(a.sub(b), v(-3 * SCALE, -7 * SCALE, 9 * SCALE));
    assert_eq!(a.neg(), v(-SCALE, 2 * SCALE, -3 * SCALE));
}

#[test]
fn scaling_and_dividing_by_scalars() {
    let a = v(SCALE, -2 * SCALE, 3 * SCALE);
    assert_eq!(a.scale(2 * SCALE), v(2 * SCALE, -4 * SCALE, 6 * SCALE));
    assert_eq!(a.div_scalar(2 * SCALE), v(32768, -SCALE, 98304));
}

#[test]
fn dot_product_of_small_integers() {
    let a = v(SCALE, 2 * SCALE, 3 * SCALE);
    let b = v(4 * SCALE, 5 * SCALE, 6 * SCALE);
    // 1*4 + 2*5 + 3*6 = 32
    assert_eq!(Vec3::dot(a, b), 32 * SCALE);
}

#[test]
fn cross_product_of_axes() {
    let x = v(SCALE, 0, 0);
    let y = v(0, SCALE, 0);
    let z = v(0, 0, SCALE);
    assert_eq!(Vec3::cross(x, y), z);
    assert_eq!(Vec3::cross(y, z), x);
    assert_eq!(Vec3::cross(y, x), z.neg());
}

#[test]
fn length_of_a_pythagorean_triple() {
    let a = v(0, 3 * SCALE, 4 * SCALE);
    assert_eq!(a.length_squared(), 25 * SCALE);
    assert_eq!(a.length(), 5 * SCALE);
}

#[test]
fn unit_vector_of_a_pythagorean_triple() {
    let a = v(0, 3 * SCALE, 4 * SCALE);
    // 3/5 = 0.6 and 4/5 = 0.8, rounded toward zero.
    assert_eq!(a.unit_vector(), v(0, 39321, 52428));
    // An axis direction normalizes exactly.
    assert_eq!(v(0, 0, -2 * SCALE).unit_vector(), v(0, 0, -SCALE));
}
