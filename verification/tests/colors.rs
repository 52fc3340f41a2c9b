//! Color derivation: normal shading on a hit, gradient on a miss.

use ray_kernel::color::{SKY_B, SKY_G, SKY_R};
use ray_kernel::fx::{HALF, SCALE};
use ray_kernel::list::HittableList;
use ray_kernel::ray::Ray;
use ray_kernel::sphere::Sphere;
use ray_kernel::vec3::Vec3;

fn v(x: i64, y: i64, z: i64) -> Vec3 {
    Vec3 { x, y, z }
}

#[test]
fn sky_constants_encode_the_gradient_endpoint() {
    assert_eq!(SKY_R, SCALE / 2);
    // 0.7 is not exactly representable; the constant is 0.7 * 65536 rounded
    // down.
    assert_eq!(SKY_G, 45875);
    assert_eq!(SKY_B, SCALE);
}

#[test]
fn level_ray_blends_white_and_sky_equally() {
    // A direction with zero vertical component gives t = 0.5 in the
    // gradient: each channel is the average of white and sky.
    let world = HittableList::new();
    let r = Ray { origin: v(0, 0, 0), direction: v(SCALE, 0, 0) };
    let c = r.ray_color(&world);
    assert_eq!(c, v(49152, 55705, SCALE));
}

#[test]
fn downward_ray_is_pure_white() {
    // unit y = -1 gives t = 0: the white end of the gradient.
    let world = HittableList::new();
    let r = Ray { origin: v(0, 0, 0), direction: v(0, -SCALE, 0) };
    assert_eq!(r.ray_color(&world), v(SCALE, SCALE, SCALE));
}

#[test]
fn upward_ray_is_pure_sky() {
    // unit y = 1 gives t = 1: the sky end of the gradient.
    let world = HittableList::new();
    let r = Ray { origin: v(0, 0, 0), direction: v(0, SCALE, 0) };
    assert_eq!(r.ray_color(&world), v(SKY_R, SKY_G, SKY_B));
}

#[test]
fn strike_color_encodes_the_unit_normal() {
    // The head-on strike of the standard sphere has normal (0, 0, 1):
    // 0.5 * (normal + (1,1,1)) = (0.5, 0.5, 1).
    let mut world = HittableList::new();
    world.add(Sphere { center: v(0, 0, -SCALE), radius: HALF });
    let r = Ray { origin: v(0, 0, 0), direction: v(0, 0, -SCALE) };
    assert_eq!(r.ray_color(&world), v(HALF, HALF, SCALE));
}
