//! Sphere intersection scenarios.

use ray_kernel::fx::{HALF, SCALE};
use ray_kernel::hittable::Hittable;
use ray_kernel::ray::{Ray, T_MAX};
use ray_kernel::sphere::Sphere;
use ray_kernel::vec3::Vec3;

fn v(x: i64, y: i64, z: i64) -> Vec3 {
    Vec3 { x, y, z }
}

fn unit_sphere_scene() -> (Sphere, Ray) {
    // Sphere center (0, 0, -1), radius 0.5; ray from the origin along -z.
    let s = Sphere { center: v(0, 0, -SCALE), radius: HALF };
    let r = Ray { origin: v(0, 0, 0), direction: v(0, 0, -SCALE) };
    (s, r)
}

#[test]
fn head_on_hit_strikes_the_near_surface() {
    let (s, r) = unit_sphere_scene();
    let rec = s.hit(&r, 0, T_MAX).expect("the ray points straight at the sphere");
    assert_eq!(rec.t, HALF);
    assert_eq!(rec.p, v(0, 0, -HALF));
    assert_eq!(rec.normal, v(0, 0, SCALE));
    assert!(rec.front_face);
}

#[test]
fn perpendicular_ray_misses() {
    // Same sphere; a ray along +y never meets it: negative discriminant.
    let (s, _) = unit_sphere_scene();
    let r = Ray { origin: v(0, 0, 0), direction: v(0, SCALE, 0) };
    assert!(s.hit(&r, 0, T_MAX).is_none());
}

#[test]
fn tangent_ray_yields_the_single_root() {
    // The ray grazes the sphere: discriminant exactly zero, one accepted
    // root, equal to -half_b / a = 1.
    let s = Sphere { center: v(0, 0, -SCALE), radius: HALF };
    let r = Ray { origin: v(HALF, 0, 0), direction: v(0, 0, -SCALE) };
    let rec = s.hit(&r, 0, T_MAX).expect("a tangent strike is still a strike");
    assert_eq!(rec.t, SCALE);
    assert_eq!(rec.p, v(HALF, 0, -SCALE));
    // The grazing contact has a zero dot product, which counts as striking
    // from inside: the outward normal (+x) is flipped.
    assert_eq!(rec.normal, v(-SCALE, 0, 0));
    assert!(!rec.front_face);
}

#[test]
fn interval_excludes_the_near_root() {
    // With t_max below 0.5 the near root is rejected and the far root (1.5)
    // lies outside too.
    let (s, r) = unit_sphere_scene();
    assert!(s.hit(&r, 0, HALF - 1).is_none());
    // With t_min above 0.5 the near root is rejected but the far root at
    // t = 1.5 is accepted, struck from inside.
    let rec = s.hit(&r, SCALE, T_MAX).expect("the far surface is in range");
    assert_eq!(rec.t, SCALE + HALF);
    assert_eq!(rec.p, v(0, 0, -SCALE - HALF));
    assert_eq!(rec.normal, v(0, 0, SCALE));
    assert!(!rec.front_face);
}

#[test]
fn hit_is_a_pure_function_of_its_inputs() {
    let (s, r) = unit_sphere_scene();
    let first = s.hit(&r, 0, T_MAX);
    let second = s.hit(&r, 0, T_MAX);
    assert_eq!(first, second);
}

#[test]
fn ray_from_inside_strikes_the_back_face() {
    // A ray starting at the center leaves through the far surface; the
    // outward normal points along the ray and is flipped.
    let s = Sphere { center: v(0, 0, 0), radius: HALF };
    let r = Ray { origin: v(0, 0, 0), direction: v(0, 0, -SCALE) };
    let rec = s.hit(&r, 0, T_MAX).expect("the ray starts inside the sphere");
    assert_eq!(rec.t, HALF);
    assert_eq!(rec.p, v(0, 0, -HALF));
    assert_eq!(rec.normal, v(0, 0, SCALE));
    assert!(!rec.front_face);
}
