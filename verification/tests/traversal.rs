//! Nearest-hit traversal over a scene of several spheres.

use ray_kernel::fx::{HALF, SCALE};
use ray_kernel::hittable::Hittable;
use ray_kernel::list::HittableList;
use ray_kernel::ray::{Ray, T_MAX};
use ray_kernel::sphere::Sphere;
use ray_kernel::vec3::Vec3;

fn v(x: i64, y: i64, z: i64) -> Vec3 {
    Vec3 { x, y, z }
}

#[test]
fn empty_scene_never_hits() {
    let world = HittableList::new();
    let r = Ray { origin: v(0, 0, 0), direction: v(0, 0, -SCALE) };
    assert!(world.hit(&r, 0, T_MAX).is_none());
}

#[test]
fn traversal_returns_the_nearer_of_two_spheres() {
    // Sphere A at z = -1 and sphere B at z = -5, both of radius 0.5, both on
    // the ray: the strike at t = 0.5 wins over the one at t = 4.5.
    let a = Sphere { center: v(0, 0, -SCALE), radius: HALF };
    let b = Sphere { center: v(0, 0, -5 * SCALE), radius: HALF };
    let r = Ray { origin: v(0, 0, 0), direction: v(0, 0, -SCALE) };

    let b_alone = b.hit(&r, 0, T_MAX).expect("the farther sphere is also on the ray");
    assert_eq!(b_alone.t, 4 * SCALE + HALF);

    let mut world = HittableList::new();
    world.add(a);
    world.add(b);
    let rec = world.hit(&r, 0, T_MAX).expect("both spheres are on the ray");
    assert_eq!(rec.t, HALF);
    assert_eq!(rec.p, v(0, 0, -HALF));
    assert_eq!(rec.normal, v(0, 0, SCALE));
    assert!(rec.front_face);
}

#[test]
fn member_order_does_not_change_the_nearest_hit() {
    let a = Sphere { center: v(0, 0, -SCALE), radius: HALF };
    let b = Sphere { center: v(0, 0, -5 * SCALE), radius: HALF };
    let r = Ray { origin: v(0, 0, 0), direction: v(0, 0, -SCALE) };

    let mut near_first = HittableList::new();
    near_first.add(a);
    near_first.add(b);
    let mut far_first = HittableList::new();
    far_first.add(b);
    far_first.add(a);

    assert_eq!(near_first.hit(&r, 0, T_MAX), far_first.hit(&r, 0, T_MAX));
}

#[test]
fn equal_parameter_ties_go_to_the_first_member() {
    // Both spheres are struck at exactly t = 0.5, with distinguishable
    // records: the ray meets the outside of `outer` but starts inside
    // `enclosing`, so their front-face flags differ.
    let outer = Sphere { center: v(0, 0, -SCALE), radius: HALF };
    let enclosing = Sphere { center: v(0, 0, 0), radius: HALF };
    let r = Ray { origin: v(0, 0, 0), direction: v(0, 0, -SCALE) };

    let rec_outer = outer.hit(&r, 0, T_MAX).expect("head-on strike");
    let rec_enclosing = enclosing.hit(&r, 0, T_MAX).expect("strike from inside");
    assert_eq!(rec_outer.t, rec_enclosing.t);
    assert!(rec_outer.front_face);
    assert!(!rec_enclosing.front_face);

    let mut outer_first = HittableList::new();
    outer_first.add(outer);
    outer_first.add(enclosing);
    let first = outer_first.hit(&r, 0, T_MAX).expect("both members strike");
    assert_eq!(first, rec_outer);

    let mut enclosing_first = HittableList::new();
    enclosing_first.add(enclosing);
    enclosing_first.add(outer);
    let second = enclosing_first.hit(&r, 0, T_MAX).expect("both members strike");
    assert_eq!(second, rec_enclosing);
}

#[test]
fn traversal_is_a_pure_function_of_its_inputs() {
    let a = Sphere { center: v(0, 0, -SCALE), radius: HALF };
    let mut world = HittableList::new();
    world.add(a);
    let r = Ray { origin: v(0, 0, 0), direction: v(0, 0, -SCALE) };
    assert_eq!(world.hit(&r, 0, T_MAX), world.hit(&r, 0, T_MAX));
}
