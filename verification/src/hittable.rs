//! The hit capability: anything a ray can strike, and the record of a strike.

use vstd::prelude::*;
use crate::fx::{fits_i64, fx_mul_spec, lemma_fx_mul_neg};
use crate::ray::{Ray, T_MAX};
use crate::vec3::{Point3, Vec3};

verus! {

/// Everything known about one ray-surface intersection. Meaningful only as
/// the payload of a successful hit query.
#[derive(Clone, Copy, PartialEq, Eq, Structural, Debug)]
pub struct HitRecord {
    /// The point struck.
    pub p: Point3,
    /// The surface normal at `p`, oriented against the ray (see
    /// `oriented_normal`).
    pub normal: Vec3,
    /// The ray parameter of the strike.
    pub t: i64,
    /// Whether the ray struck the outside of the surface.
    pub front_face: bool,
}

/// The ray strikes the side the outward normal points away from.
pub open spec fn is_front_face(ray: Ray, outward: Vec3) -> bool {
    ray.direction.dot_spec(outward) < 0
}

/// The outward normal, flipped when the ray comes from inside, so that the
/// stored normal always faces against the incoming ray.
pub open spec fn oriented_normal(ray: Ray, outward: Vec3) -> Vec3 {
    if is_front_face(ray, outward) {
        outward
    } else {
        outward.neg_spec()
    }
}

impl HitRecord {
    /// Store `outward` oriented by the front-face rule, leaving point and
    /// parameter alone.
    pub fn set_face_normal(&mut self, r: &Ray, outward_normal: Vec3)
        requires
            fits_i64(fx_mul_spec(r.direction.x as int, outward_normal.x as int)),
            fits_i64(fx_mul_spec(r.direction.y as int, outward_normal.y as int)),
            fits_i64(fx_mul_spec(r.direction.z as int, outward_normal.z as int)),
            fits_i64(
                fx_mul_spec(r.direction.x as int, outward_normal.x as int) + fx_mul_spec(
                    r.direction.y as int,
                    outward_normal.y as int,
                ),
            ),
            fits_i64(r.direction.dot_spec(outward_normal)),
            i64::MIN < outward_normal.x,
            i64::MIN < outward_normal.y,
            i64::MIN < outward_normal.z,
        ensures
            final(self).front_face == is_front_face(*r, outward_normal),
            final(self).normal == oriented_normal(*r, outward_normal),
            final(self).p == old(self).p,
            final(self).t == old(self).t,
    {
        self.front_face = Vec3::dot(r.direction, outward_normal) < 0;
        self.normal = if self.front_face {
            outward_normal
        } else {
            outward_normal.neg()
        };
    }
}

/// The oriented normal never points along the ray: its dot product with the
/// ray direction is never positive.
pub proof fn lemma_oriented_normal_faces_ray(ray: Ray, outward: Vec3)
    requires
        i64::MIN < outward.x,
        i64::MIN < outward.y,
        i64::MIN < outward.z,
    ensures
        ray.direction.dot_spec(oriented_normal(ray, outward)) <= 0,
{
    if !is_front_face(ray, outward) {
        lemma_fx_mul_neg(ray.direction.x as int, outward.x as int);
        lemma_fx_mul_neg(ray.direction.y as int, outward.y as int);
        lemma_fx_mul_neg(ray.direction.z as int, outward.z as int);
    }
}

/// Hit queries are idempotent: any two results of `hit` on identical inputs
/// are the same record, since each equals the same function of the inputs
/// alone — there is no hidden mutable state.
pub proof fn lemma_hit_deterministic<T: Hittable>(
    h: &T,
    ray: Ray,
    t_min: i64,
    t_max: i64,
    r1: Option<HitRecord>,
    r2: Option<HitRecord>,
)
    requires
        r1 == h.hit_spec(ray, t_min, t_max),
        r2 == h.hit_spec(ray, t_min, t_max),
    ensures
        r1 == r2,
{
}

/// Anything that can report whether and where a ray strikes it within a
/// parameter interval.
pub trait Hittable: Sized {
    /// The well-formedness the hit query asks of the surface.
    spec fn wf(&self) -> bool;

    /// What the hit query returns: the nearest acceptable intersection, or
    /// `None` when the ray misses within `[t_min, t_max]`.
    spec fn hit_spec(&self, ray: Ray, t_min: i64, t_max: i64) -> Option<HitRecord>;

    /// Report the intersection of `ray` with this surface at a parameter in
    /// `[t_min, t_max]`, if any. A pure function of its inputs: equal inputs
    /// give equal records.
    fn hit(&self, ray: &Ray, t_min: i64, t_max: i64) -> (r: Option<HitRecord>)
        requires
            self.wf(),
            ray.wf(),
            0 <= t_min,
            t_max <= T_MAX,
        ensures
            r == self.hit_spec(*ray, t_min, t_max),
    ;
}

} // verus!
