//! Spheres and the quadratic ray-sphere intersection test.
//!
//! For a ray `O + t·D` and a sphere `(C, r)`, the strike parameters are the
//! roots of `|O + t·D − C|² = r²`. With `oc = O − C`, `a = D·D`,
//! `half_b = oc·D` and `c = oc·oc − r²`, the roots are
//! `(−half_b ∓ sqrt(half_b² − a·c)) / a`; the smaller one is the nearer
//! strike along the ray and is preferred.

use vstd::prelude::*;
use crate::fx::{
    fits_i64, fx_div, fx_div_spec, fx_mul, fx_mul_spec, fx_sqrt, is_sqrt, lemma_fx_div_bound,
    lemma_fx_mul_bound, lemma_sqrt_floor_is, lemma_sqrt_floor_props, lemma_sqrt_lt,
    lemma_trunc_div_mono, sqrt_floor, SCALE,
};
use crate::hittable::{
    is_front_face, lemma_oriented_normal_faces_ray, oriented_normal, HitRecord, Hittable,
};
use crate::ray::{lemma_at_spec_bounded, Ray, POINT_MAX, T_MAX};
use crate::vec3::{bounded, lemma_dot_bound, lemma_len_sq_nonneg, Point3, Vec3, COORD_MAX};

verus! {

/// Largest magnitude of a hit record's normal components. The outward normal
/// is the strike point offset divided by the radius; the division can magnify
/// it up to `SCALE` times.
pub const NORMAL_MAX: i64 = 0x1_0000_0000_0000;

#[derive(Clone, Copy, PartialEq, Eq, Structural, Debug)]
pub struct Sphere {
    pub center: Point3,
    /// Strictly positive; a sphere of vanishing radius has no well-defined
    /// surface normal.
    pub radius: i64,
}

/// The offset from the sphere's center to the ray's origin.
pub open spec fn sphere_oc(s: Sphere, ray: Ray) -> Vec3 {
    ray.origin.sub_spec(s.center)
}

/// The quadratic's leading coefficient `D·D`.
pub open spec fn sphere_a(ray: Ray) -> int {
    ray.direction.len_sq_spec()
}

/// Half the quadratic's linear coefficient, `oc·D`.
pub open spec fn sphere_half_b(s: Sphere, ray: Ray) -> int {
    sphere_oc(s, ray).dot_spec(ray.direction)
}

/// The quadratic's constant coefficient, `oc·oc − r²`.
pub open spec fn sphere_c(s: Sphere, ray: Ray) -> int {
    sphere_oc(s, ray).len_sq_spec() - fx_mul_spec(s.radius as int, s.radius as int)
}

/// The discriminant `half_b² − a·c`; the ray meets the sphere exactly when
/// it is nonnegative.
pub open spec fn sphere_disc(s: Sphere, ray: Ray) -> int {
    fx_mul_spec(sphere_half_b(s, ray), sphere_half_b(s, ray)) - fx_mul_spec(
        sphere_a(ray),
        sphere_c(s, ray),
    )
}

/// The square root of the discriminant, as a scalar rounded down.
pub open spec fn sphere_sqrtd(s: Sphere, ray: Ray) -> int {
    sqrt_floor(sphere_disc(s, ray) * (SCALE as int))
}

/// The smaller root `(−half_b − sqrtd) / a`: the nearer strike.
pub open spec fn sphere_root1(s: Sphere, ray: Ray) -> int {
    fx_div_spec(-sphere_half_b(s, ray) - sphere_sqrtd(s, ray), sphere_a(ray))
}

/// The larger root `(−half_b + sqrtd) / a`: the farther strike.
pub open spec fn sphere_root2(s: Sphere, ray: Ray) -> int {
    fx_div_spec(-sphere_half_b(s, ray) + sphere_sqrtd(s, ray), sphere_a(ray))
}

pub open spec fn in_interval(t: int, t_min: int, t_max: int) -> bool {
    t_min <= t <= t_max
}

/// The record of a strike at parameter `root`: the point reached, and the
/// outward normal `(p − center) / radius` oriented against the ray.
pub open spec fn sphere_record(s: Sphere, ray: Ray, root: int) -> HitRecord {
    let p = ray.at_spec(root);
    let outward = p.sub_spec(s.center).div_scalar_spec(s.radius as int);
    HitRecord {
        p,
        normal: oriented_normal(ray, outward),
        t: root as i64,
        front_face: is_front_face(ray, outward),
    }
}

/// What the sphere's hit query returns: nothing when the discriminant is
/// negative or no root lies in the interval; otherwise the record of the
/// smaller root when it is acceptable, else of the larger.
pub open spec fn sphere_hit_spec(s: Sphere, ray: Ray, t_min: i64, t_max: i64) -> Option<
    HitRecord,
> {
    if sphere_disc(s, ray) < 0 {
        None
    } else if in_interval(sphere_root1(s, ray), t_min as int, t_max as int) {
        Some(sphere_record(s, ray, sphere_root1(s, ray)))
    } else if in_interval(sphere_root2(s, ray), t_min as int, t_max as int) {
        Some(sphere_record(s, ray, sphere_root2(s, ray)))
    } else {
        None
    }
}

/// Bounds on every intermediate quantity of the quadratic, from the
/// well-formedness of the sphere and the ray.
pub proof fn lemma_sphere_coeff_bounds(s: Sphere, ray: Ray)
    requires
        s.wf(),
        ray.wf(),
    ensures
        bounded(sphere_oc(s, ray), 2097152),
        1 <= sphere_a(ray) <= 50331648,
        -100663296 <= sphere_half_b(s, ray) <= 100663296,
        -268435456 <= sphere_c(s, ray) <= 268435456,
        -549755813888 <= sphere_disc(s, ray) <= 549755813888,
        fits_i64(fx_mul_spec(s.radius as int, s.radius as int)),
        fits_i64(
            fx_mul_spec(sphere_half_b(s, ray), sphere_half_b(s, ray)),
        ),
        fits_i64(fx_mul_spec(sphere_a(ray), sphere_c(s, ray))),
{
    let oc = sphere_oc(s, ray);
    let d = ray.direction;
    lemma_dot_bound(d, d, COORD_MAX as int, COORD_MAX as int, 16777216);
    lemma_len_sq_nonneg(d);
    lemma_dot_bound(oc, d, 2097152, COORD_MAX as int, 33554432);
    lemma_dot_bound(oc, oc, 2097152, 2097152, 67108864);
    lemma_fx_mul_bound(s.radius as int, s.radius as int, COORD_MAX as int, COORD_MAX as int, 16777216);
    lemma_fx_mul_bound(sphere_half_b(s, ray), sphere_half_b(s, ray), 100663296, 100663296, 274877906944);
    lemma_fx_mul_bound(sphere_a(ray), sphere_c(s, ray), 50331648, 268435456, 274877906944);
}

/// Bounds on the square root of the discriminant and on both roots.
pub proof fn lemma_sphere_root_bounds(s: Sphere, ray: Ray)
    requires
        s.wf(),
        ray.wf(),
        0 <= sphere_disc(s, ray),
    ensures
        0 <= sphere_sqrtd(s, ray) < 268435456,
        fits_i64(-sphere_half_b(s, ray) - sphere_sqrtd(s, ray)),
        fits_i64(-sphere_half_b(s, ray) + sphere_sqrtd(s, ray)),
        fits_i64(sphere_root1(s, ray)),
        fits_i64(sphere_root2(s, ray)),
        sphere_root1(s, ray) <= sphere_root2(s, ray),
{
    lemma_sphere_coeff_bounds(s, ray);
    let disc = sphere_disc(s, ray);
    let scaled = disc * (SCALE as int);
    assert(scaled <= 549755813888 * 65536) by (nonlinear_arith)
        requires
            0 <= disc <= 549755813888,
            scaled == disc * 65536,
    ;
    lemma_sqrt_floor_props(scaled);
    lemma_sqrt_lt(scaled, 268435456);
    let hb = sphere_half_b(s, ray);
    let sq = sphere_sqrtd(s, ray);
    let a = sphere_a(ray);
    lemma_fx_div_bound(-hb - sq, a, 536870912);
    lemma_fx_div_bound(-hb + sq, a, 536870912);
    lemma_trunc_div_mono((-hb - sq) * (SCALE as int), (-hb + sq) * (SCALE as int), a);
}

/// A record produced by a strike at a bounded parameter is itself bounded:
/// its point within `POINT_MAX`, its normal within `NORMAL_MAX`.
pub open spec fn record_wf(rec: HitRecord) -> bool {
    &&& bounded(rec.p, POINT_MAX as int)
    &&& bounded(rec.normal, NORMAL_MAX as int)
}

/// The strike record at a bounded parameter is bounded, and stores exactly
/// that parameter.
pub proof fn lemma_sphere_record_wf(s: Sphere, ray: Ray, root: int)
    requires
        s.wf(),
        ray.wf(),
        0 <= root <= T_MAX as int,
    ensures
        record_wf(sphere_record(s, ray, root)),
        sphere_record(s, ray, root).t as int == root,
        bounded(
            ray.at_spec(root).sub_spec(s.center).div_scalar_spec(s.radius as int),
            NORMAL_MAX as int,
        ),
{
    lemma_at_spec_bounded(ray, root);
    let p = ray.at_spec(root);
    let diff = p.sub_spec(s.center);
    assert(bounded(diff, 2149580800));
    lemma_fx_div_bound(diff.x as int, s.radius as int, 4294967296);
    lemma_fx_div_bound(diff.y as int, s.radius as int, 4294967296);
    lemma_fx_div_bound(diff.z as int, s.radius as int, 4294967296);
}

/// A successful hit query stores exactly the accepted root, which lies in
/// the query interval, and returns the record of that root.
pub proof fn lemma_sphere_hit_range(
    s: Sphere,
    ray: Ray,
    t_min: i64,
    t_max: i64,
    rec: HitRecord,
)
    requires
        sphere_hit_spec(s, ray, t_min, t_max) == Some(rec),
    ensures
        t_min <= rec.t <= t_max,
        rec == sphere_record(s, ray, rec.t as int),
        rec.t as int == sphere_root1(s, ray) || rec.t as int == sphere_root2(s, ray),
{
}

/// Narrowing the far end of the interval down to (at least) the accepted
/// root does not change what the query returns.
pub proof fn lemma_sphere_hit_narrow(
    s: Sphere,
    ray: Ray,
    t_min: i64,
    t_max: i64,
    cur: i64,
    rec: HitRecord,
)
    requires
        sphere_hit_spec(s, ray, t_min, t_max) == Some(rec),
        rec.t <= cur <= t_max,
    ensures
        sphere_hit_spec(s, ray, t_min, cur) == Some(rec),
{
}

/// A sphere hit query succeeds exactly when the quadratic discriminant is
/// nonnegative and at least one of its roots lies in the query interval.
pub proof fn lemma_hit_iff_root_in_interval(s: Sphere, ray: Ray, t_min: i64, t_max: i64)
    ensures
        sphere_hit_spec(s, ray, t_min, t_max) is Some <==> (0 <= sphere_disc(s, ray) && (
        in_interval(sphere_root1(s, ray), t_min as int, t_max as int) || in_interval(
            sphere_root2(s, ray),
            t_min as int,
            t_max as int,
        ))),
{
}

/// Whenever the hit query succeeds, its record is bounded and is the strike
/// record of the stored parameter.
pub proof fn lemma_sphere_hit_wf(s: Sphere, ray: Ray, t_min: i64, t_max: i64)
    requires
        s.wf(),
        ray.wf(),
        0 <= t_min,
        t_max <= T_MAX,
    ensures
        match sphere_hit_spec(s, ray, t_min, t_max) {
            Some(rec) => t_min <= rec.t <= t_max && record_wf(rec) && rec == sphere_record(
                s,
                ray,
                rec.t as int,
            ),
            None => true,
        },
{
    match sphere_hit_spec(s, ray, t_min, t_max) {
        Some(rec) => {
            lemma_sphere_hit_range(s, ray, t_min, t_max, rec);
            lemma_sphere_record_wf(s, ray, rec.t as int);
        },
        None => {},
    }
}

/// Normal orientation: whenever the hit query succeeds, the record's normal
/// does not point along the ray direction.
pub proof fn lemma_normal_faces_ray(s: Sphere, ray: Ray, t_min: i64, t_max: i64, rec: HitRecord)
    requires
        s.wf(),
        ray.wf(),
        0 <= t_min,
        t_max <= T_MAX,
        sphere_hit_spec(s, ray, t_min, t_max) == Some(rec),
    ensures
        ray.direction.dot_spec(rec.normal) <= 0,
{
    lemma_sphere_hit_range(s, ray, t_min, t_max, rec);
    let root = rec.t as int;
    lemma_sphere_record_wf(s, ray, root);
    let outward = ray.at_spec(root).sub_spec(s.center).div_scalar_spec(s.radius as int);
    lemma_oriented_normal_faces_ray(ray, outward);
}

/// A tangent ray (discriminant exactly zero) has a single root,
/// `−half_b / a`: both branches of the root choice agree, and a successful
/// query stores that root.
pub proof fn lemma_tangent_single_root(s: Sphere, ray: Ray, t_min: i64, t_max: i64)
    requires
        sphere_disc(s, ray) == 0,
    ensures
        sphere_root1(s, ray) == fx_div_spec(-sphere_half_b(s, ray), sphere_a(ray)),
        sphere_root2(s, ray) == sphere_root1(s, ray),
        match sphere_hit_spec(s, ray, t_min, t_max) {
            Some(rec) => rec.t as int == fx_div_spec(-sphere_half_b(s, ray), sphere_a(ray)),
            None => !in_interval(
                fx_div_spec(-sphere_half_b(s, ray), sphere_a(ray)),
                t_min as int,
                t_max as int,
            ),
        },
{
    assert(is_sqrt(0, 0));
    lemma_sqrt_floor_is(0, 0);
}

impl Hittable for Sphere {
    /// A well-formed sphere has a bounded center and a radius of at least
    /// one count.
    open spec fn wf(&self) -> bool {
        &&& self.center.wf()
        &&& 1 <= self.radius <= COORD_MAX
    }

    open spec fn hit_spec(&self, ray: Ray, t_min: i64, t_max: i64) -> Option<HitRecord> {
        sphere_hit_spec(*self, ray, t_min, t_max)
    }

    fn hit(&self, ray: &Ray, t_min: i64, t_max: i64) -> (r: Option<HitRecord>) {
        proof {
            lemma_sphere_coeff_bounds(*self, *ray);
            lemma_dot_bound(
                ray.direction,
                ray.direction,
                COORD_MAX as int,
                COORD_MAX as int,
                16777216,
            );
            lemma_dot_bound(sphere_oc(*self, *ray), ray.direction, 2097152, COORD_MAX as int, 33554432);
            lemma_dot_bound(sphere_oc(*self, *ray), sphere_oc(*self, *ray), 2097152, 2097152, 67108864);
        }
        let oc = ray.origin.sub(self.center);
        let a = Vec3::dot(ray.direction, ray.direction);
        let half_b = Vec3::dot(oc, ray.direction);
        let c = Vec3::dot(oc, oc) - fx_mul(self.radius, self.radius);
        let discriminant = fx_mul(half_b, half_b) - fx_mul(a, c);
        if discriminant < 0 {
            return None;
        }
        proof {
            lemma_sphere_root_bounds(*self, *ray);
        }
        let sqrtd = fx_sqrt(discriminant);
        let mut root = fx_div(-half_b - sqrtd, a);
        if root < t_min || t_max < root {
            root = fx_div(-half_b + sqrtd, a);
            if root < t_min || t_max < root {
                return None;
            }
        }
        proof {
            lemma_sphere_record_wf(*self, *ray, root as int);
        }
        let p = ray.at(root);
        let outward_normal = p.sub(self.center).div_scalar(self.radius);
        proof {
            lemma_dot_bound(
                ray.direction,
                outward_normal,
                COORD_MAX as int,
                NORMAL_MAX as int,
                0x10_0000_0000_0000,
            );
        }
        let mut rec = HitRecord { p, normal: outward_normal, t: root, front_face: false };
        rec.set_face_normal(ray, outward_normal);
        Some(rec)
    }
}

} // verus!
