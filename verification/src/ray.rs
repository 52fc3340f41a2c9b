//! Rays: an origin and a direction, and the point reached at a parameter.

use vstd::prelude::*;
use crate::fx::{fits_i64, fx_mul_spec, lemma_fx_mul_bound};
use crate::vec3::{bounded, Point3, Vec3, COORD_MAX};

verus! {

/// Largest ray parameter the traversal contracts accept (1024 units).
pub const T_MAX: i64 = 67108864;

/// Every point a well-formed ray reaches at a parameter within `T_MAX` has
/// coordinates within this magnitude.
pub const POINT_MAX: i64 = 2147483648;

#[derive(Clone, Copy, PartialEq, Eq, Structural, Debug)]
pub struct Ray {
    pub origin: Point3,
    pub direction: Vec3,
}

impl Ray {
    /// A well-formed ray has bounded coordinates and a direction that is not
    /// degenerate: its squared length is at least one count, so that the
    /// intersection quadratic has a positive leading coefficient.
    pub open spec fn wf(self) -> bool {
        &&& self.origin.wf()
        &&& self.direction.wf()
        &&& 1 <= self.direction.len_sq_spec()
    }

    /// The point `origin + t·direction`.
    pub open spec fn at_spec(self, t: int) -> Point3 {
        self.origin.add_spec(self.direction.scale_spec(t))
    }

    pub fn at(&self, t: i64) -> (p: Point3)
        requires
            self.wf(),
            -T_MAX <= t <= T_MAX,
        ensures
            p == self.at_spec(t as int),
            bounded(p, POINT_MAX as int),
    {
        proof {
            lemma_at_spec_bounded(*self, t as int);
        }
        self.origin.add(self.direction.scale(t))
    }
}

/// The point a well-formed ray reaches at a bounded parameter is itself
/// bounded, componentwise.
pub proof fn lemma_at_spec_bounded(ray: Ray, t: int)
    requires
        ray.wf(),
        -(T_MAX as int) <= t <= T_MAX as int,
    ensures
        -1073741824 <= fx_mul_spec(t, ray.direction.x as int) <= 1073741824,
        -1073741824 <= fx_mul_spec(t, ray.direction.y as int) <= 1073741824,
        -1073741824 <= fx_mul_spec(t, ray.direction.z as int) <= 1073741824,
        bounded(ray.at_spec(t), POINT_MAX as int),
{
    lemma_fx_mul_bound(t, ray.direction.x as int, T_MAX as int, COORD_MAX as int, 1073741824);
    lemma_fx_mul_bound(t, ray.direction.y as int, T_MAX as int, COORD_MAX as int, 1073741824);
    lemma_fx_mul_bound(t, ray.direction.z as int, T_MAX as int, COORD_MAX as int, 1073741824);
}

} // verus!
