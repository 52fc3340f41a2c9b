//! Three-component vectors over fixed-point scalars.
//!
//! Operations produce new values; nothing is aliased. Each executable
//! operation returns exactly the value of its specification function, and
//! asks of its caller only that the exact result fit in the scalar type.

use vstd::prelude::*;
use crate::fx::{
    fits_i64, fx_div, fx_div_spec, fx_mul, fx_mul_spec, fx_sqrt, fx_sqrt_spec,
    lemma_fx_div_bound, lemma_fx_mul_bound, lemma_fx_square_nonneg, lemma_sqrt_floor_props,
    SCALE,
};

verus! {

/// Largest coordinate magnitude the geometric contracts accept (16 units).
pub const COORD_MAX: i64 = 1048576;

#[derive(Clone, Copy, PartialEq, Eq, Structural, Debug)]
pub struct Vec3 {
    pub x: i64,
    pub y: i64,
    pub z: i64,
}

pub type Point3 = Vec3;

pub type Color = Vec3;

/// Every component of `v` lies within `m` in magnitude.
pub open spec fn bounded(v: Vec3, m: int) -> bool {
    &&& -m <= v.x as int <= m
    &&& -m <= v.y as int <= m
    &&& -m <= v.z as int <= m
}

impl Vec3 {
    /// A well-formed vector keeps every coordinate within `COORD_MAX`.
    pub open spec fn wf(self) -> bool {
        bounded(self, COORD_MAX as int)
    }

    pub open spec fn add_spec(self, o: Vec3) -> Vec3 {
        Vec3 {
            x: (self.x + o.x) as i64,
            y: (self.y + o.y) as i64,
            z: (self.z + o.z) as i64,
        }
    }

    pub open spec fn sub_spec(self, o: Vec3) -> Vec3 {
        Vec3 {
            x: (self.x - o.x) as i64,
            y: (self.y - o.y) as i64,
            z: (self.z - o.z) as i64,
        }
    }

    pub open spec fn neg_spec(self) -> Vec3 {
        Vec3 { x: (-self.x) as i64, y: (-self.y) as i64, z: (-self.z) as i64 }
    }

    /// The vector scaled by the scalar `s`.
    pub open spec fn scale_spec(self, s: int) -> Vec3 {
        Vec3 {
            x: fx_mul_spec(s, self.x as int) as i64,
            y: fx_mul_spec(s, self.y as int) as i64,
            z: fx_mul_spec(s, self.z as int) as i64,
        }
    }

    /// The vector divided by the positive scalar `s`.
    pub open spec fn div_scalar_spec(self, s: int) -> Vec3
        recommends
            1 <= s,
    {
        Vec3 {
            x: fx_div_spec(self.x as int, s) as i64,
            y: fx_div_spec(self.y as int, s) as i64,
            z: fx_div_spec(self.z as int, s) as i64,
        }
    }

    pub open spec fn dot_spec(self, o: Vec3) -> int {
        fx_mul_spec(self.x as int, o.x as int) + fx_mul_spec(self.y as int, o.y as int)
            + fx_mul_spec(self.z as int, o.z as int)
    }

    pub open spec fn len_sq_spec(self) -> int {
        self.dot_spec(self)
    }

    /// The Euclidean length, rounded down to a scalar.
    pub open spec fn len_spec(self) -> int {
        fx_sqrt_spec(self.len_sq_spec())
    }

    /// The vector rescaled to unit length (up to rounding).
    pub open spec fn unit_spec(self) -> Vec3
        recommends
            1 <= self.len_spec(),
    {
        self.div_scalar_spec(self.len_spec())
    }

    pub open spec fn cross_spec(self, o: Vec3) -> Vec3 {
        Vec3 {
            x: (fx_mul_spec(self.y as int, o.z as int) - fx_mul_spec(
                self.z as int,
                o.y as int,
            )) as i64,
            y: (fx_mul_spec(self.z as int, o.x as int) - fx_mul_spec(
                self.x as int,
                o.z as int,
            )) as i64,
            z: (fx_mul_spec(self.x as int, o.y as int) - fx_mul_spec(
                self.y as int,
                o.x as int,
            )) as i64,
        }
    }

    pub fn add(self, o: Vec3) -> (r: Vec3)
        requires
            fits_i64(self.x + o.x),
            fits_i64(self.y + o.y),
            fits_i64(self.z + o.z),
        ensures
            r == self.add_spec(o),
    {
        Vec3 { x: self.x + o.x, y: self.y + o.y, z: self.z + o.z }
    }

    pub fn sub(self, o: Vec3) -> (r: Vec3)
        requires
            fits_i64(self.x - o.x),
            fits_i64(self.y - o.y),
            fits_i64(self.z - o.z),
        ensures
            r == self.sub_spec(o),
    {
        Vec3 { x: self.x - o.x, y: self.y - o.y, z: self.z - o.z }
    }

    pub fn neg(self) -> (r: Vec3)
        requires
            i64::MIN < self.x,
            i64::MIN < self.y,
            i64::MIN < self.z,
        ensures
            r == self.neg_spec(),
    {
        Vec3 { x: -self.x, y: -self.y, z: -self.z }
    }

    pub fn scale(self, s: i64) -> (r: Vec3)
        requires
            fits_i64(fx_mul_spec(s as int, self.x as int)),
            fits_i64(fx_mul_spec(s as int, self.y as int)),
            fits_i64(fx_mul_spec(s as int, self.z as int)),
        ensures
            r == self.scale_spec(s as int),
    {
        Vec3 { x: fx_mul(s, self.x), y: fx_mul(s, self.y), z: fx_mul(s, self.z) }
    }

    pub fn div_scalar(self, s: i64) -> (r: Vec3)
        requires
            1 <= s,
            fits_i64(fx_div_spec(self.x as int, s as int)),
            fits_i64(fx_div_spec(self.y as int, s as int)),
            fits_i64(fx_div_spec(self.z as int, s as int)),
        ensures
            r == self.div_scalar_spec(s as int),
    {
        Vec3 { x: fx_div(self.x, s), y: fx_div(self.y, s), z: fx_div(self.z, s) }
    }

    pub fn dot(u: Vec3, v: Vec3) -> (r: i64)
        requires
            fits_i64(fx_mul_spec(u.x as int, v.x as int)),
            fits_i64(fx_mul_spec(u.y as int, v.y as int)),
            fits_i64(fx_mul_spec(u.z as int, v.z as int)),
            fits_i64(fx_mul_spec(u.x as int, v.x as int) + fx_mul_spec(u.y as int, v.y as int)),
            fits_i64(u.dot_spec(v)),
        ensures
            r as int == u.dot_spec(v),
    {
        fx_mul(u.x, v.x) + fx_mul(u.y, v.y) + fx_mul(u.z, v.z)
    }

    pub fn cross(u: Vec3, v: Vec3) -> (r: Vec3)
        requires
            fits_i64(fx_mul_spec(u.y as int, v.z as int)),
            fits_i64(fx_mul_spec(u.z as int, v.y as int)),
            fits_i64(fx_mul_spec(u.z as int, v.x as int)),
            fits_i64(fx_mul_spec(u.x as int, v.z as int)),
            fits_i64(fx_mul_spec(u.x as int, v.y as int)),
            fits_i64(fx_mul_spec(u.y as int, v.x as int)),
            fits_i64(fx_mul_spec(u.y as int, v.z as int) - fx_mul_spec(u.z as int, v.y as int)),
            fits_i64(fx_mul_spec(u.z as int, v.x as int) - fx_mul_spec(u.x as int, v.z as int)),
            fits_i64(fx_mul_spec(u.x as int, v.y as int) - fx_mul_spec(u.y as int, v.x as int)),
        ensures
            r == u.cross_spec(v),
    {
        Vec3 {
            x: fx_mul(u.y, v.z) - fx_mul(u.z, v.y),
            y: fx_mul(u.z, v.x) - fx_mul(u.x, v.z),
            z: fx_mul(u.x, v.y) - fx_mul(u.y, v.x),
        }
    }

    pub fn length_squared(self) -> (r: i64)
        requires
            self.wf(),
        ensures
            r as int == self.len_sq_spec(),
            0 <= r,
    {
        proof {
            lemma_dot_wf_bounds(self, self);
            lemma_len_sq_nonneg(self);
        }
        Self::dot(self, self)
    }

    pub fn length(self) -> (r: i64)
        requires
            self.wf(),
        ensures
            r as int == self.len_spec(),
            0 <= r,
    {
        let ls = self.length_squared();
        proof {
            lemma_sqrt_floor_props(ls as int * (SCALE as int));
        }
        fx_sqrt(ls)
    }

    pub fn unit_vector(self) -> (r: Vec3)
        requires
            self.wf(),
            1 <= self.len_sq_spec(),
        ensures
            r == self.unit_spec(),
    {
        let len = self.length();
        proof {
            lemma_len_ge_one(self);
            lemma_fx_div_bound(self.x as int, len as int, COORD_MAX as int);
            lemma_fx_div_bound(self.y as int, len as int, COORD_MAX as int);
            lemma_fx_div_bound(self.z as int, len as int, COORD_MAX as int);
        }
        self.div_scalar(len)
    }
}

/// Componentwise products of two bounded vectors stay bounded, and so does
/// their dot product.
pub proof fn lemma_dot_bound(u: Vec3, v: Vec3, uu: int, vv: int, m: int)
    requires
        bounded(u, uu),
        bounded(v, vv),
        0 <= uu,
        0 <= vv,
        uu * vv <= m * (SCALE as int),
        0 <= m,
    ensures
        -m <= fx_mul_spec(u.x as int, v.x as int) <= m,
        -m <= fx_mul_spec(u.y as int, v.y as int) <= m,
        -m <= fx_mul_spec(u.z as int, v.z as int) <= m,
        -3 * m <= u.dot_spec(v) <= 3 * m,
{
    lemma_fx_mul_bound(u.x as int, v.x as int, uu, vv, m);
    lemma_fx_mul_bound(u.y as int, v.y as int, uu, vv, m);
    lemma_fx_mul_bound(u.z as int, v.z as int, uu, vv, m);
}

/// The dot product of two well-formed vectors fits the scalar type, term by
/// term.
pub proof fn lemma_dot_wf_bounds(u: Vec3, v: Vec3)
    requires
        u.wf(),
        v.wf(),
    ensures
        -16777216 <= fx_mul_spec(u.x as int, v.x as int) <= 16777216,
        -16777216 <= fx_mul_spec(u.y as int, v.y as int) <= 16777216,
        -16777216 <= fx_mul_spec(u.z as int, v.z as int) <= 16777216,
        -50331648 <= u.dot_spec(v) <= 50331648,
{
    lemma_dot_bound(u, v, COORD_MAX as int, COORD_MAX as int, 16777216);
}

/// A vector of at least unit squared length has a length of at least one
/// count.
pub proof fn lemma_len_ge_one(v: Vec3)
    requires
        1 <= v.len_sq_spec(),
    ensures
        1 <= v.len_spec(),
{
    lemma_sqrt_floor_props(v.len_sq_spec() * (SCALE as int));
    let r = v.len_spec();
    if r < 1 {
        assert((r + 1) * (r + 1) <= 1 * (SCALE as int)) by (nonlinear_arith)
            requires
                0 <= r < 1,
        ;
    }
}

/// The rescaling to unit length keeps every component within `SCALE` times
/// the coordinate bound.
pub proof fn lemma_unit_spec_bounded(v: Vec3)
    requires
        v.wf(),
        1 <= v.len_sq_spec(),
    ensures
        bounded(v.unit_spec(), 68719476736),
        1 <= v.len_spec(),
{
    lemma_len_ge_one(v);
    lemma_fx_div_bound(v.x as int, v.len_spec(), COORD_MAX as int);
    lemma_fx_div_bound(v.y as int, v.len_spec(), COORD_MAX as int);
    lemma_fx_div_bound(v.z as int, v.len_spec(), COORD_MAX as int);
}

/// The squared length of any vector is nonnegative.
pub proof fn lemma_len_sq_nonneg(v: Vec3)
    ensures
        0 <= v.len_sq_spec(),
{
    lemma_fx_square_nonneg(v.x as int);
    lemma_fx_square_nonneg(v.y as int);
    lemma_fx_square_nonneg(v.z as int);
}

} // verus!
