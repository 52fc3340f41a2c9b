//! Color derivation: the consumer of traversal results.
//!
//! On a strike, the color encodes the unit normal, each axis mapped from
//! `[−1, 1]` to `[0, 1]`. On a miss, the color is a vertical gradient from
//! white up to sky blue, keyed by the vertical component of the normalized
//! ray direction.

use vstd::prelude::*;
use crate::fx::{fx_mul, fx_mul_spec, lemma_fx_mul_bound, HALF, SCALE};
use crate::hittable::{HitRecord, Hittable};
use crate::list::{lemma_list_hit_wf, HittableList};
use crate::ray::{Ray, T_MAX};
use crate::sphere::{record_wf, NORMAL_MAX};
use crate::vec3::{bounded, lemma_unit_spec_bounded, Color, Vec3};

verus! {

/// The red and green channels of the sky color (one half and, rounded down
/// to a scalar, seven tenths); its blue channel is full.
pub const SKY_R: i64 = 32768;

pub const SKY_G: i64 = 45875;

pub const SKY_B: i64 = 65536;

/// The color of a strike: `0.5·(normal + (1,1,1))`.
pub open spec fn hit_color_spec(rec: HitRecord) -> Color {
    rec.normal.add_spec(Vec3 { x: SCALE, y: SCALE, z: SCALE }).scale_spec(HALF as int)
}

/// The color of a miss: `(1−t)·white + t·skyblue` with
/// `t = 0.5·(unit_direction.y + 1)`.
pub open spec fn background_color_spec(ray: Ray) -> Color {
    let u = ray.direction.unit_spec();
    let t = fx_mul_spec(HALF as int, u.y + SCALE);
    let white = Vec3 { x: SCALE, y: SCALE, z: SCALE };
    let sky = Vec3 { x: SKY_R, y: SKY_G, z: SKY_B };
    white.scale_spec((SCALE - t) as int).add_spec(sky.scale_spec(t))
}

/// The color of a ray against a scene: the strike color of the nearest hit
/// in `[0, T_MAX]`, or the background gradient.
pub open spec fn ray_color_spec(ray: Ray, world: &HittableList) -> Color {
    match world.hit_spec(ray, 0, T_MAX) {
        Some(rec) => hit_color_spec(rec),
        None => background_color_spec(ray),
    }
}

impl Ray {
    /// Shade this ray against the scene: the nearest hit's normal mapped to
    /// a color, or the background gradient on a miss.
    pub fn ray_color(&self, world: &HittableList) -> (c: Color)
        requires
            self.wf(),
            world.wf(),
        ensures
            c == ray_color_spec(*self, world),
    {
        proof {
            lemma_list_hit_wf(world, *self, 0, T_MAX);
        }
        let white = Vec3 { x: SCALE, y: SCALE, z: SCALE };
        match world.hit(self, 0, T_MAX) {
            Some(rec) => {
                proof {
                    lemma_fx_mul_bound(
                        HALF as int,
                        rec.normal.x as int + SCALE as int,
                        HALF as int,
                        NORMAL_MAX as int + SCALE as int,
                        140737488388096,
                    );
                    lemma_fx_mul_bound(
                        HALF as int,
                        rec.normal.y as int + SCALE as int,
                        HALF as int,
                        NORMAL_MAX as int + SCALE as int,
                        140737488388096,
                    );
                    lemma_fx_mul_bound(
                        HALF as int,
                        rec.normal.z as int + SCALE as int,
                        HALF as int,
                        NORMAL_MAX as int + SCALE as int,
                        140737488388096,
                    );
                }
                rec.normal.add(white).scale(HALF)
            },
            None => {
                let unit_direction = self.direction.unit_vector();
                proof {
                    lemma_unit_spec_bounded(self.direction);
                    lemma_fx_mul_bound(
                        HALF as int,
                        unit_direction.y as int + SCALE as int,
                        HALF as int,
                        137438953472,
                        68719476736,
                    );
                }
                let t = fx_mul(HALF, unit_direction.y + SCALE);
                proof {
                    lemma_fx_mul_bound(
                        SCALE as int - t as int,
                        SCALE as int,
                        137438953472,
                        SCALE as int,
                        137438953472,
                    );
                    lemma_fx_mul_bound(t as int, SKY_R as int, 68719476736, SCALE as int, 68719476736);
                    lemma_fx_mul_bound(t as int, SKY_G as int, 68719476736, SCALE as int, 68719476736);
                    lemma_fx_mul_bound(t as int, SKY_B as int, 68719476736, SCALE as int, 68719476736);
                }
                let sky = Vec3 { x: SKY_R, y: SKY_G, z: SKY_B };
                white.scale(SCALE - t).add(sky.scale(t))
            },
        }
    }
}

} // verus!
