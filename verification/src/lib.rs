//! A minimal ray-tracing kernel: spheres, rays, nearest-hit traversal and a
//! simple shading rule, all over fixed-point scalars so that every geometric
//! computation is exact integer arithmetic and can be verified.

pub mod color;
pub mod fx;
pub mod hittable;
pub mod list;
pub mod ray;
pub mod sphere;
pub mod vec3;
