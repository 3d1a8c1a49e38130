//! A path-tracing renderer over fixed-point arithmetic.
//!
//! Scalars are `i64` values counting units of `1 / 65536`; arithmetic
//! saturates at the `i64` range, which stands in for the reals' infinities.
//! On top of that scalar type the crate builds vector algebra, rays,
//! axis-aligned boxes, sphere primitives, a bounding-volume hierarchy,
//! material scattering, and a camera that integrates Monte-Carlo samples
//! into gamma-corrected pixel bytes.

pub mod aabb;
pub mod bvh;
pub mod camera;
pub mod color;
pub mod fixed;
pub mod hittable;
pub mod hittable_list;
pub mod interval;
pub mod material;
pub mod ray;
pub mod rng;
pub mod sphere;
pub mod vec3;
