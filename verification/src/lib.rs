//! A small Monte-Carlo ray tracer over fixed-point arithmetic.
//!
//! Every scalar is an `i64` counting 4096ths of a unit, so the whole
//! rendering pipeline — vectors, rays, sphere intersection, material
//! scattering, the recursive radiance estimator and the pixel sampler —
//! is exact integer arithmetic that the verifier reasons about directly.

pub mod fixed;
pub mod vec3;
pub mod ray;
pub mod material;
pub mod hitable;
pub mod sphere;
pub mod camera;
pub mod rng;
pub mod render;
