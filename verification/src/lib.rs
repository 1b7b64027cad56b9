//! A ray tracer for scenes of spheres, written in saturating fixed-point
//! arithmetic so that every step of the computation is verified: ray/sphere
//! intersection, ambient/diffuse/specular lighting with shadow tests, and
//! bounded recursive mirror reflection.
//!
//! Scalars are `i64` values carrying `fx::SCALE` ticks per world unit;
//! arithmetic saturates at `fx::FX_MAX`, and `fx::FX_INF` is the sentinel for
//! "no intersection". The presentation layer (pixel mapping, image export,
//! windowing) lives outside this crate and only exchanges plain values with it.

pub mod fx;
pub mod laws;
pub mod primitive;
pub mod raytracer;
pub mod vec3;
