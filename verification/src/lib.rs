//! A Monte Carlo path-tracing core over fixed-point coordinates.
//!
//! Geometry, materials and sampling all work on integers that carry
//! [`math::SCALE`] fractional steps per world unit, so every kernel has an
//! exact arithmetic contract and the spatial index can be proved equivalent
//! to a linear scan.

pub mod aabb;
pub mod hittable;
pub mod integrator;
pub mod material;
pub mod math;
pub mod onb;
pub mod pdf;
pub mod perlin;
pub mod ray;
pub mod rng;
pub mod texture;
pub mod vec3;
