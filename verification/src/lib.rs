//! A small ray tracer verified with Verus.
//!
//! All geometry and color arithmetic is carried out in fixed-point form:
//! a scalar is an `i64` holding `value * SCALE` ticks, so every operation
//! has an exact, machine-checkable contract. Conversion from and to
//! floating point, image formatting and file output live outside the
//! library, in the unverified application shell.

pub mod camera;
pub mod color;
pub mod dielectric;
pub mod fixed;
pub mod hittable;
pub mod hittable_list;
pub mod lambertian;
pub mod material;
pub mod metal;
pub mod ray;
pub mod render;
pub mod rng;
pub mod sphere;
pub mod vec3;
