//! A recursive, stochastic ray tracer over exact fixed-point arithmetic.
//!
//! Every quantity (coordinates, colors, ray parameters) is a binary fixed-point
//! number: an `i64` holding the real value scaled by 2^16. All geometric and
//! shading computations are carried out exactly on these integers (with
//! truncating rounding where a division or square root occurs), which lets the
//! contracts state the result of every operation precisely.

pub mod camera;
pub mod color;
pub mod fixed;
pub mod hittables;
pub mod interval;
pub mod material;
pub mod ray;
pub mod rng;
pub mod sphere;
pub mod utils;
pub mod vec3;
