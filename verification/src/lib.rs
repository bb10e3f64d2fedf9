//! An offline path tracer over fixed-point arithmetic.
//!
//! Every scalar in the renderer is an `i128` holding the real value scaled by
//! `fixed::SCALE`; all geometry, material and camera computations are exact
//! integer formulas with verified contracts.

pub mod camera;
pub mod color;
pub mod fixed;
pub mod hittable;
pub mod hittable_list;
pub mod interval;
pub mod material;
pub mod ray;
pub mod sphere;
pub mod utility;
pub mod vec3;

