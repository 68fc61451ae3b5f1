//! A small stochastic path tracer over exact fixed-point coordinates.
//!
//! Every quantity is a signed 64-bit integer counting units of `1/SCALE`
//! (one millionth), so the whole rendering pipeline — ray/sphere
//! intersection, nearest-hit aggregation, diffuse bounces, the sky
//! gradient and 8-bit quantization — is ordinary integer arithmetic with
//! exact contracts.

pub mod camera;
pub mod color;
pub mod fixed;
pub mod ray;
pub mod render;
pub mod rng;
pub mod scene;
pub mod sphere;
pub mod vec3;

pub use fixed::SCALE;
