//! A small ray tracer whose numerical core is verified.
//!
//! Scalars are signed 64-bit fixed-point numbers at scale `2^16`
//! (see [`fx`]); every arithmetic step of the rendering pipeline is
//! specified exactly over that representation, so the contracts pin
//! down the pixel values the renderer produces.

#![allow(unused_imports)]

pub mod fx;
pub mod rng;
pub mod vec3;
pub mod ray;
pub mod material;
pub mod hittable;
pub mod shapes;
pub mod world;
pub mod camera;
pub mod image;
pub mod render;

