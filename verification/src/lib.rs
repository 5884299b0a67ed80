//! A small offline path tracer whose arithmetic is carried out in signed
//! 16.16 fixed point: every scalar is an `i64` holding a multiple of 1/65536.
//! The geometry (vectors, rays, spheres), the nearest-hit search over a scene,
//! the camera, the recursive bounce evaluator and the tone mapping are all
//! verified against exact integer contracts; only drawing entropy for the
//! sample stream is taken on trust from the outside.

pub mod fixed;
pub mod math;
pub mod hittable;
pub mod shapes;
pub mod camera;
pub mod sampling;
pub mod render;
