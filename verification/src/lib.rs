//! A fixed-point Monte-Carlo path tracer.
//!
//! All geometry and radiance arithmetic is carried out in Q47.16 fixed-point
//! (an `i64` holding value * 65536), which makes every computation exact and
//! lets the ray/scene intersection protocol, the bounding-volume hierarchy and
//! the shading integrator carry full functional contracts.

pub mod aabb;
pub mod aarect;
pub mod bvh;
pub mod camera;
pub mod fixed;
pub mod hittable;
pub mod hittable_list;
pub mod material;
pub mod moving_sphere;
pub mod mybox;
pub mod nearest;
pub mod onb;
pub mod pdf;
pub mod perlin;
pub mod ray;
pub mod render;
pub mod rng;
pub mod sphere;
pub mod texture;
pub mod trig;
pub mod vec3;
