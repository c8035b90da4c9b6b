//! A sphere-marching renderer over a signed-distance field, in fixed-point
//! arithmetic.
//!
//! A scene is a composition of spheres under constructive solid geometry
//! operators (union, intersection, complement), optionally warped or
//! displaced. A marcher steps rays through the field to find surface
//! crossings, a numeric estimator recovers surface normals, and a shading
//! model combines diffuse lighting, shadow tests and bounded-depth
//! reflection into a pixel color.
//!
//! All quantities are scaled integers: `fixed::FP` raw units stand for 1.0.

pub mod fixed;
pub mod vec3;
pub mod distfield;
pub mod march;
pub mod render;
pub mod shade;

pub use distfield::{distfield, Sample, Surface};
pub use shade::{raytrace, Light};
