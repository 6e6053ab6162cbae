//! An offline Monte-Carlo path tracer with a verified numeric core.
//!
//! All geometry and light transport is carried out in exact fixed-point
//! arithmetic (see [`fx`]), so that every intersection routine, the
//! bounding-volume hierarchy and the renderer itself have precise,
//! machine-checked contracts.

pub mod fx;
pub mod interval;
pub mod rt;
pub mod vec3;
pub mod ray;
pub mod aabb;
pub mod trig;
pub mod hit;
pub mod sphere;
pub mod quad;
pub mod hit_list;
pub mod bvh;
pub mod perlin;
pub mod raster;
pub mod texture;
pub mod material;
pub mod color;
pub mod camera;
