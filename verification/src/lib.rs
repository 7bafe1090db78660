//! A path-tracing renderer verified with Verus.
//!
//! All geometry and radiometry is carried out in signed 16.16 fixed-point
//! arithmetic: a value `v: i64` stands for the real number `v / 65536`.
//! Every operation is specified exactly over the underlying integers, so
//! the whole rendering pipeline — bounding boxes, primitive intersection,
//! the bounding-volume hierarchy, materials, sampling distributions and
//! the integrator — has contracts in ordinary integer arithmetic.

pub mod fx;
pub mod rng;
pub mod vec3;
pub mod ray;
pub mod aabb;
pub mod hit;
pub mod rect;
pub mod sphere;
pub mod triangle;
pub mod object;
pub mod bvh;
pub mod texture;
pub mod onb;
pub mod pdf;
pub mod material;
pub mod camera;
pub mod render;
