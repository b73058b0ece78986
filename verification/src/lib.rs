//! The verified core of a progressive path tracer: the decisions of the
//! bounding-volume hierarchy, of the intersection tests, of the scattering
//! models and of the render loop, over numbers held by their bit patterns.

pub mod scalar;
pub mod dyadic;
pub mod vec3;
pub mod ray;
pub mod aabb;
pub mod material;
pub mod sphere;
pub mod hittable;
pub mod rng;
pub mod sorting;
pub mod bvh;
pub mod camera;
pub mod tracer;
pub mod nearest;
pub mod prelude;
