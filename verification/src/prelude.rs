//! The names that a user of the engine needs most.

pub use crate::aabb::Slab;
pub use crate::aabb::AABB;
pub use crate::bvh::Bounded;
pub use crate::bvh::BVH;
pub use crate::camera::Camera;
pub use crate::hittable::hit_list;
pub use crate::hittable::Geometry;
pub use crate::hittable::HitRecord;
pub use crate::hittable::Hittable;
pub use crate::material::Dielectric;
pub use crate::material::Lambertian;
pub use crate::material::Material;
pub use crate::material::Metal;
pub use crate::material::Optics;
pub use crate::material::Refraction;
pub use crate::ray::Ray;
pub use crate::rng::ThreadRng;
pub use crate::scalar::Scalar;
pub use crate::sphere::MovingSphere;
pub use crate::sphere::Roots;
pub use crate::sphere::Sphere;
pub use crate::sphere::Surface;
pub use crate::tracer::color;
pub use crate::tracer::Film;
pub use crate::tracer::Tracer;
pub use crate::vec3::Vec3;
