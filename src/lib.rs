//! A Monte Carlo ray tracer for scenes of spheres. Scalars are fixed-point integers
//! (see `fixed`), so that every step from ray generation to the output bytes is
//! stated and proved exactly.

pub mod fixed;
pub mod vec3;
pub mod rng;
pub mod interval;
pub mod ray;
pub mod color;
pub mod hittable;
pub mod material;
pub mod sphere;
pub mod hittable_list;
pub mod ppm;
pub mod camera;
