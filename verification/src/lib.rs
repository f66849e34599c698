//! A recursive path tracer on fixed-point numbers.
//!
//! A camera sends rays into a scene of spheres; where a ray hits a surface,
//! the material scatters it, and the colours along the path are multiplied
//! up to a limit of bounces. Rays that hit nothing see a sky that fades
//! from white to blue.
//!
//! Every number is a [`fixed::Scalar`]: an integer count of 1/65536, kept
//! within 16384 on either side of zero. Sums saturate at those ends, and
//! products and quotients round toward zero. Whether a ray meets a sphere
//! is decided on integers without rounding; the contracts say exactly
//! which value each function returns.
//!
//! Random numbers come from the `rand` crate. A function that draws one
//! states what holds for every draw, and beside it stands a function that
//! takes the drawn value as an argument and states its result exactly.
pub mod camera;
pub mod color;
pub mod fixed;
pub mod hittable;
pub mod hittable_list;
pub mod material;
pub mod ray;
pub mod render;
pub mod sphere;
pub mod utils;
pub mod vec3;
