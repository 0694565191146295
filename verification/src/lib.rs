//! A small offline ray tracer over fixed-point arithmetic.
//!
//! Scenes are lists of spheres with diffuse, metallic or dielectric
//! materials; a camera with depth of field shoots jittered rays per pixel
//! and the integrator follows each ray through scattering until it is
//! absorbed, escapes to the background, or exhausts its bounce budget.
//!
//! All real-valued quantities (coordinates, colors, ray parameters) are
//! Q47.16 fixed-point numbers: an `i64` holding the real value times
//! 2^16.  Every arithmetic step saturates at the `i64` range instead of
//! overflowing, and every function carries a contract pinning its result
//! to the mathematical fixed-point model in `fixed`.

pub mod fixed;
pub mod vector3;
pub mod ray;
pub mod color;
pub mod rng;
pub mod hittable;
pub mod material;
pub mod camera;
pub mod utils;
