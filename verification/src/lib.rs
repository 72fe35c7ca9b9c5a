//! A small Monte-Carlo ray tracer whose numeric core works on fixed-point
//! scalars: every coordinate, colour channel and ray parameter is an `i64`
//! carrying sixteen fractional bits.  All arithmetic is exact integer
//! arithmetic with floor rounding, so every function can state precisely
//! what it computes.

use vstd::prelude::*;

pub mod camera;
pub mod fixed;
pub mod hittable;
pub mod laws;
pub mod materials;
pub mod ray;
pub mod renderers;
pub mod rng;
pub mod scenes;
pub mod sphere;
pub mod utils;
pub mod vec3;

pub use camera::Camera;
pub use fixed::SCALE;
pub use hittable::{HitRecord, Hittable, HittableList};
pub use ray::Ray;
pub use sphere::{SimpleSphere, Sphere};
pub use vec3::Vec3;

verus! {

/// A point in space; an alias kept for readability.
pub type Point3 = Vec3;

/// A colour; channels at scale stand for values in `[0, 1]`.
pub type Color = Vec3;

/// Build a colour from three channels.
pub fn color(r: i64, g: i64, b: i64) -> (c: Color)
    ensures
        c == (Vec3 { x: r, y: g, z: b }),
{
    Vec3::new(r, g, b)
}

/// Build a point from three coordinates.
pub fn point3(x: i64, y: i64, z: i64) -> (p: Point3)
    ensures
        p == (Vec3 { x, y, z }),
{
    Vec3::new(x, y, z)
}

/// Limit a scalar to an interval.
pub fn clamp(n: i64, min: i64, max: i64) -> (r: i64)
    ensures
        r == fixed::clamp_spec(n as int, min as int, max as int),
{
    fixed::clamp(n, min, max)
}

} // verus!
