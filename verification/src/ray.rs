//! Rays: an origin point and a direction vector, not necessarily normalized.

use vstd::prelude::*;
use crate::fixed::{SCALE, fx_mul_spec};
use crate::vec3::Vec3;
use crate::{Point3};

verus! {

#[derive(Clone, Copy, Debug)]
pub struct Ray {
    pub origin: Point3,
    pub direction: Vec3,
}

/// The point a ray reaches after parameter `t`: `origin + t * direction`,
/// componentwise, with one floor rounding per component.
pub open spec fn at_spec(r: Ray, t: int) -> Point3 {
    Vec3 {
        x: (r.origin.x + fx_mul_spec(r.direction.x as int, t)) as i64,
        y: (r.origin.y + fx_mul_spec(r.direction.y as int, t)) as i64,
        z: (r.origin.z + fx_mul_spec(r.direction.z as int, t)) as i64,
    }
}

impl Ray {
    pub fn new(origin: Point3, direction: Vec3) -> (r: Self)
        ensures
            r.origin == origin,
            r.direction == direction,
    {
        Self { origin, direction }
    }

    /// Evaluate the ray at parameter `t`.
    pub fn at(&self, t: i64) -> (p: Point3)
        requires
            -(i64::MAX as int) * (SCALE as int) <= self.direction.x * t <= (i64::MAX as int) * (
            SCALE as int),
            -(i64::MAX as int) * (SCALE as int) <= self.direction.y * t <= (i64::MAX as int) * (
            SCALE as int),
            -(i64::MAX as int) * (SCALE as int) <= self.direction.z * t <= (i64::MAX as int) * (
            SCALE as int),
            i64::MIN <= self.origin.x + fx_mul_spec(self.direction.x as int, t as int) <= i64::MAX,
            i64::MIN <= self.origin.y + fx_mul_spec(self.direction.y as int, t as int) <= i64::MAX,
            i64::MIN <= self.origin.z + fx_mul_spec(self.direction.z as int, t as int) <= i64::MAX,
        ensures
            p == at_spec(*self, t as int),
            p.x == self.origin.x + fx_mul_spec(self.direction.x as int, t as int),
            p.y == self.origin.y + fx_mul_spec(self.direction.y as int, t as int),
            p.z == self.origin.z + fx_mul_spec(self.direction.z as int, t as int),
    {
        self.origin.add(self.direction.scale(t))
    }
}

impl Default for Ray {
    /// The zero ray.
    fn default() -> (r: Self)
        ensures
            r.origin == (Vec3 { x: 0i64, y: 0i64, z: 0i64 }),
            r.direction == (Vec3 { x: 0i64, y: 0i64, z: 0i64 }),
    {
        Ray { origin: Vec3 { x: 0, y: 0, z: 0 }, direction: Vec3 { x: 0, y: 0, z: 0 } }
    }
}

} // verus!
