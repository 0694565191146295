//! A ray: an origin point and a direction vector.  The direction is not
//! required to be unit length; callers normalize where magnitude matters.

use vstd::prelude::*;
use crate::vector3::{Vector3, vadd_spec, vmul_spec};

verus! {

#[derive(Clone, Copy, Debug, PartialEq, Eq, Structural)]
pub struct Ray {
    pub origin: Vector3,
    pub direction: Vector3,
}

/// The point the ray reaches at parameter `t`: `origin + direction * t`.
pub open spec fn ray_at_spec(ray: Ray, t: int) -> Vector3 {
    vadd_spec(ray.origin, vmul_spec(ray.direction, t))
}

impl Ray {
    pub fn new(origin: Vector3, direction: Vector3) -> (r: Self)
        ensures
            r == (Ray { origin, direction }),
    {
        Ray { origin, direction }
    }

    pub fn at(&self, t: i64) -> (r: Vector3)
        ensures
            r == ray_at_spec(*self, t as int),
    {
        self.origin.add(self.direction.mul(t))
    }
}

} // verus!
