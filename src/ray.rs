use vstd::prelude::*;

use crate::vec3::{plus_spec, scale_spec, Point3D, Vec3};

verus! {

/// A half-line `origin + t * direction`.
#[derive(Clone, Copy, Debug, PartialEq, Eq, Structural)]
pub struct Ray {
    pub origin: Point3D,
    pub direction: Vec3,
}

/// The point at parameter `t` along the ray.
pub open spec fn at_spec(r: Ray, t: int) -> Vec3 {
    plus_spec(r.origin, scale_spec(r.direction, t))
}

impl Ray {
    pub fn new(origin: Point3D, direction: Vec3) -> (r: Ray)
        ensures
            r == (Ray { origin, direction }),
    {
        Ray { origin, direction }
    }

    pub fn origin(&self) -> (r: Point3D)
        ensures
            r == self.origin,
    {
        self.origin
    }

    pub fn direction(&self) -> (r: Vec3)
        ensures
            r == self.direction,
    {
        self.direction
    }

    pub fn at(&self, t: i32) -> (r: Point3D)
        ensures
            r == at_spec(*self, t as int),
    {
        self.origin.plus(self.direction.scale(t))
    }
}

} // verus!
