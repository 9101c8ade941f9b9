use vstd::prelude::*;

use crate::interval::Interval;
use crate::material::SurfaceMaterial;
use crate::ray::Ray;
use crate::vec3::{dot_spec, neg_spec, Point3D, Vec3};

verus! {

/// Where a ray met a surface: the point, the normal turned against the ray, the ray
/// parameter, whether the ray met the outer side, and the surface's material.
#[derive(Clone, Copy, Debug, PartialEq, Eq, Structural)]
pub struct HitRecord {
    pub p: Point3D,
    pub normal: Vec3,
    pub t: i32,
    pub front_face: bool,
    pub material: SurfaceMaterial,
}

/// The ray meets the outer side when it runs against the outward normal.
pub open spec fn is_front_face(direction: Vec3, outward_normal: Vec3) -> bool {
    dot_spec(direction, outward_normal) < 0
}

/// The normal turned against the ray.
pub open spec fn facing_normal(direction: Vec3, outward_normal: Vec3) -> Vec3 {
    if is_front_face(direction, outward_normal) {
        outward_normal
    } else {
        neg_spec(outward_normal)
    }
}

impl HitRecord {
    pub fn new(
        p: Point3D,
        normal: Vec3,
        t: i32,
        front_face: bool,
        material: SurfaceMaterial,
    ) -> (r: HitRecord)
        ensures
            r == (HitRecord { p, normal, t, front_face, material }),
    {
        HitRecord { p, normal, t, front_face, material }
    }

    /// Records on which side the ray met the surface and stores the normal against it.
    pub fn set_face_normal(&mut self, ray: &Ray, outward_normal: &Vec3)
        ensures
            final(self).front_face == is_front_face(ray.direction, *outward_normal),
            final(self).normal == facing_normal(ray.direction, *outward_normal),
            final(self).p == old(self).p,
            final(self).t == old(self).t,
            final(self).material == old(self).material,
    {
        self.front_face = ray.direction().dot(*outward_normal) < 0;
        self.normal = if self.front_face {
            *outward_normal
        } else {
            outward_normal.negated()
        };
    }
}

/// Something a ray can be intersected with; only hits with a parameter strictly
/// inside `ray_t` count.
pub trait Hittable {
    /// The record of the first hit inside `ray_t`, if there is one.
    spec fn hit_spec(&self, ray: Ray, ray_t: Interval) -> Option<HitRecord>;

    fn hit(&self, ray: &Ray, ray_t: &Interval) -> (r: Option<HitRecord>)
        ensures
            r == self.hit_spec(*ray, *ray_t),
    ;
}

} // verus!
