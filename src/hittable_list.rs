use vstd::prelude::*;

use crate::hittable::{HitRecord, Hittable};
use crate::material::Material;
use crate::interval::Interval;
use crate::ray::Ray;
use crate::sphere::{roots, sphere_hit, Sphere};

verus! {

/// The scene: spheres tried one after the other.
pub struct HittableList {
    pub objects: Vec<Sphere>,
}

/// The upper end of the search after a scan has kept `found`.
pub open spec fn closest_so_far(found: Option<HitRecord>, ray_t: Interval) -> i32 {
    match found {
        Some(h) => h.t,
        None => ray_t.max,
    }
}

/// The record kept after trying the first `n` objects, each on the interval narrowed
/// to the closest hit found before it.
pub open spec fn scan(objects: Seq<Sphere>, ray: Ray, ray_t: Interval, n: int) -> Option<HitRecord>
    decreases n,
{
    if n <= 0 {
        None
    } else {
        let prev = scan(objects, ray, ray_t, n - 1);
        let narrowed = Interval { min: ray_t.min, max: closest_so_far(prev, ray_t) };
        match sphere_hit(objects[n - 1], ray, narrowed) {
            Some(h) => Some(h),
            None => prev,
        }
    }
}

impl HittableList {
    /// Every object's material has its parameters in range.
    pub open spec fn wf(&self) -> bool {
        forall|i: int| 0 <= i < self.objects@.len() ==> (#[trigger] self.objects@[i]).material.valid()
    }

    pub fn new() -> (r: HittableList)
        ensures
            r.objects@ == Seq::<Sphere>::empty(),
    {
        HittableList { objects: Vec::new() }
    }

    pub fn clear(&mut self)
        ensures
            final(self).objects@ == Seq::<Sphere>::empty(),
    {
        self.objects.clear();
    }

    pub fn add(&mut self, object: Sphere)
        ensures
            final(self).objects@ == old(self).objects@.push(object),
    {
        self.objects.push(object);
    }
}

impl Hittable for HittableList {
    open spec fn hit_spec(&self, ray: Ray, ray_t: Interval) -> Option<HitRecord> {
        scan(self.objects@, ray, ray_t, self.objects@.len() as int)
    }

    fn hit(&self, ray: &Ray, ray_t: &Interval) -> (r: Option<HitRecord>) {
        let mut closest: i32 = ray_t.max;
        let mut hit_record: Option<HitRecord> = None;
        let mut i: usize = 0;
        while i < self.objects.len()
            invariant
                i <= self.objects@.len(),
                hit_record == scan(self.objects@, *ray, *ray_t, i as int),
                closest == closest_so_far(hit_record, *ray_t),
            decreases self.objects@.len() - i,
        {
            let narrowed = Interval::new(ray_t.min, closest);
            if let Some(hit) = self.objects[i].hit(ray, &narrowed) {
                closest = hit.t;
                hit_record = Some(hit);
            }
            i = i + 1;
        }
        hit_record
    }
}

/// The nearer root never lies beyond the farther one.
proof fn lemma_roots_ordered(s: Sphere, ray: Ray)
    ensures
        roots(s, ray) matches Some((near, far)) ==> near <= far,
{
    if let Some((near, far)) = roots(s, ray) {
        let (a, half_b, c) = crate::sphere::quadratic(s, ray);
        let sqrtd = crate::fixed::sqrt_floor(half_b * half_b - a * c);
        crate::fixed::lemma_sqrt_floor_exists(half_b * half_b - a * c);
        vstd::arithmetic::div_mod::lemma_div_is_ordered(
            (-half_b - sqrtd) * 65536,
            (-half_b + sqrtd) * 65536,
            a,
        );
    }
}

/// A hit lies strictly inside the interval it was searched on.
proof fn lemma_hit_inside(s: Sphere, ray: Ray, ray_t: Interval)
    ensures
        sphere_hit(s, ray, ray_t) matches Some(h) ==> ray_t.min < h.t < ray_t.max,
{
}

/// Searching on `[min, hi]` inside `ray_t` finds exactly the hit on `ray_t` when that
/// hit lies below `hi`, and nothing otherwise.
proof fn lemma_narrowed(s: Sphere, ray: Ray, ray_t: Interval, hi: i32)
    requires
        hi <= ray_t.max,
    ensures
        ({
            let narrowed = Interval { min: ray_t.min, max: hi };
            match sphere_hit(s, ray, ray_t) {
                Some(h) => if h.t < hi {
                    sphere_hit(s, ray, narrowed) == Some(h)
                } else {
                    sphere_hit(s, ray, narrowed) is None
                },
                None => sphere_hit(s, ray, narrowed) is None,
            }
        }),
{
    lemma_roots_ordered(s, ray);
}

/// The first `n` objects: the scan keeps a hit of one of them on the whole interval,
/// none of them has a nearer hit, and the scan keeps nothing only when none is hit.
proof fn lemma_scan_closest(objects: Seq<Sphere>, ray: Ray, ray_t: Interval, n: int)
    requires
        0 <= n <= objects.len(),
    ensures
        (scan(objects, ray, ray_t, n) is None) <==> (forall|i: int|
            0 <= i < n ==> (#[trigger] sphere_hit(objects[i], ray, ray_t)) is None),
        scan(objects, ray, ray_t, n) matches Some(h) ==> exists|i: int|
            0 <= i < n && #[trigger] sphere_hit(objects[i], ray, ray_t) == Some(h),
        scan(objects, ray, ray_t, n) matches Some(h) ==> forall|i: int|
            0 <= i < n && (#[trigger] sphere_hit(objects[i], ray, ray_t)) is Some ==> h.t
                <= sphere_hit(objects[i], ray, ray_t).unwrap().t,
        scan(objects, ray, ray_t, n) matches Some(h) ==> ray_t.min < h.t < ray_t.max,
    decreases n,
{
    if n > 0 {
        lemma_scan_closest(objects, ray, ray_t, n - 1);
        let prev = scan(objects, ray, ray_t, n - 1);
        let hi = closest_so_far(prev, ray_t);
        lemma_narrowed(objects[n - 1], ray, ray_t, hi);
        lemma_hit_inside(objects[n - 1], ray, ray_t);
        let cur = scan(objects, ray, ray_t, n);
        if let Some(h) = cur {
            if sphere_hit(objects[n - 1], ray, ray_t) == Some(h) {
                assert(forall|i: int|
                    0 <= i < n && (#[trigger] sphere_hit(objects[i], ray, ray_t)) is Some ==> h.t
                        <= sphere_hit(objects[i], ray, ray_t).unwrap().t);
            }
        }
    }
}

/// Closest hit: the list's record is the hit of one of its objects on the whole
/// interval, no object has a nearer hit there, and there is no record exactly when no
/// object is hit (so in particular for an empty list).
pub proof fn lemma_list_hit_closest(world: &HittableList, ray: Ray, ray_t: Interval)
    ensures
        (world.hit_spec(ray, ray_t) is None) <==> (forall|i: int|
            0 <= i < world.objects@.len() ==> (#[trigger] sphere_hit(world.objects@[i], ray, ray_t)) is None),
        world.hit_spec(ray, ray_t) matches Some(h) ==> exists|i: int|
            0 <= i < world.objects@.len() && #[trigger] sphere_hit(world.objects@[i], ray, ray_t) == Some(h),
        world.hit_spec(ray, ray_t) matches Some(h) ==> forall|i: int|
            0 <= i < world.objects@.len() && (#[trigger] sphere_hit(world.objects@[i], ray, ray_t)) is Some
                ==> h.t <= sphere_hit(world.objects@[i], ray, ray_t).unwrap().t,
{
    lemma_scan_closest(world.objects@, ray, ray_t, world.objects@.len() as int);
}

} // verus!
