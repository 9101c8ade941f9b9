use vstd::prelude::*;

use crate::fixed::{floor_div, is_isqrt, isqrt, lemma_sqrt_floor, sqrt_floor};
use crate::hittable::{facing_normal, is_front_face, HitRecord, Hittable};
use crate::interval::Interval;
use crate::material::SurfaceMaterial;
use crate::ray::{at_spec, Ray};
use crate::vec3::{div_spec, dot_raw, dot_spec, minus_spec, neg_spec, raw_dot, unit_spec, Point3D, Vec3};

verus! {

/// A sphere with a material; a negative radius turns its normals inward.
#[derive(Clone, Copy, Debug, PartialEq, Eq, Structural)]
pub struct Sphere {
    pub center: Point3D,
    pub radius: i32,
    pub material: SurfaceMaterial,
}

/// `origin - center`, exactly.
pub open spec fn offset(s: Sphere, ray: Ray) -> (int, int, int) {
    (
        ray.origin.x - s.center.x,
        ray.origin.y - s.center.y,
        ray.origin.z - s.center.z,
    )
}

/// The coefficients of `a t^2 + 2 half_b t + c = 0`, `a = |d|^2`, `half_b = oc . d`,
/// `c = |oc|^2 - r^2`, each a quarter of its exact raw value (rounded down): the
/// smallest common divisor that keeps the discriminant within 128 bits.
pub open spec fn quadratic(s: Sphere, ray: Ray) -> (int, int, int) {
    let (ox, oy, oz) = offset(s, ray);
    let d = ray.direction;
    (
        raw_dot(d, d) / 4,
        (ox * d.x + oy * d.y + oz * d.z) / 4,
        (ox * ox + oy * oy + oz * oz - s.radius * s.radius) / 4,
    )
}

/// The two roots in fixed point, nearer first; none where the ray misses the sphere.
pub open spec fn roots(s: Sphere, ray: Ray) -> Option<(int, int)> {
    let (a, half_b, c) = quadratic(s, ray);
    let discriminant = half_b * half_b - a * c;
    if a <= 0 || discriminant < 0 {
        None
    } else {
        let sqrtd = sqrt_floor(discriminant);
        Some(((-half_b - sqrtd) * 65536 / a, (-half_b + sqrtd) * 65536 / a))
    }
}

/// The nearer root strictly inside `ray_t`, else the farther one, else none.
pub open spec fn pick_root(near: int, far: int, ray_t: Interval) -> Option<int> {
    if ray_t.min < near < ray_t.max {
        Some(near)
    } else if ray_t.min < far < ray_t.max {
        Some(far)
    } else {
        None
    }
}

/// The outward normal at `p`: `(p - center) / radius`. A sphere of radius zero is a
/// point with no surface to orient, so it faces the ray: its outward normal is the
/// ray's reversed unit direction.
pub open spec fn outward_normal_at(s: Sphere, ray: Ray, p: Vec3) -> Vec3 {
    if s.radius == 0 {
        neg_spec(unit_spec(ray.direction))
    } else {
        div_spec(minus_spec(p, s.center), s.radius as int)
    }
}

/// The record of a hit at parameter `t`.
pub open spec fn record_at(s: Sphere, ray: Ray, t: int) -> HitRecord {
    let p = at_spec(ray, t);
    let outward_normal = outward_normal_at(s, ray, p);
    HitRecord {
        p,
        normal: facing_normal(ray.direction, outward_normal),
        t: t as i32,
        front_face: is_front_face(ray.direction, outward_normal),
        material: s.material,
    }
}

pub open spec fn sphere_hit(s: Sphere, ray: Ray, ray_t: Interval) -> Option<HitRecord> {
    match roots(s, ray) {
        None => None,
        Some((near, far)) => match pick_root(near, far, ray_t) {
            None => None,
            Some(t) => Some(record_at(s, ray, t)),
        },
    }
}

proof fn lemma_product_bound(a: int, b: int, ma: int, mb: int)
    requires
        -ma <= a <= ma,
        -mb <= b <= mb,
    ensures
        -(ma * mb) <= a * b <= ma * mb,
{
    assert(-(ma * mb) <= a * b <= ma * mb) by (nonlinear_arith)
        requires
            -ma <= a <= ma,
            -mb <= b <= mb,
    ;
}

proof fn lemma_square_nonneg(a: int)
    ensures
        a * a >= 0,
{
    assert(a * a >= 0) by (nonlinear_arith);
}

/// The normal of every hit faces against the ray: its dot product with the ray's
/// direction is never positive.
pub proof fn lemma_normal_against_ray(s: Sphere, ray: Ray, ray_t: Interval)
    ensures
        sphere_hit(s, ray, ray_t) matches Some(h) ==> dot_spec(h.normal, ray.direction) <= 0,
{
    if let Some(h) = sphere_hit(s, ray, ray_t) {
        let d = ray.direction;
        let out = h.normal;
        let o = outward_normal_at(s, ray, h.p);
        assert(raw_dot(o, d) == raw_dot(d, o)) by (nonlinear_arith);
        if !is_front_face(d, o) {
            let n = neg_spec(o);
            assert(n.x == -o.x && n.y == -o.y && n.z == -o.z);
            assert(raw_dot(n, d) == -raw_dot(d, o)) by (nonlinear_arith)
                requires
                    n.x == -o.x,
                    n.y == -o.y,
                    n.z == -o.z,
            ;
        }
    }
}

/// A ray from outside a sphere, with a direction of unit length and aimed at the
/// centre, first meets the sphere at the distance to the centre less the radius, to
/// within one unit in the last place. `distance` is that distance in fixed point.
pub proof fn lemma_hit_toward_center(s: Sphere, ray: Ray, ray_t: Interval, distance: int)
    requires
        0 < s.radius < distance,
        raw_dot(ray.direction, ray.direction) == 65536 * 65536,
        (ray.origin.x - s.center.x) * 65536 == -(distance * ray.direction.x),
        (ray.origin.y - s.center.y) * 65536 == -(distance * ray.direction.y),
        (ray.origin.z - s.center.z) * 65536 == -(distance * ray.direction.z),
        ray_t.min < distance - s.radius - 1,
        distance - s.radius < ray_t.max,
    ensures
        sphere_hit(s, ray, ray_t) matches Some(h) && distance - s.radius - 1 <= h.t
            <= distance - s.radius,
{
    let f: int = 65536;
    let k = distance;
    let r = s.radius as int;
    let d = ray.direction;
    let (ox, oy, oz) = offset(s, ray);
    // along the direction: oc . d = -k
    assert((ox * d.x) * f == -k * (d.x * d.x)) by (nonlinear_arith)
        requires ox * f == -(k * d.x);
    assert((oy * d.y) * f == -k * (d.y * d.y)) by (nonlinear_arith)
        requires oy * f == -(k * d.y);
    assert((oz * d.z) * f == -k * (d.z * d.z)) by (nonlinear_arith)
        requires oz * f == -(k * d.z);
    let ocd = ox * d.x + oy * d.y + oz * d.z;
    assert(ocd * f == -k * (f * f)) by (nonlinear_arith)
        requires
            (ox * d.x) * f == -k * (d.x * d.x),
            (oy * d.y) * f == -k * (d.y * d.y),
            (oz * d.z) * f == -k * (d.z * d.z),
            d.x * d.x + d.y * d.y + d.z * d.z == f * f,
            ocd == ox * d.x + oy * d.y + oz * d.z,
    ;
    assert(ocd == -k * f) by (nonlinear_arith)
        requires ocd * f == -k * (f * f), f > 0;
    // the squared distance: oc . oc = k^2
    assert((ox * ox) * (f * f) == (k * k) * (d.x * d.x)) by (nonlinear_arith)
        requires ox * f == -(k * d.x);
    assert((oy * oy) * (f * f) == (k * k) * (d.y * d.y)) by (nonlinear_arith)
        requires oy * f == -(k * d.y);
    assert((oz * oz) * (f * f) == (k * k) * (d.z * d.z)) by (nonlinear_arith)
        requires oz * f == -(k * d.z);
    let occ = ox * ox + oy * oy + oz * oz;
    assert(occ * (f * f) == (k * k) * (f * f)) by (nonlinear_arith)
        requires
            (ox * ox) * (f * f) == (k * k) * (d.x * d.x),
            (oy * oy) * (f * f) == (k * k) * (d.y * d.y),
            (oz * oz) * (f * f) == (k * k) * (d.z * d.z),
            d.x * d.x + d.y * d.y + d.z * d.z == f * f,
            occ == ox * ox + oy * oy + oz * oz,
    ;
    assert(occ == k * k) by (nonlinear_arith)
        requires occ * (f * f) == (k * k) * (f * f), f > 0;
    let (a, half_b, c) = quadratic(s, ray);
    assert(a == 0x4000_0000);
    assert(half_b == -k * 0x4000);
    // c rounds (k^2 - r^2) / 4 down, leaving e in [0, 3]
    let e = (k * k - r * r) - 4 * c;
    assert(0 <= e <= 3);
    let disc = half_b * half_b - a * c;
    let m: int = 0x4000;
    assert(disc == m * m * (r * r + e)) by (nonlinear_arith)
        requires
            disc == half_b * half_b - a * c,
            half_b == -k * m,
            a == 4 * m * m,
            4 * c == k * k - r * r - e,
    ;
    // so the square root lies between m r and m (r + 1)
    crate::fixed::lemma_sqrt_floor_exists(disc);
    let sq = sqrt_floor(disc);
    assert(m * r <= sq <= m * (r + 1)) by (nonlinear_arith)
        requires
            sq * sq <= disc < (sq + 1) * (sq + 1),
            sq >= 0,
            disc == m * m * (r * r + e),
            0 <= e <= 3,
            r >= 1,
            m > 0,
    ;
    let near = (-half_b - sq) * 65536 / a;
    assert(k - r - 1 <= near <= k - r) by (nonlinear_arith)
        requires
            near == (k * m - sq) * 65536 / (4 * m * m),
            m * r <= sq <= m * (r + 1),
            m == 0x4000,
    ;
}

impl Sphere {
    pub fn new(center: Point3D, radius: i32, material: SurfaceMaterial) -> (r: Sphere)
        ensures
            r == (Sphere { center, radius, material }),
    {
        Sphere { center, radius, material }
    }
}

impl Hittable for Sphere {
    open spec fn hit_spec(&self, ray: Ray, ray_t: Interval) -> Option<HitRecord> {
        sphere_hit(*self, ray, ray_t)
    }

    fn hit(&self, ray: &Ray, ray_t: &Interval) -> (r: Option<HitRecord>) {
        let d = ray.direction;
        let ox = ray.origin.x as i128 - self.center.x as i128;
        let oy = ray.origin.y as i128 - self.center.y as i128;
        let oz = ray.origin.z as i128 - self.center.z as i128;
        let rr = self.radius as i128;
        let ghost m: int = 0x1_0000_0000int;
        let ghost n: int = 0x8000_0000int;
        proof {
            lemma_product_bound(ox as int, d.x as int, m, n);
            lemma_product_bound(oy as int, d.y as int, m, n);
            lemma_product_bound(oz as int, d.z as int, m, n);
            lemma_product_bound(ox as int, ox as int, m, m);
            lemma_product_bound(oy as int, oy as int, m, m);
            lemma_product_bound(oz as int, oz as int, m, m);
            lemma_product_bound(rr as int, rr as int, n, n);
            lemma_square_nonneg(ox as int);
            lemma_square_nonneg(oy as int);
            lemma_square_nonneg(oz as int);
            lemma_square_nonneg(rr as int);
        }
        let a = floor_div(dot_raw(d, d), 4);
        let half_b = floor_div(ox * d.x as i128 + oy * d.y as i128 + oz * d.z as i128, 4);
        let c = floor_div(ox * ox + oy * oy + oz * oz - rr * rr, 4);
        assert((a as int, half_b as int, c as int) == quadratic(*self, *ray));
        if a <= 0 {
            return None;
        }
        proof {
            crate::vec3::lemma_mul_i32(d.x, d.x);
            crate::vec3::lemma_mul_i32(d.y, d.y);
            crate::vec3::lemma_mul_i32(d.z, d.z);
            assert(0 < a <= 0x3000_0000_0000_0000);
            assert(-0x6000_0000_0000_0000 <= half_b <= 0x6000_0000_0000_0000);
            assert(-0x3000_0000_0000_0000 <= c <= 0xc000_0000_0000_0000);
            lemma_product_bound(half_b as int, half_b as int, 0x6000_0000_0000_0000, 0x6000_0000_0000_0000);
            lemma_product_bound(a as int, c as int, 0x3000_0000_0000_0000, 0xc000_0000_0000_0000);
        }
        let discriminant = half_b * half_b - a * c;
        if discriminant < 0 {
            return None;
        }
        let s = isqrt(discriminant as u128);
        proof {
            lemma_sqrt_floor(discriminant as int, s as int);
            assert(s < 0x1_0000_0000_0000_0000) by (nonlinear_arith)
                requires
                    s * s <= discriminant,
                    discriminant <= 0x4800_0000_0000_0000_0000_0000_0000_0000,
            ;
        }
        let sqrtd = s as i128;
        // the nearest root that lies strictly inside the interval
        let mut root = floor_div((-half_b - sqrtd) * 65536, a);
        if root <= ray_t.min as i128 || ray_t.max as i128 <= root {
            root = floor_div((-half_b + sqrtd) * 65536, a);
            if root <= ray_t.min as i128 || ray_t.max as i128 <= root {
                return None;
            }
        }
        let t = root as i32;
        let p = ray.at(t);
        let outward_normal = if self.radius == 0 {
            // a point sphere has no surface to orient: it faces the ray
            proof {
                assert(!(d.x == 0 && d.y == 0 && d.z == 0));
            }
            ray.direction().unit_vec().negated()
        } else {
            p.minus(self.center).div_by(self.radius)
        };
        let mut rec = HitRecord::new(p, outward_normal, t, false, self.material);
        rec.set_face_normal(ray, &outward_normal);
        Some(rec)
    }
}

} // verus!
