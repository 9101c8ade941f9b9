use vstd::prelude::*;

use rand::rngs::StdRng;

use crate::color::{in_unit_range, Color};
use crate::fixed::{fx_div, fx_div_spec, fx_mul, fx_mul_spec, fx_sqrt, sat, sqrt_floor, ONE};
use crate::hittable::HitRecord;
use crate::ray::Ray;
use crate::rng::draw;
use crate::vec3::{
    dot_spec, is_unit_sample, plus_spec, reflect_spec, refract_spec, scale_spec, unit_spec, Vec3,
};

verus! {

pub open spec fn is_zero(v: Vec3) -> bool {
    v.x == 0 && v.y == 0 && v.z == 0
}

/// How a surface answers an incoming ray: a scattered ray and its attenuation, or
/// nothing when the light is absorbed.
pub trait Material {
    /// The parameters are in their documented ranges.
    spec fn valid(&self) -> bool;

    /// `out` is one of the results that `scatter` can give.
    spec fn can_scatter(&self, ray_in: Ray, rec: HitRecord, out: Option<(Ray, Color)>) -> bool;

    fn scatter(&self, ray_in: &Ray, hit_rec: &HitRecord, rng: &mut StdRng) -> (r: Option<(Ray, Color)>)
        requires
            self.valid(),
            !is_zero(ray_in.direction),
        ensures
            self.can_scatter(*ray_in, *hit_rec, r),
    ;
}

/// A diffuse surface.
#[derive(Clone, Copy, Debug, PartialEq, Eq, Structural)]
pub struct Lambertian {
    pub albedo: Color,
}

/// The diffuse direction: the normal plus a unit sample, or the normal alone where
/// that sum vanishes.
pub open spec fn lambertian_direction(normal: Vec3, unit: Vec3) -> Vec3 {
    let d = plus_spec(normal, unit);
    if is_zero(d) {
        normal
    } else {
        d
    }
}

impl Lambertian {
    pub fn new(albedo: Color) -> (r: Lambertian)
        ensures
            r.albedo == albedo,
    {
        Lambertian { albedo }
    }

    pub open spec fn scatter_spec(&self, rec: HitRecord, unit: Vec3) -> (Ray, Color) {
        (Ray { origin: rec.p, direction: lambertian_direction(rec.normal, unit) }, self.albedo)
    }

    /// Diffuse scattering with `unit` as the random direction.
    pub fn scatter_with(&self, hit_rec: &HitRecord, unit: Vec3) -> (r: (Ray, Color))
        ensures
            r == self.scatter_spec(*hit_rec, unit),
    {
        let mut scatter_dir = hit_rec.normal.plus(unit);
        // a sample opposite to the normal would leave no direction at all
        if scatter_dir.near_zero() {
            scatter_dir = hit_rec.normal;
        }
        (Ray::new(hit_rec.p, scatter_dir), self.albedo)
    }
}

impl Material for Lambertian {
    open spec fn valid(&self) -> bool {
        in_unit_range(self.albedo)
    }

    open spec fn can_scatter(&self, ray_in: Ray, rec: HitRecord, out: Option<(Ray, Color)>) -> bool {
        exists|u: Vec3| is_unit_sample(u) && out == Some(self.scatter_spec(rec, u))
    }

    fn scatter(&self, ray_in: &Ray, hit_rec: &HitRecord, rng: &mut StdRng) -> (r: Option<(Ray, Color)>) {
        let u = Vec3::random_unit_vector(rng);
        Some(self.scatter_with(hit_rec, u))
    }
}

/// Diffuse scattering always gives a ray, and attenuates by exactly the albedo.
pub proof fn lemma_lambertian_always_scatters(
    m: Lambertian,
    ray_in: Ray,
    rec: HitRecord,
    out: Option<(Ray, Color)>,
)
    requires
        m.can_scatter(ray_in, rec, out),
    ensures
        out matches Some((_, attenuation)) && attenuation == m.albedo,
{
}

/// A specular surface; `fuzziness` in `[0, 1]` blurs the reflection.
#[derive(Clone, Copy, Debug, PartialEq, Eq, Structural)]
pub struct Metal {
    pub albedo: Color,
    pub fuzziness: i32,
}

/// The mirrored unit direction, pushed by `fuzziness` times a unit sample.
pub open spec fn metal_direction(ray_in: Ray, normal: Vec3, fuzziness: int, unit: Vec3) -> Vec3 {
    plus_spec(reflect_spec(unit_spec(ray_in.direction), normal), scale_spec(unit, fuzziness))
}

impl Metal {
    pub fn new(albedo: Color, fuzziness: i32) -> (r: Metal)
        ensures
            r.albedo == albedo,
            r.fuzziness == fuzziness,
    {
        Metal { albedo, fuzziness }
    }

    /// The reflected ray, kept only while it leaves the surface.
    pub open spec fn scatter_spec(&self, ray_in: Ray, rec: HitRecord, unit: Vec3) -> Option<(Ray, Color)> {
        let d = metal_direction(ray_in, rec.normal, self.fuzziness as int, unit);
        if dot_spec(d, rec.normal) > 0 {
            Some((Ray { origin: rec.p, direction: d }, self.albedo))
        } else {
            None
        }
    }

    /// Specular scattering with `unit` as the random perturbation.
    pub fn scatter_with(&self, ray_in: &Ray, hit_rec: &HitRecord, unit: Vec3) -> (r: Option<(Ray, Color)>)
        requires
            !is_zero(ray_in.direction),
        ensures
            r == self.scatter_spec(*ray_in, *hit_rec, unit),
    {
        let reflected = Vec3::reflect(ray_in.direction().unit_vec(), hit_rec.normal);
        let scattered = Ray::new(hit_rec.p, reflected.plus(unit.scale(self.fuzziness)));
        if scattered.direction().dot(hit_rec.normal) > 0 {
            Some((scattered, self.albedo))
        } else {
            None
        }
    }
}

impl Material for Metal {
    open spec fn valid(&self) -> bool {
        0 <= self.fuzziness <= ONE && in_unit_range(self.albedo)
    }

    open spec fn can_scatter(&self, ray_in: Ray, rec: HitRecord, out: Option<(Ray, Color)>) -> bool {
        exists|u: Vec3| is_unit_sample(u) && out == self.scatter_spec(ray_in, rec, u)
    }

    fn scatter(&self, ray_in: &Ray, hit_rec: &HitRecord, rng: &mut StdRng) -> (r: Option<(Ray, Color)>) {
        let u = Vec3::random_unit_vector(rng);
        self.scatter_with(ray_in, hit_rec, u)
    }
}

/// A metal absorbs the ray exactly when the perturbed reflection does not leave the
/// surface: its dot product with the normal is not positive.
pub proof fn lemma_metal_absorbs(m: Metal, ray_in: Ray, rec: HitRecord, unit: Vec3)
    ensures
        (m.scatter_spec(ray_in, rec, unit) is None) <==> dot_spec(
            metal_direction(ray_in, rec.normal, m.fuzziness as int, unit),
            rec.normal,
        ) <= 0,
        m.scatter_spec(ray_in, rec, unit) matches Some((scattered, _)) ==> scattered.direction
            == metal_direction(ray_in, rec.normal, m.fuzziness as int, unit),
{
}

/// A transparent, refracting surface such as glass.
#[derive(Clone, Copy, Debug, PartialEq, Eq, Structural)]
pub struct Dielectric {
    pub refraction_index: i32,
}

/// Schlick's approximation `r0 + (1 - r0) (1 - cosine)^5`, with
/// `r0 = ((1 - n) / (1 + n))^2`.
pub open spec fn reflectance_spec(cosine: int, refraction_index: int) -> int {
    let q = fx_div_spec(ONE - refraction_index, ONE + refraction_index);
    let r0 = fx_mul_spec(q, q);
    let x = sat(ONE - cosine);
    let x2 = fx_mul_spec(x, x);
    let x4 = fx_mul_spec(x2, x2);
    let x5 = fx_mul_spec(x4, x);
    sat(r0 + fx_mul_spec(sat(ONE - r0), x5))
}

/// `min(-dot(unit_direction, normal), 1)`.
pub open spec fn cos_theta_spec(unit_direction: Vec3, normal: Vec3) -> int {
    let c = -dot_spec(unit_direction, normal);
    if c < ONE {
        c
    } else {
        ONE as int
    }
}

/// `sqrt(1 - cos_theta^2)`, zero where the difference is negative.
pub open spec fn sin_theta_spec(cos_theta: int) -> int {
    let s = ONE - fx_mul_spec(cos_theta, cos_theta);
    if s <= 0 {
        0
    } else {
        sqrt_floor(s * ONE)
    }
}

impl Dielectric {
    pub fn new(refraction_index: i32) -> (r: Dielectric)
        ensures
            r.refraction_index == refraction_index,
    {
        Dielectric { refraction_index }
    }

    /// The reflectance at an angle whose cosine is `cosine`.
    pub fn reflectance(cosine: i32, refraction_index: i32) -> (r: i32)
        requires
            refraction_index > 0,
        ensures
            r == reflectance_spec(cosine as int, refraction_index as int),
    {
        let q = crate::fixed::saturate(
            crate::fixed::floor_div(
                (ONE as i128 - refraction_index as i128) * 65536,
                ONE as i128 + refraction_index as i128,
            ),
        );
        let r0 = fx_mul(q, q);
        let x = crate::fixed::saturate(ONE as i128 - cosine as i128);
        let x2 = fx_mul(x, x);
        let x4 = fx_mul(x2, x2);
        let x5 = fx_mul(x4, x);
        let rest = crate::fixed::saturate(ONE as i128 - r0 as i128);
        crate::fixed::saturate(r0 as i128 + fx_mul(rest, x5) as i128)
    }

    /// The ratio of refraction indices across the surface the ray crosses.
    pub open spec fn ratio_spec(&self, front_face: bool) -> int {
        if front_face {
            fx_div_spec(ONE as int, self.refraction_index as int)
        } else {
            self.refraction_index as int
        }
    }

    /// Where refraction is impossible (total internal reflection) or the draw falls
    /// below the reflectance, the ray reflects; otherwise it refracts.
    pub open spec fn direction_spec(&self, ray_in: Ray, rec: HitRecord, sample: int) -> Vec3 {
        let ratio = self.ratio_spec(rec.front_face);
        let unit_direction = unit_spec(ray_in.direction);
        let cos_theta = cos_theta_spec(unit_direction, rec.normal);
        let sin_theta = sin_theta_spec(cos_theta);
        if fx_mul_spec(ratio, sin_theta) > ONE || reflectance_spec(cos_theta, ratio) > sample {
            reflect_spec(unit_direction, rec.normal)
        } else {
            refract_spec(unit_direction, rec.normal, ratio)
        }
    }

    /// Scattering with `sample`, a draw from `[0, 1)`, deciding between reflection and
    /// refraction. The attenuation is white: the surface absorbs nothing.
    pub fn scatter_with(&self, ray_in: &Ray, hit_rec: &HitRecord, sample: i32) -> (r: (Ray, Color))
        requires
            self.refraction_index > 0,
            !is_zero(ray_in.direction),
        ensures
            r.0 == (Ray { origin: hit_rec.p, direction: self.direction_spec(*ray_in, *hit_rec, sample as int) }),
            r.1 == Color(Vec3 { x: ONE, y: ONE, z: ONE }),
            fx_mul_spec(self.ratio_spec(hit_rec.front_face), sin_theta_spec(cos_theta_spec(
                unit_spec(ray_in.direction), hit_rec.normal))) > ONE
                ==> r.0.direction == reflect_spec(unit_spec(ray_in.direction), hit_rec.normal),
    {
        let attenuation = Color::new(ONE, ONE, ONE);
        let refraction_ratio = if hit_rec.front_face {
            fx_div(ONE, self.refraction_index)
        } else {
            self.refraction_index
        };
        let unit_direction = ray_in.direction().unit_vec();
        let neg_dot = -unit_direction.dot(hit_rec.normal);
        let cos_theta = if neg_dot < ONE { neg_dot } else { ONE };
        assert(cos_theta * cos_theta >= 0) by (nonlinear_arith);
        let s = ONE - fx_mul(cos_theta, cos_theta);
        let sin_theta = if s <= 0 {
            0
        } else {
            let r = fx_sqrt(s);
            proof { crate::fixed::lemma_sqrt_floor(s * ONE, r as int); }
            r
        };
        // with no real solution of Snell's law the ray must reflect
        let cannot_refract = fx_mul(refraction_ratio, sin_theta) > ONE;
        assert(refraction_ratio > 0) by (nonlinear_arith)
            requires
                refraction_ratio == (if hit_rec.front_face { fx_div_spec(ONE as int, self.refraction_index as int) } else { self.refraction_index as int }),
                self.refraction_index > 0,
                self.refraction_index <= i32::MAX,
        ;
        let direction = if cannot_refract || Dielectric::reflectance(cos_theta, refraction_ratio) > sample {
            Vec3::reflect(unit_direction, hit_rec.normal)
        } else {
            Vec3::refract(unit_direction, hit_rec.normal, refraction_ratio)
        };
        (Ray::new(hit_rec.p, direction), attenuation)
    }
}

impl Material for Dielectric {
    open spec fn valid(&self) -> bool {
        self.refraction_index > 0
    }

    open spec fn can_scatter(&self, ray_in: Ray, rec: HitRecord, out: Option<(Ray, Color)>) -> bool {
        exists|x: int|
            0 <= x < ONE && out == Some((
                Ray { origin: rec.p, direction: self.direction_spec(ray_in, rec, x) },
                Color(Vec3 { x: ONE, y: ONE, z: ONE }),
            ))
    }

    fn scatter(&self, ray_in: &Ray, hit_rec: &HitRecord, rng: &mut StdRng) -> (r: Option<(Ray, Color)>) {
        let x = draw(rng, 0, ONE);
        Some(self.scatter_with(ray_in, hit_rec, x))
    }
}

/// A surface with parameters in range never amplifies light: every attenuation it
/// gives has its channels in `[0, 1]`.
pub proof fn lemma_attenuation_in_unit_range(
    m: SurfaceMaterial,
    ray_in: Ray,
    rec: HitRecord,
    out: Option<(Ray, Color)>,
)
    requires
        m.valid(),
        m.can_scatter(ray_in, rec, out),
    ensures
        out matches Some((_, attenuation)) ==> in_unit_range(attenuation),
{
}

/// The materials a surface can have.
#[derive(Clone, Copy, Debug, PartialEq, Eq, Structural)]
pub enum SurfaceMaterial {
    Lambertian(Lambertian),
    Metal(Metal),
    Dielectric(Dielectric),
}

impl Material for SurfaceMaterial {
    open spec fn valid(&self) -> bool {
        match self {
            SurfaceMaterial::Lambertian(m) => m.valid(),
            SurfaceMaterial::Metal(m) => m.valid(),
            SurfaceMaterial::Dielectric(m) => m.valid(),
        }
    }

    open spec fn can_scatter(&self, ray_in: Ray, rec: HitRecord, out: Option<(Ray, Color)>) -> bool {
        match self {
            SurfaceMaterial::Lambertian(m) => m.can_scatter(ray_in, rec, out),
            SurfaceMaterial::Metal(m) => m.can_scatter(ray_in, rec, out),
            SurfaceMaterial::Dielectric(m) => m.can_scatter(ray_in, rec, out),
        }
    }

    fn scatter(&self, ray_in: &Ray, hit_rec: &HitRecord, rng: &mut StdRng) -> (r: Option<(Ray, Color)>) {
        match self {
            SurfaceMaterial::Lambertian(m) => m.scatter(ray_in, hit_rec, rng),
            SurfaceMaterial::Metal(m) => m.scatter(ray_in, hit_rec, rng),
            SurfaceMaterial::Dielectric(m) => m.scatter(ray_in, hit_rec, rng),
        }
    }
}

} // verus!
