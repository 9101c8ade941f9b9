use rand::rngs::StdRng;
use rand::SeedableRng;
use raytracer::color::Color;
use raytracer::fixed::ONE;
use raytracer::hittable::HitRecord;
use raytracer::material::{Dielectric, Lambertian, Material, Metal, SurfaceMaterial};
use raytracer::ray::Ray;
use raytracer::vec3::Vec3;

fn v(x: i32, y: i32, z: i32) -> Vec3 {
    Vec3::new(x * ONE, y * ONE, z * ONE)
}

fn record(normal: Vec3, front_face: bool, material: SurfaceMaterial) -> HitRecord {
    HitRecord::new(v(0, 0, 0), normal, ONE, front_face, material)
}

#[test]
fn lambertian_always_scatters_with_its_albedo() {
    let albedo = Color::new(ONE / 2, ONE / 4, ONE / 8);
    let m = Lambertian::new(albedo);
    let rec = record(v(0, 1, 0), true, SurfaceMaterial::Lambertian(m));
    let ray = Ray::new(v(0, 1, 0), v(0, -1, 0));
    let mut rng = StdRng::seed_from_u64(5);
    for _ in 0..100 {
        let (scattered, attenuation) = m.scatter(&ray, &rec, &mut rng).unwrap();
        assert_eq!(attenuation, albedo);
        assert_eq!(scattered.origin(), rec.p);
        assert!(!scattered.direction().near_zero());
    }
}

#[test]
fn lambertian_opposite_sample_falls_back_to_the_normal() {
    let m = Lambertian::new(Color::new(ONE, ONE, ONE));
    let rec = record(v(0, 1, 0), true, SurfaceMaterial::Lambertian(m));
    let (scattered, _) = m.scatter_with(&rec, v(0, -1, 0));
    assert_eq!(scattered.direction(), v(0, 1, 0));
    let (scattered, _) = m.scatter_with(&rec, v(1, 0, 0));
    assert_eq!(scattered.direction(), v(1, 1, 0));
}

#[test]
fn metal_absorbs_exactly_when_the_ray_enters_the_surface() {
    let albedo = Color::new(ONE, ONE / 2, 0);
    let sharp = Metal::new(albedo, 0);
    let rec = record(v(0, 1, 0), true, SurfaceMaterial::Metal(sharp));
    let incoming = Ray::new(v(-1, 1, 0), v(1, -1, 0));
    let (scattered, attenuation) = sharp.scatter_with(&incoming, &rec, v(1, 0, 0)).unwrap();
    assert_eq!(attenuation, albedo);
    assert!(scattered.direction().dot(rec.normal) > 0);
    // a grazing ray reflects along the surface, which does not leave it
    let grazing = Ray::new(v(-1, 0, 0), v(1, 0, 0));
    assert!(sharp.scatter_with(&grazing, &rec, v(0, 1, 0)).is_none());
    // full fuzz can push the reflection into the surface
    let fuzzy = Metal::new(albedo, ONE);
    let steep = Ray::new(v(0, 1, 0), Vec3::new(ONE, -ONE / 4, 0));
    assert!(fuzzy.scatter_with(&steep, &rec, v(0, -1, 0)).is_none());
    assert!(fuzzy.scatter_with(&steep, &rec, v(0, 1, 0)).is_some());
}

#[test]
fn metal_scatter_agrees_with_its_direction_test() {
    let m = Metal::new(Color::new(ONE, ONE, ONE), ONE / 2);
    let rec = record(v(0, 1, 0), true, SurfaceMaterial::Metal(m));
    let ray = Ray::new(v(-1, 1, 0), Vec3::new(ONE, -ONE / 3, 0));
    let mut rng = StdRng::seed_from_u64(9);
    for _ in 0..100 {
        match m.scatter(&ray, &rec, &mut rng) {
            Some((scattered, _)) => assert!(scattered.direction().dot(rec.normal) > 0),
            None => {}
        }
    }
}

#[test]
fn dielectric_reflects_under_total_internal_reflection() {
    let glass = Dielectric::new(3 * ONE / 2);
    // leaving the glass at a grazing angle: ratio 1.5 times a sine near 1 exceeds 1
    let rec = record(v(0, 1, 0), false, SurfaceMaterial::Dielectric(glass));
    let ray = Ray::new(v(0, 0, 0), Vec3::new(ONE, -ONE / 10, 0));
    let unit = ray.direction().unit_vec();
    for sample in [0, ONE / 2, ONE - 1] {
        let (scattered, attenuation) = glass.scatter_with(&ray, &rec, sample);
        assert_eq!(scattered.direction(), Vec3::reflect(unit, rec.normal));
        assert_eq!(attenuation, Color::new(ONE, ONE, ONE));
    }
}

#[test]
fn dielectric_refracts_head_on_and_reflects_on_a_low_draw() {
    let glass = Dielectric::new(3 * ONE / 2);
    let rec = record(v(0, 1, 0), true, SurfaceMaterial::Dielectric(glass));
    let ray = Ray::new(v(0, 1, 0), v(0, -1, 0));
    // head-on the reflectance is about 0.04
    let (through, _) = glass.scatter_with(&ray, &rec, ONE / 2);
    assert_eq!(through.direction(), v(0, -1, 0));
    let (back, _) = glass.scatter_with(&ray, &rec, 0);
    assert_eq!(back.direction(), v(0, 1, 0));
}

#[test]
fn schlick_reflectance_values() {
    // r0 = ((1 - 1.5) / (1 + 1.5))^2 = 0.04
    assert_eq!(Dielectric::reflectance(ONE, 3 * ONE / 2), 2621);
    // at grazing incidence everything reflects
    assert_eq!(Dielectric::reflectance(0, 3 * ONE / 2), ONE);
}

#[test]
fn dispatch_through_the_material_enum() {
    let m = SurfaceMaterial::Dielectric(Dielectric::new(3 * ONE / 2));
    let rec = record(v(0, 1, 0), true, m);
    let ray = Ray::new(v(0, 1, 0), v(0, -1, 0));
    let mut rng = StdRng::seed_from_u64(1);
    let (_, attenuation) = m.scatter(&ray, &rec, &mut rng).unwrap();
    assert_eq!(attenuation, Color::new(ONE, ONE, ONE));
}
