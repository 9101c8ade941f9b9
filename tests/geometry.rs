use raytracer::color::Color;
use raytracer::fixed::ONE;
use raytracer::hittable::{HitRecord, Hittable};
use raytracer::hittable_list::HittableList;
use raytracer::interval::Interval;
use raytracer::material::{Lambertian, SurfaceMaterial};
use raytracer::ray::Ray;
use raytracer::sphere::Sphere;
use raytracer::vec3::{Point3D, Vec3};

fn v(x: i32, y: i32, z: i32) -> Vec3 {
    Vec3::new(x * ONE, y * ONE, z * ONE)
}

fn grey() -> SurfaceMaterial {
    SurfaceMaterial::Lambertian(Lambertian::new(Color::new(ONE / 2, ONE / 2, ONE / 2)))
}

fn sphere(center: Point3D, radius: i32) -> Sphere {
    Sphere::new(center, radius, grey())
}

fn search() -> Interval {
    Interval::new(66, i32::MAX)
}

#[test]
fn ray_at_the_centre_hits_at_distance_less_radius() {
    let s = sphere(v(0, 0, -5), ONE);
    let ray = Ray::new(v(0, 0, 0), v(0, 0, -1));
    let h = s.hit(&ray, &search()).unwrap();
    assert_eq!(h.t, 4 * ONE);
    assert_eq!(h.p, v(0, 0, -4));
    assert_eq!(h.normal, v(0, 0, 1));
    assert!(h.front_face);

    let s = sphere(v(3, -2, 7), ONE / 2);
    let ray = Ray::new(v(3, 8, 7), v(0, -1, 0));
    let h = s.hit(&ray, &search()).unwrap();
    assert_eq!(h.t, 10 * ONE - ONE / 2);
}

#[test]
fn miss_and_out_of_interval_give_no_hit() {
    let s = sphere(v(0, 0, -5), ONE);
    let away = Ray::new(v(0, 0, 0), v(0, 0, 1));
    assert!(s.hit(&away, &search()).is_none());
    let beside = Ray::new(v(3, 0, 0), v(0, 0, -1));
    assert!(s.hit(&beside, &search()).is_none());
    let ahead = Ray::new(v(0, 0, 0), v(0, 0, -1));
    assert!(s.hit(&ahead, &Interval::new(66, 3 * ONE)).is_none());
    // only the far side lies beyond the near root
    let h = s.hit(&ahead, &Interval::new(5 * ONE, 100 * ONE)).unwrap();
    assert_eq!(h.t, 6 * ONE);
    assert!(!h.front_face);
    assert_eq!(h.normal, v(0, 0, 1));
}

#[test]
fn normals_face_against_the_ray() {
    let s = sphere(v(0, 0, -3), 2 * ONE);
    let rays = [
        Ray::new(v(0, 0, 0), v(0, 0, -1)),
        Ray::new(v(0, 0, -3), v(1, 0, 0)),
        Ray::new(v(0, 0, 0), Vec3::new(ONE / 3, ONE / 5, -ONE)),
        Ray::new(v(-4, 1, -3), Vec3::new(ONE, -ONE / 7, ONE / 9)),
    ];
    for ray in rays.iter() {
        let h = s.hit(ray, &search()).unwrap();
        assert!(h.normal.dot(ray.direction()) <= 0);
        let len = h.normal.length();
        assert!((len - ONE).abs() < ONE / 100, "normal length {}", len);
    }
}

#[test]
fn list_returns_the_nearest_hit() {
    let mut world = HittableList::new();
    world.add(sphere(v(0, 0, -10), ONE));
    world.add(sphere(v(0, 0, -4), ONE));
    world.add(sphere(v(0, 0, -7), ONE));
    let ray = Ray::new(v(0, 0, 0), v(0, 0, -1));
    let h = world.hit(&ray, &search()).unwrap();
    assert_eq!(h.t, 3 * ONE);
    let bounded = world.hit(&ray, &Interval::new(4 * ONE, 100 * ONE)).unwrap();
    assert_eq!(bounded.t, 5 * ONE);
    let up = Ray::new(v(0, 0, 0), v(0, 1, 0));
    assert!(world.hit(&up, &search()).is_none());
    world.clear();
    assert!(world.hit(&ray, &search()).is_none());
    assert!(HittableList::new().hit(&ray, &search()).is_none());
}

#[test]
fn equal_hits_keep_the_first_object() {
    let a = Lambertian::new(Color::new(ONE, 0, 0));
    let b = Lambertian::new(Color::new(0, ONE, 0));
    let mut world = HittableList::new();
    world.add(Sphere::new(v(0, 0, -4), ONE, SurfaceMaterial::Lambertian(a)));
    world.add(Sphere::new(v(0, 0, -4), ONE, SurfaceMaterial::Lambertian(b)));
    let ray = Ray::new(v(0, 0, 0), v(0, 0, -1));
    let h = world.hit(&ray, &search()).unwrap();
    assert_eq!(h.material, SurfaceMaterial::Lambertian(a));
}

#[test]
fn set_face_normal_orients_against_the_ray() {
    let mut rec = HitRecord::new(v(0, 0, 0), v(0, 0, 0), ONE, false, grey());
    let ray = Ray::new(v(0, 0, 5), v(0, 0, -1));
    rec.set_face_normal(&ray, &v(0, 0, 1));
    assert!(rec.front_face);
    assert_eq!(rec.normal, v(0, 0, 1));
    rec.set_face_normal(&ray, &v(0, 0, -1));
    assert!(!rec.front_face);
    assert_eq!(rec.normal, v(0, 0, 1));
    assert_eq!(rec.t, ONE);
}

#[test]
fn a_point_sphere_is_hit_and_faces_the_ray() {
    let point = Sphere::new(v(0, 0, -1), 0, grey());
    let ray = Ray::new(v(0, 0, 0), v(0, 0, -1));
    let h = point.hit(&ray, &search()).unwrap();
    assert_eq!(h.t, ONE);
    assert_eq!(h.p, v(0, 0, -1));
    assert_eq!(h.normal, v(0, 0, 1));
    assert!(h.front_face);
    let beside = Ray::new(v(1, 0, 0), v(0, 0, -1));
    assert!(point.hit(&beside, &search()).is_none());
}

#[test]
fn short_directions_still_hit() {
    let s = sphere(v(0, 0, -1), ONE / 2);
    // a direction of length 1/256
    let ray = Ray::new(v(0, 0, 0), Vec3::new(0, 0, -256));
    let h = s.hit(&ray, &search()).unwrap();
    assert_eq!(h.t, 128 * ONE);
}

#[test]
fn aimed_rays_hit_within_one_unit_of_distance_less_radius() {
    for radius in [ONE / 3, 12345, 3 * ONE / 7, 2 * ONE + 1] {
        let s = sphere(v(0, 0, -5), radius);
        let ray = Ray::new(v(0, 0, 0), v(0, 0, -1));
        let h = s.hit(&ray, &search()).unwrap();
        let exact = 5 * ONE - radius;
        assert!(exact - 1 <= h.t && h.t <= exact, "t {} for radius {}", h.t, radius);
    }
}
