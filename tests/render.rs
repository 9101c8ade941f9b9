use rand::rngs::StdRng;
use rand::SeedableRng;
use raytracer::camera::Camera;
use raytracer::color::Color;
use raytracer::fixed::ONE;
use raytracer::hittable_list::HittableList;
use raytracer::material::{Dielectric, Lambertian, Metal, SurfaceMaterial};
use raytracer::ppm::ppm_text;
use raytracer::ray::Ray;
use raytracer::sphere::Sphere;
use raytracer::vec3::Vec3;

const ASPECT_16_9: i32 = 116508;

fn v(x: i32, y: i32, z: i32) -> Vec3 {
    Vec3::new(x * ONE, y * ONE, z * ONE)
}

fn two_sphere_world() -> HittableList {
    let grey = SurfaceMaterial::Lambertian(Lambertian::new(Color::new(ONE / 2, ONE / 2, ONE / 2)));
    let mut world = HittableList::new();
    world.add(Sphere::new(Vec3::new(0, 0, -ONE), ONE / 2, grey));
    world.add(Sphere::new(Vec3::new(0, -100 * ONE - ONE / 2, -ONE), 100 * ONE, grey));
    world
}

fn camera(width: i32, samples: i32, max_depth: i32) -> Camera {
    Camera::new(ASPECT_16_9, width, samples, max_depth, ONE, v(0, 0, 0), v(0, 0, -1), v(0, 1, 0), 0, ONE)
}

fn expected_ppm(width: usize, height: usize, line: &str) -> String {
    let mut s = format!("P3\n{} {}\n255\n", width, height);
    for _ in 0..width * height {
        s.push_str(line);
    }
    s
}

#[test]
fn camera_derives_its_frame() {
    let cam = camera(400, 10, 50);
    assert_eq!(cam.image_width, 400);
    assert_eq!(cam.image_height, 225);
    assert_eq!(cam.center, v(0, 0, 0));
    // the viewport is two units high at unit focus distance with a 90 degree field of view
    assert!(cam.pixel_delta_v.y() < 0);
    assert!((cam.pixel_delta_v.y() + 2 * ONE / 225).abs() <= 2);
    assert!((cam.pixel00_loc.z() + ONE).abs() <= 2);
    assert!(cam.pixel00_loc.x() < 0 && cam.pixel00_loc.y() > 0);
    let narrow = camera(1, 1, 1);
    assert_eq!(narrow.image_height, 1);
}

#[test]
fn no_bounces_render_black_everywhere() {
    let world = two_sphere_world();
    let cam = camera(8, 3, 0);
    let mut rng = StdRng::seed_from_u64(42);
    let text = cam.render(&world, &mut rng);
    assert_eq!(String::from_utf8(text).unwrap(), expected_ppm(8, 4, "0 0 0\n"));
}

#[test]
fn single_bounce_shows_sky_above_and_shadowless_black_below() {
    let world = two_sphere_world();
    let cam = camera(16, 4, 1);
    let mut rng = StdRng::seed_from_u64(7);
    let pixels = cam.render_pixels(&world, &mut rng);
    assert_eq!(pixels.len(), 16 * 9);
    // the top row sees only sky, a light blue
    let top = pixels[8];
    assert!(top[2] > 200 && top[0] > 150 && top[0] < top[2]);
    // the bottom row sees only the ground; one bounce leaves no light
    assert_eq!(pixels[16 * 8 + 8], [0, 0, 0]);
}

#[test]
fn sky_blends_white_to_blue() {
    let world = HittableList::new();
    let cam = camera(8, 1, 5);
    let mut rng = StdRng::seed_from_u64(1);
    let up = Ray::new(v(0, 0, 0), v(0, 1, 0));
    assert_eq!(cam.ray_color(&up, 1, &world, &mut rng), Color::new(32768, 45875, ONE));
    let down = Ray::new(v(0, 0, 0), v(0, -1, 0));
    assert_eq!(cam.ray_color(&down, 1, &world, &mut rng), Color::new(ONE, ONE, ONE));
    let level = Ray::new(v(0, 0, 0), v(1, 0, 0));
    assert_eq!(cam.ray_color(&level, 3, &world, &mut rng), Color::new(49152, 55705, ONE));
    assert_eq!(cam.ray_color(&up, 0, &world, &mut rng), Color::new(0, 0, 0));
    let still = Ray::new(v(0, 0, 0), v(0, 0, 0));
    assert_eq!(cam.ray_color(&still, 3, &world, &mut rng), Color::new(0, 0, 0));
}

#[test]
fn pixel_value_averages_gamma_encodes_and_quantizes() {
    assert_eq!(Camera::pixel_value(Color::new(ONE, ONE / 4, 0), 1), [255, 128, 0]);
    assert_eq!(Camera::pixel_value(Color::new(4 * ONE, ONE, -ONE), 4), [255, 128, 0]);
    assert_eq!(Camera::pixel_value(Color::new(10 * ONE, 0, 0), 1), [255, 0, 0]);
}

#[test]
fn ppm_text_writes_header_and_lines() {
    let text = ppm_text(2, 1, &vec![[255, 0, 10], [1, 2, 3]]);
    assert_eq!(text, b"P3\n2 1\n255\n255 0 10\n1 2 3\n".to_vec());
    let empty = ppm_text(0, 0, &vec![]);
    assert_eq!(empty, b"P3\n0 0\n255\n".to_vec());
}

#[test]
fn camera_rays_start_at_the_centre_and_cross_their_pixel() {
    let cam = camera(16, 1, 1);
    let mut rng = StdRng::seed_from_u64(2);
    for _ in 0..50 {
        let r = cam.get_ray(3, 5, &mut rng);
        assert_eq!(r.origin(), cam.center);
        let centre = cam.pixel00_loc.plus(cam.pixel_delta_u.scale_int(3)).plus(cam.pixel_delta_v.scale_int(5));
        let off = r.direction().minus(centre);
        assert!(off.x().abs() <= cam.pixel_delta_u.x().abs() / 2 + 2);
        assert!(off.y().abs() <= cam.pixel_delta_v.y().abs() / 2 + 2);
    }
}

#[test]
fn defocused_rays_start_on_the_lens() {
    let cam = Camera::new(ASPECT_16_9, 16, 1, 1, ONE, v(0, 0, 0), v(0, 0, -1), v(0, 1, 0), ONE / 10, 2 * ONE);
    let mut rng = StdRng::seed_from_u64(4);
    let radius = cam.defocus_disk_u.length();
    let mut moved = false;
    for _ in 0..50 {
        let r = cam.get_ray(0, 0, &mut rng);
        let o = r.origin();
        assert_eq!(o.z(), 0);
        assert!(o.length() <= radius + 2);
        if o != cam.center {
            moved = true;
        }
    }
    assert!(moved);
}

fn pixel_variance(world: &HittableList, samples: i32) -> f64 {
    let cam = camera(1, samples, 5);
    let values: Vec<f64> = (0..12u64)
        .map(|seed| {
            let mut rng = StdRng::seed_from_u64(seed);
            cam.render_pixels(world, &mut rng)[0][1] as f64
        })
        .collect();
    let mean = values.iter().sum::<f64>() / values.len() as f64;
    values.iter().map(|x| (x - mean) * (x - mean)).sum::<f64>() / values.len() as f64
}

#[test]
fn more_samples_lower_the_variance_of_a_pixel() {
    let world = two_sphere_world();
    let few = pixel_variance(&world, 10);
    let many = pixel_variance(&world, 1000);
    assert!(many < few, "variance with 1000 samples {} is not below {} with 10", many, few);
}

#[test]
fn traced_light_never_exceeds_one() {
    let mut world = two_sphere_world();
    let mirror = SurfaceMaterial::Metal(Metal::new(Color::new(ONE, ONE, ONE), ONE / 4));
    let glass = SurfaceMaterial::Dielectric(Dielectric::new(3 * ONE / 2));
    world.add(Sphere::new(Vec3::new(-ONE, 0, -ONE), ONE / 2, mirror));
    world.add(Sphere::new(Vec3::new(ONE, 0, -ONE), ONE / 2, glass));
    let cam = camera(16, 1, 8);
    let mut rng = StdRng::seed_from_u64(21);
    for j in 0..9 {
        for i in 0..16 {
            let ray = cam.get_ray(i, j, &mut rng);
            let c = cam.ray_color(&ray, 8, &world, &mut rng);
            for ch in [c.x(), c.y(), c.z()] {
                assert!(0 <= ch && ch <= ONE);
            }
        }
    }
}
