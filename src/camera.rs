use vstd::prelude::*;

use rand::rngs::StdRng;

use crate::color::{gamma_spec, in_unit_range, lemma_fx_mul_unit, lemma_times_in_unit_range, Color};
use crate::fixed::{floor_div, fx_div, fx_div_spec, fx_mul, fx_mul_spec, sat, saturate, ONE};
use crate::hittable::{HitRecord, Hittable};
use crate::hittable_list::{lemma_list_hit_closest, scan, HittableList};
use crate::sphere::Sphere;
use crate::interval::{clamp_spec, Interval};
use crate::material::{is_zero, lemma_attenuation_in_unit_range, Material};
use crate::ppm::{ppm_text, ppm_text_spec};
use crate::ray::Ray;
use crate::rng::draw;
use crate::vec3::{
    cross_spec, in_unit_disk, lemma_unit_components, minus_spec, neg_spec, plus_spec, scale_spec, times_spec, unit_spec,
    div_int_spec, scale_int_spec, Point3D, Vec3,
};

verus! {

/// Hits nearer than this parameter are ignored, so that a scattered ray does not meet
/// the surface it leaves again through rounding.
pub const T_MIN: i32 = 66;

/// Channels are clamped to `[0, INTENSITY_MAX]`, just below one, before quantizing.
pub const INTENSITY_MAX: i32 = 65470;

/// The camera's configuration and the frame derived from it once.
pub struct Camera {
    pub image_width: i32,
    pub image_height: i32,
    pub center: Point3D,
    pub pixel00_loc: Point3D,
    pub pixel_delta_u: Vec3,
    pub pixel_delta_v: Vec3,
    pub samples_per_pixel: i32,
    pub max_depth: i32,
    pub defocus_disk_u: Vec3,
    pub defocus_disk_v: Vec3,
    pub defocus_tan: i32,
}

/// `image_width / aspect_ratio`, at least one.
pub open spec fn image_height_spec(aspect_ratio: int, image_width: int) -> int {
    let q = image_width * ONE / aspect_ratio;
    if q < 1 {
        1
    } else {
        sat(q)
    }
}

/// The camera that `Camera::new` derives from its configuration.
pub open spec fn camera_spec(
    aspect_ratio: int,
    image_width: int,
    samples_per_pixel: int,
    max_depth: int,
    half_fov_tan: int,
    look_from: Point3D,
    look_at: Point3D,
    vup: Vec3,
    defocus_tan: int,
    focus_distance: int,
) -> Camera {
    let image_height = image_height_spec(aspect_ratio, image_width);
    let viewport_height = sat(2 * fx_mul_spec(half_fov_tan, focus_distance));
    let viewport_width = fx_mul_spec(viewport_height, fx_div_spec(image_width, image_height));
    let w = unit_spec(minus_spec(look_from, look_at));
    let u = unit_spec(cross_spec(vup, w));
    let v = cross_spec(w, u);
    let viewport_u = scale_spec(u, viewport_width);
    let viewport_v = scale_spec(neg_spec(v), viewport_height);
    let pixel_delta_u = div_int_spec(viewport_u, image_width);
    let pixel_delta_v = div_int_spec(viewport_v, image_height);
    let half_u = div_int_spec(viewport_u, 2);
    let half_v = div_int_spec(viewport_v, 2);
    let upper_left = minus_spec(minus_spec(minus_spec(look_from, scale_spec(w, focus_distance)), half_u), half_v);
    let deltas = plus_spec(pixel_delta_u, pixel_delta_v);
    let pixel00_loc = plus_spec(upper_left, div_int_spec(deltas, 2));
    let defocus_radius = fx_mul_spec(focus_distance, defocus_tan);
    Camera {
        image_width: image_width as i32,
        image_height: image_height as i32,
        center: look_from,
        pixel00_loc,
        pixel_delta_u,
        pixel_delta_v,
        samples_per_pixel: samples_per_pixel as i32,
        max_depth: max_depth as i32,
        defocus_disk_u: scale_spec(u, defocus_radius),
        defocus_disk_v: scale_spec(v, defocus_radius),
        defocus_tan: defocus_tan as i32,
    }
}

pub open spec fn black() -> Color {
    Color(Vec3 { x: 0, y: 0, z: 0 })
}

/// The sky: white at the bottom blending to light blue at the top, by the height of
/// the ray's unit direction.
pub open spec fn background(direction: Vec3) -> Color {
    let a = (unit_spec(direction).y + ONE) / 2;
    Color(
        plus_spec(
            scale_spec(Vec3 { x: ONE, y: ONE, z: ONE }, ONE - a),
            scale_spec(Vec3 { x: 32768, y: 45875, z: ONE }, a),
        ),
    )
}

/// A hit's material comes from one of the scene's objects, so its parameters are in range.
proof fn lemma_hit_material_valid(world: &HittableList, ray: Ray, ray_t: Interval)
    requires
        world.wf(),
    ensures
        world.hit_spec(ray, ray_t) matches Some(h) ==> h.material.valid(),
{
    lemma_list_hit_closest(world, ray, ray_t);
}

/// One step of tracing: a hit, the material's answer, and what the scattered ray gave.
proof fn lemma_traced_step(
    objects: Seq<Sphere>,
    ray: Ray,
    depth: int,
    h: HitRecord,
    out: Option<(Ray, Color)>,
    inner: Color,
    r: Color,
)
    requires
        depth > 0,
        !is_zero(ray.direction),
        scan(objects, ray, search_interval(), objects.len() as int) == Some(h),
        h.material.can_scatter(ray, h, out),
        match out {
            None => r == black(),
            Some((scattered, attenuation)) => traced(objects, scattered, depth - 1, inner)
                && r.0 == times_spec(attenuation.0, inner.0),
        },
    ensures
        traced(objects, ray, depth, r),
{
}

/// The sky seen along a ray that has a direction.
fn sky(ray: &Ray) -> (r: Color)
    requires
        !is_zero(ray.direction),
    ensures
        r == background(ray.direction),
        in_unit_range(r),
{
    let unit_direction = ray.direction().unit_vec();
    // blend from white to sky blue by the direction's height
    proof {
        lemma_background_in_unit_range(ray.direction);
    }
    let a = floor_div(unit_direction.y() as i128 + ONE as i128, 2);
    let white = Color::new(ONE, ONE, ONE);
    let blue = Color::new(32768, 45875, ONE);
    white.scale((ONE as i128 - a) as i32).plus(blue.scale(a as i32))
}

/// The sky's colors lie in `[0, 1]`.
proof fn lemma_background_in_unit_range(direction: Vec3)
    requires
        !is_zero(direction),
    ensures
        in_unit_range(background(direction)),
{
    lemma_unit_components(direction);
    let a = (unit_spec(direction).y + ONE) / 2;
    assert(0 <= a <= ONE);
    // each blue channel, at most one, scaled by a stays within a
    lemma_fx_mul_unit(32768, a);
    lemma_fx_mul_unit(45875, a);
    assert(crate::fixed::fx_mul_spec(a, ONE as int) == a);
    assert(crate::fixed::fx_mul_spec(ONE - a, ONE as int) == ONE - a);
}

/// `c` is a color that tracing `ray` with `depth` bounces left can give: black once the
/// bounces are spent or the ray has no direction, the sky where nothing is hit, black
/// where the hit material absorbs the ray, and otherwise the material's attenuation
/// times a color that tracing the scattered ray with one bounce fewer can give.
pub open spec fn traced(objects: Seq<Sphere>, ray: Ray, depth: int, c: Color) -> bool
    decreases depth,
{
    if depth <= 0 || is_zero(ray.direction) {
        c == black()
    } else {
        match scan(objects, ray, search_interval(), objects.len() as int) {
            None => c == background(ray.direction),
            Some(h) => exists|out: Option<(Ray, Color)>|
                #[trigger] h.material.can_scatter(ray, h, out) && match out {
                    None => c == black(),
                    Some((scattered, attenuation)) => exists|inner: Color|
                        traced(objects, scattered, depth - 1, inner) && c.0 == #[trigger] times_spec(
                            attenuation.0,
                            inner.0,
                        ),
                },
        }
    }
}

/// The interval searched for hits.
pub open spec fn search_interval() -> Interval {
    Interval { min: T_MIN, max: i32::MAX }
}

/// One output channel: the average of the samples, gamma encoded, clamped below one
/// and scaled to `[0, 255]`.
pub open spec fn channel_value(sum: int, samples: int) -> int {
    let c = clamp_spec(Interval { min: 0, max: INTENSITY_MAX }, gamma_spec(sum / samples));
    256 * c / (ONE as int)
}

impl Camera {
    /// `aspect_ratio`, `half_fov_tan` (the tangent of half the vertical field of view),
    /// `defocus_tan` (the tangent of half the defocus cone's angle; zero or less for a
    /// pinhole) and `focus_distance` are fixed-point values; the rest are counts.
    pub fn new(
        aspect_ratio: i32,
        image_width: i32,
        samples_per_pixel: i32,
        max_depth: i32,
        half_fov_tan: i32,
        look_from: Point3D,
        look_at: Point3D,
        vup: Vec3,
        defocus_tan: i32,
        focus_distance: i32,
    ) -> (r: Camera)
        requires
            aspect_ratio > 0,
            image_width > 0,
            !is_zero(minus_spec(look_from, look_at)),
            !is_zero(cross_spec(vup, unit_spec(minus_spec(look_from, look_at)))),
        ensures
            r == camera_spec(
                aspect_ratio as int,
                image_width as int,
                samples_per_pixel as int,
                max_depth as int,
                half_fov_tan as int,
                look_from,
                look_at,
                vup,
                defocus_tan as int,
                focus_distance as int,
            ),
    {
        // the height follows the aspect ratio, and is at least one pixel
        let q = floor_div(image_width as i128 * 65536, aspect_ratio as i128);
        let image_height: i32 = if q < 1 {
            1
        } else {
            saturate(q)
        };
        let center = look_from;

        // viewport dimensions
        let viewport_height = saturate(2 * fx_mul(half_fov_tan, focus_distance) as i128);
        let viewport_width = fx_mul(viewport_height, fx_div(image_width, image_height));

        // the camera's orthonormal frame
        let w = look_from.minus(look_at).unit_vec();
        let u = vup.cross(w).unit_vec();
        let v = w.cross(u);

        // the viewport's edges and the steps between pixels
        let viewport_u = u.scale(viewport_width);
        let viewport_v = v.negated().scale(viewport_height);
        let pixel_delta_u = viewport_u.div_int(image_width);
        let pixel_delta_v = viewport_v.div_int(image_height);

        // the centre of the upper left pixel
        let viewport_upper_left = center.minus(w.scale(focus_distance)).minus(viewport_u.div_int(2)).minus(
            viewport_v.div_int(2),
        );
        let pixel00_loc = viewport_upper_left.plus(pixel_delta_u.plus(pixel_delta_v).div_int(2));

        // the defocus disk's axes
        let defocus_radius = fx_mul(focus_distance, defocus_tan);
        let defocus_disk_u = u.scale(defocus_radius);
        let defocus_disk_v = v.scale(defocus_radius);

        Camera {
            image_width,
            image_height,
            center,
            pixel00_loc,
            pixel_delta_u,
            pixel_delta_v,
            samples_per_pixel,
            max_depth,
            defocus_disk_u,
            defocus_disk_v,
            defocus_tan,
        }
    }

    /// The centre of pixel `(i, j)`.
    pub open spec fn pixel_center(&self, i: int, j: int) -> Vec3 {
        let du = self.pixel_delta_u;
        let dv = self.pixel_delta_v;
        plus_spec(
            plus_spec(self.pixel00_loc, scale_int_spec(du, i)),
            scale_int_spec(dv, j),
        )
    }

    /// An offset within the pixel's footprint, `px` and `py` in `[-1/2, 1/2)`.
    pub open spec fn pixel_offset(&self, px: int, py: int) -> Vec3 {
        plus_spec(scale_spec(self.pixel_delta_u, px), scale_spec(self.pixel_delta_v, py))
    }

    /// The point of the defocus disk at disk coordinates `p`.
    pub open spec fn lens_point(&self, p: Vec3) -> Vec3 {
        plus_spec(
            plus_spec(self.center, scale_spec(self.defocus_disk_u, p.x as int)),
            scale_spec(self.defocus_disk_v, p.y as int),
        )
    }

    /// The ray through `sample` from `origin`.
    pub open spec fn ray_spec(&self, i: int, j: int, offset: Vec3, origin: Vec3) -> Ray {
        Ray { origin, direction: minus_spec(plus_spec(self.pixel_center(i, j), offset), origin) }
    }

    /// `r` is a ray that `get_ray` can give for pixel `(i, j)`: through a point of the
    /// pixel's footprint, from the centre or, with defocus, from a point of the disk.
    pub open spec fn is_camera_ray(&self, i: int, j: int, r: Ray) -> bool {
        exists|offset: Vec3, origin: Vec3|
            (exists|px: int, py: int|
                -32768 <= px < 32768 && -32768 <= py < 32768 && offset == #[trigger] self.pixel_offset(px, py))
            && (if self.defocus_tan <= 0 {
                origin == self.center
            } else {
                exists|p: Vec3| in_unit_disk(p) && origin == #[trigger] self.lens_point(p)
            }) && r == #[trigger] self.ray_spec(i, j, offset, origin)
    }

    /// `c` is one sample of pixel `(i, j)`: the traced color of one of its camera rays.
    pub open spec fn is_sample(&self, objects: Seq<Sphere>, i: int, j: int, c: Color) -> bool {
        exists|r: Ray| #[trigger] self.is_camera_ray(i, j, r) && traced(objects, r, self.max_depth as int, c)
    }

    /// `p` is a value pixel `(i, j)` can take: the channels of the sum of
    /// `samples_per_pixel` samples of it.
    pub open spec fn is_pixel(&self, objects: Seq<Sphere>, i: int, j: int, p: [u8; 3]) -> bool {
        exists|samples: Seq<Color>|
            samples.len() == self.samples_per_pixel && (forall|k: int|
                0 <= k < samples.len() ==> self.is_sample(objects, i, j, #[trigger] samples[k]))
                && p[0] == channel_value(#[trigger] color_sum(samples).0.x as int, self.samples_per_pixel as int)
                && p[1] == channel_value(color_sum(samples).0.y as int, self.samples_per_pixel as int)
                && p[2] == channel_value(color_sum(samples).0.z as int, self.samples_per_pixel as int)
    }

    /// A random point of the defocus disk.
    fn defocus_disk_sample(&self, rng: &mut StdRng) -> (r: Point3D)
        ensures
            exists|p: Vec3| in_unit_disk(p) && r == self.lens_point(p),
    {
        let p = Vec3::random_in_unit_disk(rng);
        self.center.plus(self.defocus_disk_u.scale(p.x())).plus(self.defocus_disk_v.scale(p.y()))
    }

    /// A random offset within the square footprint of a pixel.
    fn pixel_sample_square(&self, rng: &mut StdRng) -> (r: Vec3)
        ensures
            exists|px: int, py: int|
                -32768 <= px < 32768 && -32768 <= py < 32768 && r == #[trigger] self.pixel_offset(px, py),
    {
        let px = draw(rng, 0, ONE) - 32768;
        let py = draw(rng, 0, ONE) - 32768;
        let r = self.pixel_delta_u.scale(px).plus(self.pixel_delta_v.scale(py));
        assert(r == self.pixel_offset(px as int, py as int));
        r
    }

    /// A randomly jittered ray for pixel `(i, j)`, from the defocus disk when it has a
    /// size and from the centre otherwise.
    pub fn get_ray(&self, i: i32, j: i32, rng: &mut StdRng) -> (r: Ray)
        ensures
            self.is_camera_ray(i as int, j as int, r),
    {
        let pixel_center = self.pixel00_loc.plus(self.pixel_delta_u.scale_int(i)).plus(
            self.pixel_delta_v.scale_int(j),
        );
        let offset = self.pixel_sample_square(rng);
        let pixel_sample = pixel_center.plus(offset);
        let ray_origin = if self.defocus_tan <= 0 {
            self.center
        } else {
            self.defocus_disk_sample(rng)
        };
        let r = Ray::new(ray_origin, pixel_sample.minus(ray_origin));
        assert(r == self.ray_spec(i as int, j as int, offset, ray_origin));
        r
    }

    /// The light gathered along `ray` with at most `depth` further bounces: black once the
    /// bounces are spent or the ray has no direction, the sky where nothing is hit, and
    /// otherwise the attenuation of the hit material times the light of the scattered ray,
    /// or black where the material absorbs it.
    pub fn ray_color(&self, ray: &Ray, depth: i32, world: &HittableList, rng: &mut StdRng) -> (r: Color)
        requires
            world.wf(),
        ensures
            in_unit_range(r),
            traced(world.objects@, *ray, depth as int, r),
        decreases depth,
    {
        // the bounce limit is spent: no more light is gathered
        if depth <= 0 {
            return Color::new(0, 0, 0);
        }
        // a ray without direction meets nothing and has no sky to see
        if ray.direction().near_zero() {
            return Color::new(0, 0, 0);
        }
        let interval = Interval::new(T_MIN, i32::MAX);
        match world.hit(ray, &interval) {
            Some(hit) => {
                proof {
                    lemma_hit_material_valid(world, *ray, interval);
                }
                let out = hit.material.scatter(ray, &hit, rng);
                proof {
                    lemma_attenuation_in_unit_range(hit.material, *ray, hit, out);
                }
                match out {
                    Some((scattered, attenuation)) => {
                        let c = self.ray_color(&scattered, depth - 1, world, rng);
                        let r = attenuation.times(c);
                        proof {
                            lemma_times_in_unit_range(attenuation, c);
                            lemma_traced_step(world.objects@, *ray, depth as int, hit, out, c, r);
                        }
                        r
                    },
                    None => {
                        let r = Color::new(0, 0, 0);
                        proof {
                            lemma_traced_step(world.objects@, *ray, depth as int, hit, out, r, r);
                        }
                        r
                    },
                }
            },
            None => sky(ray),
        }
    }

    /// Every pixel, row by row from the top, each the average of `samples_per_pixel`
    /// traced samples. With no bounces allowed every pixel is black.
    pub fn render_pixels(&self, world: &HittableList, rng: &mut StdRng) -> (r: Vec<[u8; 3]>)
        requires
            world.wf(),
            self.image_width >= 1,
            self.image_height >= 1,
            self.samples_per_pixel >= 1,
        ensures
            r@.len() == self.image_width * self.image_height,
            forall|k: int|
                0 <= k < r@.len() ==> self.is_pixel(
                    world.objects@,
                    k % self.image_width as int,
                    k / self.image_width as int,
                    #[trigger] r@[k],
                ),
            self.max_depth <= 0 ==> forall|k: int|
                0 <= k < r@.len() ==> is_black_pixel(#[trigger] r@[k]),
    {
        let mut pixels: Vec<[u8; 3]> = Vec::new();
        let mut j: i32 = 0;
        while j < self.image_height
            invariant
                world.wf(),
                self.image_width >= 1,
                self.samples_per_pixel >= 1,
                0 <= j <= self.image_height,
                pixels@.len() == j * self.image_width,
                forall|k: int|
                    0 <= k < pixels@.len() ==> self.is_pixel(
                        world.objects@,
                        k % self.image_width as int,
                        k / self.image_width as int,
                        #[trigger] pixels@[k],
                    ),
                self.max_depth <= 0 ==> forall|k: int|
                    0 <= k < pixels@.len() ==> is_black_pixel(#[trigger] pixels@[k]),
            decreases self.image_height - j,
        {
            let mut i: i32 = 0;
            while i < self.image_width
                invariant
                    world.wf(),
                    self.samples_per_pixel >= 1,
                    0 <= j < self.image_height,
                    0 <= i <= self.image_width,
                    pixels@.len() == j * self.image_width + i,
                    forall|k: int|
                        0 <= k < pixels@.len() ==> self.is_pixel(
                            world.objects@,
                            k % self.image_width as int,
                            k / self.image_width as int,
                            #[trigger] pixels@[k],
                        ),
                    self.max_depth <= 0 ==> forall|k: int|
                        0 <= k < pixels@.len() ==> is_black_pixel(#[trigger] pixels@[k]),
                decreases self.image_width - i,
            {
                let mut pixel_color = Color::new(0, 0, 0);
                let ghost samples: Seq<Color> = Seq::empty();
                let mut s: i32 = 0;
                while s < self.samples_per_pixel
                    invariant
                        world.wf(),
                        0 <= s <= self.samples_per_pixel,
                        samples.len() == s,
                        pixel_color == color_sum(samples),
                        forall|k: int|
                            0 <= k < samples.len() ==> self.is_sample(
                                world.objects@,
                                i as int,
                                j as int,
                                #[trigger] samples[k],
                            ),
                        self.max_depth <= 0 ==> pixel_color == black(),
                    decreases self.samples_per_pixel - s,
                {
                    let ray = self.get_ray(i, j, rng);
                    let c = self.ray_color(&ray, self.max_depth, world, rng);
                    proof {
                        assert(self.is_camera_ray(i as int, j as int, ray));
                        assert(self.is_sample(world.objects@, i as int, j as int, c));
                        let next = samples.push(c);
                        assert(next.drop_last() =~= samples);
                        samples = next;
                    }
                    pixel_color.add_assign(c);
                    s = s + 1;
                }
                let p = Camera::pixel_value(pixel_color, self.samples_per_pixel);
                proof {
                    if self.max_depth <= 0 {
                        lemma_black_channel(self.samples_per_pixel as int);
                    }
                    assert(color_sum(samples).0.x == pixel_color.0.x);
                    assert(self.is_pixel(world.objects@, i as int, j as int, p));
                    let k = j * self.image_width + i;
                    vstd::arithmetic::div_mod::lemma_fundamental_div_mod_converse(
                        k as int,
                        self.image_width as int,
                        j as int,
                        i as int,
                    );
                }
                pixels.push(p);
                i = i + 1;
            }
            assert((j + 1) * self.image_width == j * self.image_width + self.image_width) by (nonlinear_arith);
            j = j + 1;
        }
        assert(j * self.image_width == self.image_width * self.image_height) by (nonlinear_arith)
            requires
                j == self.image_height,
        ;
        pixels
    }

    /// The rendered image in the plain-text pixel format.
    pub fn render(&self, world: &HittableList, rng: &mut StdRng) -> (r: Vec<u8>)
        requires
            world.wf(),
            self.image_width >= 1,
            self.image_height >= 1,
            self.samples_per_pixel >= 1,
        ensures
            exists|pixels: Seq<[u8; 3]>|
                pixels.len() == self.image_width * self.image_height
                && (forall|k: int|
                    0 <= k < pixels.len() ==> self.is_pixel(
                        world.objects@,
                        k % self.image_width as int,
                        k / self.image_width as int,
                        #[trigger] pixels[k],
                    ))
                && (self.max_depth <= 0 ==> forall|k: int| 0 <= k < pixels.len() ==> is_black_pixel(#[trigger] pixels[k]))
                && r@ == #[trigger] ppm_text_spec(self.image_width as nat, self.image_height as nat, pixels),
    {
        let pixels = self.render_pixels(world, rng);
        let r = ppm_text(self.image_width as u32, self.image_height as u32, &pixels);
        assert(r@ == ppm_text_spec(self.image_width as nat, self.image_height as nat, pixels@));
        r
    }

    /// The three channels of a pixel from the sum of its samples.
    pub fn pixel_value(sum: Color, samples_per_pixel: i32) -> (r: [u8; 3])
        requires
            samples_per_pixel >= 1,
        ensures
            r[0] == channel_value(sum.0.x as int, samples_per_pixel as int),
            r[1] == channel_value(sum.0.y as int, samples_per_pixel as int),
            r[2] == channel_value(sum.0.z as int, samples_per_pixel as int),
    {
        [
            channel_byte(sum.0.x, samples_per_pixel),
            channel_byte(sum.0.y, samples_per_pixel),
            channel_byte(sum.0.z, samples_per_pixel),
        ]
    }
}

/// The sum of colors, added in order from black.
pub open spec fn color_sum(colors: Seq<Color>) -> Color
    decreases colors.len(),
{
    if colors.len() == 0 {
        black()
    } else {
        Color(plus_spec(color_sum(colors.drop_last()).0, colors.last().0))
    }
}

pub open spec fn is_black_pixel(p: [u8; 3]) -> bool {
    p[0] == 0 && p[1] == 0 && p[2] == 0
}

/// A black sum makes a zero channel, whatever the number of samples.
proof fn lemma_black_channel(samples: int)
    requires
        samples >= 1,
    ensures
        channel_value(0, samples) == 0,
{
    assert(0int / samples == 0);
}

fn channel_byte(sum: i32, samples: i32) -> (r: u8)
    requires
        samples >= 1,
    ensures
        r == channel_value(sum as int, samples as int),
{
    let q = floor_div(sum as i128, samples as i128);
    assert(i32::MIN <= q <= i32::MAX) by (nonlinear_arith)
        requires
            q == (sum as int) / (samples as int),
            samples >= 1,
            i32::MIN <= sum <= i32::MAX,
    ;
    let g = Color::linear_to_gamma(q as i32);
    let intensity = Interval::new(0, INTENSITY_MAX);
    let c = intensity.clamp(g);
    let b: u32 = (256 * c as u32) / 65536;
    b as u8
}

} // verus!
