use vstd::prelude::*;

use rand::rngs::StdRng;

use crate::rng::draw;
use crate::fixed::{
    fx_div, fx_mul, fx_sqrt, floor_div, is_isqrt, isqrt, lemma_sqrt_floor, sat, saturate,
    sqrt_floor, fx_div_spec, fx_mul_spec, ONE,
};

verus! {

/// A vector or point in space; each component is a fixed-point number (see `ONE`).
#[derive(Clone, Copy, Debug, PartialEq, Eq, Structural)]
pub struct Vec3 {
    pub x: i32,
    pub y: i32,
    pub z: i32,
}

/// Points are vectors read as positions.
pub type Point3D = Vec3;

/// The vector whose components are `x`, `y`, `z` clamped to the representable range.
pub open spec fn vec_of(x: int, y: int, z: int) -> Vec3 {
    Vec3 { x: sat(x) as i32, y: sat(y) as i32, z: sat(z) as i32 }
}

/// The exact dot product of the raw components (scale `ONE * ONE`).
pub open spec fn raw_dot(a: Vec3, b: Vec3) -> int {
    a.x * b.x + a.y * b.y + a.z * b.z
}

/// Every component is within the range that arithmetic results take.
pub open spec fn in_range(v: Vec3) -> bool {
    -0x7fff_ffff <= v.x && -0x7fff_ffff <= v.y && -0x7fff_ffff <= v.z
}

pub open spec fn plus_spec(a: Vec3, b: Vec3) -> Vec3 {
    vec_of(a.x + b.x, a.y + b.y, a.z + b.z)
}

pub open spec fn minus_spec(a: Vec3, b: Vec3) -> Vec3 {
    vec_of(a.x - b.x, a.y - b.y, a.z - b.z)
}

pub open spec fn neg_spec(a: Vec3) -> Vec3 {
    vec_of(-a.x, -a.y, -a.z)
}

pub open spec fn times_spec(a: Vec3, b: Vec3) -> Vec3 {
    Vec3 {
        x: fx_mul_spec(a.x as int, b.x as int) as i32,
        y: fx_mul_spec(a.y as int, b.y as int) as i32,
        z: fx_mul_spec(a.z as int, b.z as int) as i32,
    }
}

pub open spec fn scale_spec(a: Vec3, t: int) -> Vec3 {
    Vec3 {
        x: fx_mul_spec(t, a.x as int) as i32,
        y: fx_mul_spec(t, a.y as int) as i32,
        z: fx_mul_spec(t, a.z as int) as i32,
    }
}

pub open spec fn div_spec(a: Vec3, t: int) -> Vec3 {
    Vec3 {
        x: fx_div_spec(a.x as int, t) as i32,
        y: fx_div_spec(a.y as int, t) as i32,
        z: fx_div_spec(a.z as int, t) as i32,
    }
}

/// Product with a whole number.
pub open spec fn scale_int_spec(a: Vec3, k: int) -> Vec3 {
    vec_of(k * a.x, k * a.y, k * a.z)
}

/// Quotient by a whole number, rounded down.
pub open spec fn div_int_spec(a: Vec3, n: int) -> Vec3 {
    vec_of(a.x as int / n, a.y as int / n, a.z as int / n)
}

/// Fixed-point dot product, rounded down.
pub open spec fn dot_spec(a: Vec3, b: Vec3) -> int {
    sat(raw_dot(a, b) / (ONE as int))
}

pub open spec fn cross_spec(a: Vec3, b: Vec3) -> Vec3 {
    vec_of(
        (a.y * b.z - a.z * b.y) / (ONE as int),
        (a.z * b.x - a.x * b.z) / (ONE as int),
        (a.x * b.y - a.y * b.x) / (ONE as int),
    )
}

/// Euclidean length in fixed point, rounded down.
pub open spec fn length_spec(a: Vec3) -> int {
    sat(sqrt_floor(raw_dot(a, a)))
}

/// The vector divided by its length.
pub open spec fn unit_spec(a: Vec3) -> Vec3 {
    let s = sqrt_floor(raw_dot(a, a));
    vec_of(a.x * ONE / s, a.y * ONE / s, a.z * ONE / s)
}

/// Mirror image of `v` about the plane with normal `n`: `v - 2 (v . n) n`, rounded once.
pub open spec fn reflect_spec(v: Vec3, n: Vec3) -> Vec3 {
    let d = 2 * raw_dot(v, n);
    let q = ONE as int * ONE as int;
    vec_of(v.x - d * n.x / q, v.y - d * n.y / q, v.z - d * n.z / q)
}

/// Snell's law: the part of the refracted ray across `n`, then the part along it.
pub open spec fn refract_spec(uv: Vec3, n: Vec3, etai_over_etat: int) -> Vec3 {
    let neg_dot = -dot_spec(uv, n);
    let cos_theta = if neg_dot < ONE { neg_dot } else { ONE as int };
    let perp = scale_spec(plus_spec(uv, scale_spec(n, cos_theta)), etai_over_etat);
    let rest = ONE - dot_spec(perp, perp);
    let along = sqrt_floor((if rest < 0 { -rest } else { rest }) * ONE);
    plus_spec(perp, scale_spec(n, -along))
}

/// Reflecting twice about a unit normal gives the vector back, wherever the
/// reflections are exact: `2 (v . n) n` is a whole multiple of one in each component
/// and the first reflection stays in range.
pub proof fn lemma_reflect_involution(v: Vec3, n: Vec3)
    requires
        raw_dot(n, n) == ONE as int * ONE as int,
        (2 * raw_dot(v, n) * n.x) % (ONE as int * ONE as int) == 0,
        (2 * raw_dot(v, n) * n.y) % (ONE as int * ONE as int) == 0,
        (2 * raw_dot(v, n) * n.z) % (ONE as int * ONE as int) == 0,
        sat(v.x - 2 * raw_dot(v, n) * n.x / (ONE as int * ONE as int)) == v.x - 2 * raw_dot(v, n) * n.x / (ONE as int * ONE as int),
        sat(v.y - 2 * raw_dot(v, n) * n.y / (ONE as int * ONE as int)) == v.y - 2 * raw_dot(v, n) * n.y / (ONE as int * ONE as int),
        sat(v.z - 2 * raw_dot(v, n) * n.z / (ONE as int * ONE as int)) == v.z - 2 * raw_dot(v, n) * n.z / (ONE as int * ONE as int),
        in_range(v),
    ensures
        reflect_spec(reflect_spec(v, n), n) == v,
{
    let f: int = ONE as int * ONE as int;
    let dd = raw_dot(v, n);
    let qx = 2 * dd * n.x / f;
    let qy = 2 * dd * n.y / f;
    let qz = 2 * dd * n.z / f;
    assert(qx * f == 2 * dd * n.x) by (nonlinear_arith)
        requires (2 * dd * n.x) % f == 0, qx == 2 * dd * n.x / f, f > 0;
    assert(qy * f == 2 * dd * n.y) by (nonlinear_arith)
        requires (2 * dd * n.y) % f == 0, qy == 2 * dd * n.y / f, f > 0;
    assert(qz * f == 2 * dd * n.z) by (nonlinear_arith)
        requires (2 * dd * n.z) % f == 0, qz == 2 * dd * n.z / f, f > 0;
    let r = reflect_spec(v, n);
    assert(r.x == v.x - qx && r.y == v.y - qy && r.z == v.z - qz);
    // the reflection turns the component along the normal around
    let ax = qx * n.x;
    let ay = qy * n.y;
    let az = qz * n.z;
    assert(ax * f == 2 * dd * (n.x * n.x)) by (nonlinear_arith)
        requires ax == qx * n.x, qx * f == 2 * dd * n.x;
    assert(ay * f == 2 * dd * (n.y * n.y)) by (nonlinear_arith)
        requires ay == qy * n.y, qy * f == 2 * dd * n.y;
    assert(az * f == 2 * dd * (n.z * n.z)) by (nonlinear_arith)
        requires az == qz * n.z, qz * f == 2 * dd * n.z;
    assert((ax + ay + az) * f == ax * f + ay * f + az * f) by (nonlinear_arith);
    assert(2 * dd * (n.x * n.x) + 2 * dd * (n.y * n.y) + 2 * dd * (n.z * n.z)
        == 2 * dd * (n.x * n.x + n.y * n.y + n.z * n.z)) by (nonlinear_arith);
    assert((qx * n.x + qy * n.y + qz * n.z) * f == 2 * dd * f);
    assert(qx * n.x + qy * n.y + qz * n.z == 2 * dd) by (nonlinear_arith)
        requires
            (qx * n.x + qy * n.y + qz * n.z) * f == 2 * dd * f,
            f > 0,
    ;
    let rd = raw_dot(r, n);
    assert(rd == -dd) by (nonlinear_arith)
        requires
            rd == r.x * n.x + r.y * n.y + r.z * n.z,
            dd == v.x * n.x + v.y * n.y + v.z * n.z,
            r.x == v.x - qx,
            r.y == v.y - qy,
            r.z == v.z - qz,
            qx * n.x + qy * n.y + qz * n.z == 2 * dd,
    ;
    assert(2 * rd * n.x / f == -qx) by (nonlinear_arith)
        requires rd == -dd, qx * f == 2 * dd * n.x, f > 0;
    assert(2 * rd * n.y / f == -qy) by (nonlinear_arith)
        requires rd == -dd, qy * f == 2 * dd * n.y, f > 0;
    assert(2 * rd * n.z / f == -qz) by (nonlinear_arith)
        requires rd == -dd, qz * f == 2 * dd * n.z, f > 0;
}

/// Each component of a unit vector lies in `[-1, 1]`.
pub proof fn lemma_unit_components(a: Vec3)
    requires
        !(a.x == 0 && a.y == 0 && a.z == 0),
    ensures
        -ONE <= unit_spec(a).x <= ONE,
        -ONE <= unit_spec(a).y <= ONE,
        -ONE <= unit_spec(a).z <= ONE,
{
    let n = raw_dot(a, a);
    assert(n > 0) by (nonlinear_arith)
        requires
            !(a.x == 0 && a.y == 0 && a.z == 0),
            n == a.x * a.x + a.y * a.y + a.z * a.z,
    ;
    crate::fixed::lemma_sqrt_floor_exists(n);
    let s = sqrt_floor(n);
    assert(s > 0) by (nonlinear_arith)
        requires
            n < (s + 1) * (s + 1),
            n > 0,
            s >= 0,
    ;
    assert(a.x * a.x <= n && a.y * a.y <= n && a.z * a.z <= n) by (nonlinear_arith)
        requires
            n == a.x * a.x + a.y * a.y + a.z * a.z,
    ;
    lemma_unit_component(a.x as int, n, s);
    lemma_unit_component(a.y as int, n, s);
    lemma_unit_component(a.z as int, n, s);
}

proof fn lemma_unit_component(c: int, n: int, s: int)
    requires
        c * c <= n < (s + 1) * (s + 1),
        s > 0,
    ensures
        -ONE <= c * ONE / s <= ONE,
{
    assert(-s <= c <= s) by (nonlinear_arith)
        requires
            c * c < (s + 1) * (s + 1),
            s > 0,
    ;
    assert(-65536 <= c * 65536 / s <= 65536) by (nonlinear_arith)
        requires
            -s <= c <= s,
            s > 0,
    ;
}

proof fn lemma_raw_dot_bound(a: Vec3, b: Vec3)
    ensures
        -0xc000_0000_0000_0000 <= raw_dot(a, b) <= 0xc000_0000_0000_0000,
{
    lemma_mul_i32(a.x, b.x);
    lemma_mul_i32(a.y, b.y);
    lemma_mul_i32(a.z, b.z);
}

pub(crate) proof fn lemma_mul_i32(a: i32, b: i32)
    ensures
        -0x4000_0000_0000_0000 <= a * b <= 0x4000_0000_0000_0000,
{
    assert(-0x4000_0000_0000_0000 <= a * b <= 0x4000_0000_0000_0000) by (nonlinear_arith)
        requires
            i32::MIN <= a <= i32::MAX,
            i32::MIN <= b <= i32::MAX,
    ;
}

/// Exact dot product of the raw components.
pub(crate) fn dot_raw(a: Vec3, b: Vec3) -> (r: i128)
    ensures
        r == raw_dot(a, b),
{
    proof {
        lemma_mul_i32(a.x, b.x);
        lemma_mul_i32(a.y, b.y);
        lemma_mul_i32(a.z, b.z);
    }
    a.x as i128 * b.x as i128 + a.y as i128 * b.y as i128 + a.z as i128 * b.z as i128
}

impl Vec3 {
    pub fn new(x: i32, y: i32, z: i32) -> (r: Vec3)
        ensures
            r == (Vec3 { x, y, z }),
    {
        Vec3 { x, y, z }
    }

    pub fn x(&self) -> (r: i32)
        ensures
            r == self.x,
    {
        self.x
    }

    pub fn y(&self) -> (r: i32)
        ensures
            r == self.y,
    {
        self.y
    }

    pub fn z(&self) -> (r: i32)
        ensures
            r == self.z,
    {
        self.z
    }

    pub fn plus(self, rhs: Vec3) -> (r: Vec3)
        ensures
            r == plus_spec(self, rhs),
    {
        Vec3 {
            x: saturate(self.x as i128 + rhs.x as i128),
            y: saturate(self.y as i128 + rhs.y as i128),
            z: saturate(self.z as i128 + rhs.z as i128),
        }
    }

    pub fn minus(self, rhs: Vec3) -> (r: Vec3)
        ensures
            r == minus_spec(self, rhs),
    {
        Vec3 {
            x: saturate(self.x as i128 - rhs.x as i128),
            y: saturate(self.y as i128 - rhs.y as i128),
            z: saturate(self.z as i128 - rhs.z as i128),
        }
    }

    pub fn negated(self) -> (r: Vec3)
        ensures
            r == neg_spec(self),
    {
        Vec3 {
            x: saturate(-(self.x as i128)),
            y: saturate(-(self.y as i128)),
            z: saturate(-(self.z as i128)),
        }
    }

    pub fn add_assign(&mut self, rhs: Vec3)
        ensures
            *final(self) == plus_spec(*old(self), rhs),
    {
        *self = self.plus(rhs);
    }

    /// Scales in place by `t`.
    pub fn mul_assign(&mut self, t: i32)
        ensures
            *final(self) == scale_spec(*old(self), t as int),
    {
        *self = self.scale(t);
    }

    /// Divides in place by the non-zero scalar `t`.
    pub fn div_assign(&mut self, t: i32)
        requires
            t != 0,
        ensures
            *final(self) == div_spec(*old(self), t as int),
    {
        *self = self.div_by(t);
    }

    /// Component-wise product.
    pub fn times(self, rhs: Vec3) -> (r: Vec3)
        ensures
            r == times_spec(self, rhs),
    {
        Vec3 { x: fx_mul(self.x, rhs.x), y: fx_mul(self.y, rhs.y), z: fx_mul(self.z, rhs.z) }
    }

    /// Product with the scalar `t`.
    pub fn scale(self, t: i32) -> (r: Vec3)
        ensures
            r == scale_spec(self, t as int),
    {
        Vec3 { x: fx_mul(t, self.x), y: fx_mul(t, self.y), z: fx_mul(t, self.z) }
    }

    /// Quotient by the non-zero scalar `t`.
    pub fn div_by(self, t: i32) -> (r: Vec3)
        requires
            t != 0,
        ensures
            r == div_spec(self, t as int),
    {
        Vec3 { x: fx_div(self.x, t), y: fx_div(self.y, t), z: fx_div(self.z, t) }
    }

    /// Product with a whole number `k` (a count, not a fixed-point value).
    pub fn scale_int(self, k: i32) -> (r: Vec3)
        ensures
            r == scale_int_spec(self, k as int),
    {
        proof {
            lemma_mul_i32(k, self.x);
            lemma_mul_i32(k, self.y);
            lemma_mul_i32(k, self.z);
        }
        Vec3 {
            x: saturate(k as i128 * self.x as i128),
            y: saturate(k as i128 * self.y as i128),
            z: saturate(k as i128 * self.z as i128),
        }
    }

    /// Quotient by a positive whole number `n`, rounded down.
    pub fn div_int(self, n: i32) -> (r: Vec3)
        requires
            n > 0,
        ensures
            r == div_int_spec(self, n as int),
    {
        Vec3 {
            x: saturate(floor_div(self.x as i128, n as i128)),
            y: saturate(floor_div(self.y as i128, n as i128)),
            z: saturate(floor_div(self.z as i128, n as i128)),
        }
    }

    pub fn dot(self, rhs: Vec3) -> (r: i32)
        ensures
            r == dot_spec(self, rhs),
    {
        saturate(floor_div(dot_raw(self, rhs), 65536))
    }

    pub fn cross(self, rhs: Vec3) -> (r: Vec3)
        ensures
            r == cross_spec(self, rhs),
    {
        proof {
            lemma_mul_i32(self.y, rhs.z);
            lemma_mul_i32(self.z, rhs.y);
            lemma_mul_i32(self.z, rhs.x);
            lemma_mul_i32(self.x, rhs.z);
            lemma_mul_i32(self.x, rhs.y);
            lemma_mul_i32(self.y, rhs.x);
        }
        let cx = self.y as i128 * rhs.z as i128 - self.z as i128 * rhs.y as i128;
        let cy = self.z as i128 * rhs.x as i128 - self.x as i128 * rhs.z as i128;
        let cz = self.x as i128 * rhs.y as i128 - self.y as i128 * rhs.x as i128;
        Vec3 {
            x: saturate(floor_div(cx, 65536)),
            y: saturate(floor_div(cy, 65536)),
            z: saturate(floor_div(cz, 65536)),
        }
    }

    pub fn length_squared(self) -> (r: i32)
        ensures
            r == dot_spec(self, self),
    {
        self.dot(self)
    }

    pub fn length(self) -> (r: i32)
        ensures
            r == length_spec(self),
    {
        let s = raw_length(self);
        saturate(s as i128)
    }

    /// True when every component is below the smallest representable magnitude.
    pub fn near_zero(self) -> (r: bool)
        ensures
            r == (self.x == 0 && self.y == 0 && self.z == 0),
    {
        self.x == 0 && self.y == 0 && self.z == 0
    }

    pub fn reflect(v: Vec3, n: Vec3) -> (r: Vec3)
        ensures
            r == reflect_spec(v, n),
    {
        let d = dot_raw(v, n);
        proof {
            lemma_raw_dot_bound(v, n);
            lemma_scaled_bound(2 * d, n.x);
            lemma_scaled_bound(2 * d, n.y);
            lemma_scaled_bound(2 * d, n.z);
        }
        let q: i128 = 0x1_0000_0000;
        Vec3 {
            x: saturate(v.x as i128 - floor_div(2 * d * n.x as i128, q)),
            y: saturate(v.y as i128 - floor_div(2 * d * n.y as i128, q)),
            z: saturate(v.z as i128 - floor_div(2 * d * n.z as i128, q)),
        }
    }

    pub fn refract(uv: Vec3, n: Vec3, etai_over_etat: i32) -> (r: Vec3)
        ensures
            r == refract_spec(uv, n, etai_over_etat as int),
    {
        let neg_dot = -uv.dot(n);
        let cos_theta = if neg_dot < ONE { neg_dot } else { ONE };
        let perp = uv.plus(n.scale(cos_theta)).scale(etai_over_etat);
        let rest: i64 = ONE as i64 - perp.length_squared() as i64;
        let mag: i64 = if rest < 0 { -rest } else { rest };
        let along: i32 = if mag <= 0x7fff_ffff {
            fx_sqrt(mag as i32)
        } else {
            // the square root of a value above the i32 range, taken in a wider type
            let s = isqrt(mag as u128 * 65536);
            proof { lemma_sqrt_floor(mag * ONE, s as int); }
            assert(s < 0x7fff_ffff) by (nonlinear_arith)
                requires s * s <= mag * 65536, mag <= 0x1_0001_0000;
            s as i32
        };
        proof {
            lemma_sqrt_floor(mag * ONE, along as int);
        }
        perp.plus(n.scale(-along))
    }

    /// The vector scaled to unit length; it must not be the zero vector.
    pub fn unit_vec(self) -> (r: Vec3)
        requires
            !(self.x == 0 && self.y == 0 && self.z == 0),
        ensures
            r == unit_spec(self),
    {
        let s = raw_length(self);
        proof {
            assert(raw_dot(self, self) > 0) by (nonlinear_arith)
                requires
                    !(self.x == 0 && self.y == 0 && self.z == 0),
                    raw_dot(self, self) == self.x * self.x + self.y * self.y + self.z * self.z,
            ;
        }
        assert(s > 0) by (nonlinear_arith)
            requires
                raw_dot(self, self) < (s + 1) * (s + 1),
                raw_dot(self, self) > 0,
                s >= 0,
        ;
        let d = s as i128;
        Vec3 {
            x: saturate(floor_div(self.x as i128 * 65536, d)),
            y: saturate(floor_div(self.y as i128 * 65536, d)),
            z: saturate(floor_div(self.z as i128 * 65536, d)),
        }
    }
}

proof fn lemma_scaled_bound(d: int, c: i32)
    requires
        -0x1_8000_0000_0000_0000 <= d <= 0x1_8000_0000_0000_0000,
    ensures
        -0x1_0000_0000_0000_0000_0000_0000 <= d * c <= 0x1_0000_0000_0000_0000_0000_0000,
{
    assert(-0x1_0000_0000_0000_0000_0000_0000 <= d * c <= 0x1_0000_0000_0000_0000_0000_0000)
        by (nonlinear_arith)
        requires
            -0x1_8000_0000_0000_0000 <= d <= 0x1_8000_0000_0000_0000,
            i32::MIN <= c <= i32::MAX,
    ;
}

/// Rejection sampling gives up after this many draws; each draw is accepted with
/// probability above one half, so that is never seen in practice.
const MAX_TRIES: u32 = 64;

/// A point strictly inside the unit ball and away from its centre.
pub open spec fn in_unit_ball(p: Vec3) -> bool {
    0 < raw_dot(p, p) < ONE as int * ONE as int
}

/// A point of the plane `z = 0` strictly inside the unit circle.
pub open spec fn in_unit_disk(p: Vec3) -> bool {
    p.z == 0 && raw_dot(p, p) < ONE as int * ONE as int
}

/// A direction obtained by normalising a point of the unit ball.
pub open spec fn is_unit_sample(u: Vec3) -> bool {
    exists|p: Vec3| in_unit_ball(p) && u == unit_spec(p)
}

impl Vec3 {
    /// A vector with each component drawn from `[0, 1)`.
    pub fn random(rng: &mut StdRng) -> (r: Vec3)
        ensures
            0 <= r.x < ONE && 0 <= r.y < ONE && 0 <= r.z < ONE,
    {
        Vec3::random_in_range(rng, 0, ONE)
    }

    /// A vector with each component drawn from `[min, max)`.
    pub fn random_in_range(rng: &mut StdRng, min: i32, max: i32) -> (r: Vec3)
        requires
            min < max,
        ensures
            min <= r.x < max && min <= r.y < max && min <= r.z < max,
    {
        let x = draw(rng, min, max);
        let y = draw(rng, min, max);
        let z = draw(rng, min, max);
        Vec3 { x, y, z }
    }

    fn random_in_unit_sphere(rng: &mut StdRng) -> (r: Vec3)
        ensures
            in_unit_ball(r),
    {
        let mut tries: u32 = 0;
        while tries < MAX_TRIES
            invariant
                tries <= MAX_TRIES,
            decreases MAX_TRIES - tries,
        {
            let p = Vec3::random_in_range(rng, -ONE, ONE);
            let d = dot_raw(p, p);
            if 0 < d && d < 0x1_0000_0000 {
                return p;
            }
            tries = tries + 1;
        }
        let p = Vec3 { x: 32768, y: 0, z: 0 };
        assert(raw_dot(p, p) == 32768 * 32768);
        p
    }

    /// A unit direction, from normalising a uniform point of the unit ball.
    pub fn random_unit_vector(rng: &mut StdRng) -> (r: Vec3)
        ensures
            is_unit_sample(r),
    {
        let p = Vec3::random_in_unit_sphere(rng);
        let u = p.unit_vec();
        assert(in_unit_ball(p) && u == unit_spec(p));
        u
    }

    /// A unit direction on the side of the plane that `normal` points to.
    pub fn random_on_hemipshere(rng: &mut StdRng, normal: &Vec3) -> (r: Vec3)
        ensures
            exists|u: Vec3|
                is_unit_sample(u) && r == (if dot_spec(u, *normal) > 0 {
                    u
                } else {
                    neg_spec(u)
                }),
    {
        let on_unit_sphere = Vec3::random_unit_vector(rng);
        if on_unit_sphere.dot(*normal) > 0 {
            on_unit_sphere
        } else {
            on_unit_sphere.negated()
        }
    }

    /// A point of the unit disk in the plane `z = 0`.
    pub fn random_in_unit_disk(rng: &mut StdRng) -> (r: Vec3)
        ensures
            in_unit_disk(r),
    {
        let mut tries: u32 = 0;
        while tries < MAX_TRIES
            invariant
                tries <= MAX_TRIES,
            decreases MAX_TRIES - tries,
        {
            let p = Vec3 { x: draw(rng, -ONE, ONE), y: draw(rng, -ONE, ONE), z: 0 };
            if dot_raw(p, p) < 0x1_0000_0000 {
                return p;
            }
            tries = tries + 1;
        }
        Vec3 { x: 0, y: 0, z: 0 }
    }
}

/// The integer square root of the raw squared length.
fn raw_length(v: Vec3) -> (r: u64)
    ensures
        r == sqrt_floor(raw_dot(v, v)),
        is_isqrt(raw_dot(v, v), r as int),
{
    let n = dot_raw(v, v);
    proof {
        lemma_raw_dot_bound(v, v);
        assert(n >= 0) by (nonlinear_arith)
            requires
                n == v.x * v.x + v.y * v.y + v.z * v.z,
        ;
    }
    let s = isqrt(n as u128);
    proof {
        lemma_sqrt_floor(n as int, s as int);
        assert(s < 0x1_0000_0000_0000_0000) by (nonlinear_arith)
            requires
                s * s <= n,
                n <= 0xc000_0000_0000_0000,
        ;
    }
    s as u64
}

} // verus!
