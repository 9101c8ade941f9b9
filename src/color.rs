use vstd::prelude::*;

use rand::rngs::StdRng;

use crate::fixed::{fx_sqrt, is_isqrt, sqrt_floor, ONE};
use crate::vec3::{plus_spec, scale_spec, times_spec, Vec3};

verus! {

/// A linear RGB color; each channel is a fixed-point number, nominally in `[0, 1]`.
#[derive(Clone, Copy, Debug, PartialEq, Eq, Structural)]
pub struct Color(pub Vec3);

/// What `as_i32` makes of one channel: `255.999 * c`, truncated toward zero.
pub open spec fn channel_byte(c: int) -> int {
    let n = 255999 * c;
    let d = 1000 * ONE as int;
    if n >= 0 {
        n / d
    } else {
        -((-n) / d)
    }
}

/// Gamma 2 encoding of a linear channel; a value at or below zero encodes to zero.
pub open spec fn gamma_spec(lc: int) -> int {
    if lc <= 0 {
        0
    } else {
        sqrt_floor(lc * ONE)
    }
}

/// Every channel lies in `[0, 1]`.
pub open spec fn in_unit_range(c: Color) -> bool {
    0 <= c.0.x <= ONE && 0 <= c.0.y <= ONE && 0 <= c.0.z <= ONE
}

/// Tinting keeps colors in `[0, 1]`.
pub proof fn lemma_times_in_unit_range(a: Color, b: Color)
    requires
        in_unit_range(a),
        in_unit_range(b),
    ensures
        in_unit_range(Color(times_spec(a.0, b.0))),
{
    lemma_fx_mul_unit(a.0.x as int, b.0.x as int);
    lemma_fx_mul_unit(a.0.y as int, b.0.y as int);
    lemma_fx_mul_unit(a.0.z as int, b.0.z as int);
}

/// The fixed-point product of `a` in `[0, 1]` and a non-negative `b` lies in `[0, b]`.
pub proof fn lemma_fx_mul_unit(a: int, b: int)
    requires
        0 <= a <= ONE,
        0 <= b,
        b <= 0x7fff_ffff,
    ensures
        0 <= crate::fixed::fx_mul_spec(a, b) <= b,
        0 <= crate::fixed::fx_mul_spec(b, a) <= b,
{
    assert(0 <= (a * b) / 65536 <= b) by (nonlinear_arith)
        requires
            0 <= a <= 65536,
            0 <= b,
    ;
    assert(a * b == b * a) by (nonlinear_arith);
}

impl Color {
    pub fn new(x: i32, y: i32, z: i32) -> (r: Color)
        ensures
            r.0 == (Vec3 { x, y, z }),
    {
        Color(Vec3 { x, y, z })
    }

    pub fn x(&self) -> (r: i32)
        ensures
            r == self.0.x,
    {
        self.0.x
    }

    pub fn y(&self) -> (r: i32)
        ensures
            r == self.0.y,
    {
        self.0.y
    }

    pub fn z(&self) -> (r: i32)
        ensures
            r == self.0.z,
    {
        self.0.z
    }

    /// A color with each channel drawn from `[0, 1)`.
    pub fn random(rng: &mut StdRng) -> (r: Color)
        ensures
            0 <= r.0.x < ONE && 0 <= r.0.y < ONE && 0 <= r.0.z < ONE,
    {
        Color(Vec3::random(rng))
    }

    /// A color with each channel drawn from `[min, max)`.
    pub fn random_in_range(rng: &mut StdRng, min: i32, max: i32) -> (r: Color)
        requires
            min < max,
        ensures
            min <= r.0.x < max && min <= r.0.y < max && min <= r.0.z < max,
    {
        Color(Vec3::random_in_range(rng, min, max))
    }

    /// Each channel scaled to a byte value.
    pub fn as_i32(&self) -> (r: [i32; 3])
        ensures
            r[0] == channel_byte(self.0.x as int),
            r[1] == channel_byte(self.0.y as int),
            r[2] == channel_byte(self.0.z as int),
    {
        [channel_to_byte(self.0.x), channel_to_byte(self.0.y), channel_to_byte(self.0.z)]
    }

    /// The gamma-encoded value of a linear channel: its square root.
    pub fn linear_to_gamma(lc: i32) -> (r: i32)
        ensures
            r == gamma_spec(lc as int),
            lc >= 0 ==> is_isqrt(lc * ONE, r as int),
    {
        if lc <= 0 {
            0
        } else {
            let r = fx_sqrt(lc);
            proof {
                crate::fixed::lemma_sqrt_floor(lc * ONE, r as int);
            }
            r
        }
    }

    /// Channel-wise product, the tint of one color by another.
    pub fn times(self, rhs: Color) -> (r: Color)
        ensures
            r.0 == times_spec(self.0, rhs.0),
    {
        Color(self.0.times(rhs.0))
    }

    /// Product with the scalar `t`.
    pub fn scale(self, t: i32) -> (r: Color)
        ensures
            r.0 == scale_spec(self.0, t as int),
    {
        Color(self.0.scale(t))
    }

    pub fn plus(self, rhs: Color) -> (r: Color)
        ensures
            r.0 == plus_spec(self.0, rhs.0),
    {
        Color(self.0.plus(rhs.0))
    }

    pub fn add_assign(&mut self, rhs: Color)
        ensures
            final(self).0 == plus_spec(old(self).0, rhs.0),
    {
        self.0 = self.0.plus(rhs.0);
    }
}

fn channel_to_byte(c: i32) -> (r: i32)
    ensures
        r == channel_byte(c as int),
{
    let n: i64 = 255999 * c as i64;
    let d: i64 = 65536000;
    if n >= 0 {
        let q = n / d;
        assert(0 <= q <= 0x7fff_ffff);
        q as i32
    } else {
        let q = (-n) / d;
        -(q as i32)
    }
}

} // verus!
