use vstd::prelude::*;

verus! {

/// The raw value of one: scalars are fixed-point numbers with sixteen fractional bits.
pub const ONE: i32 = 65536;

/// The largest magnitude an arithmetic result keeps; larger results saturate.
pub const LIMIT: i32 = 2147483647;

/// `x` clamped into the symmetric range `[-LIMIT, LIMIT]`.
pub open spec fn sat(x: int) -> int {
    if x > LIMIT {
        LIMIT as int
    } else if x < -LIMIT {
        -LIMIT
    } else {
        x
    }
}

/// Fixed-point product of two raw values, rounded down.
pub open spec fn fx_mul_spec(a: int, b: int) -> int {
    sat((a * b) / (ONE as int))
}

/// Fixed-point quotient of two raw values, rounded down.
pub open spec fn fx_div_spec(a: int, b: int) -> int {
    sat((a * ONE) / b)
}

/// `r` is the integer square root of `n`.
pub open spec fn is_isqrt(n: int, r: int) -> bool {
    0 <= r && r * r <= n < (r + 1) * (r + 1)
}

/// The integer square root of a non-negative `n`.
pub open spec fn sqrt_floor(n: int) -> int {
    choose|r: int| is_isqrt(n, r)
}

/// An integer square root is unique, so `sqrt_floor` names any witness of it.
pub proof fn lemma_sqrt_floor(n: int, r: int)
    requires
        is_isqrt(n, r),
    ensures
        sqrt_floor(n) == r,
{
    let s = sqrt_floor(n);
    assert(is_isqrt(n, s));
    if s < r {
        assert((s + 1) * (s + 1) <= r * r) by (nonlinear_arith)
            requires
                0 <= s < r,
        ;
    } else if r < s {
        assert((r + 1) * (r + 1) <= s * s) by (nonlinear_arith)
            requires
                0 <= r < s,
        ;
    }
}

/// Every non-negative integer has an integer square root.
pub proof fn lemma_sqrt_floor_exists(n: int)
    requires
        n >= 0,
    ensures
        is_isqrt(n, sqrt_floor(n)),
    decreases n,
{
    if n == 0 {
        assert(is_isqrt(0, 0));
    } else {
        lemma_sqrt_floor_exists(n - 1);
        let r = sqrt_floor(n - 1);
        if (r + 1) * (r + 1) <= n {
            assert((r + 2) * (r + 2) > n) by (nonlinear_arith)
                requires
                    (r + 1) * (r + 1) <= n,
                    n - 1 < (r + 1) * (r + 1),
                    r >= 0,
            ;
            assert(is_isqrt(n, r + 1));
        } else {
            assert(is_isqrt(n, r));
        }
    }
}

/// Clamps a wide intermediate value into the range of results.
pub fn saturate(x: i128) -> (r: i32)
    ensures
        r == sat(x as int),
{
    if x > LIMIT as i128 {
        LIMIT
    } else if x < -(LIMIT as i128) {
        -LIMIT
    } else {
        x as i32
    }
}

/// Floor division by a positive divisor.
pub fn floor_div(a: i128, b: i128) -> (r: i128)
    requires
        b > 0,
    ensures
        r == a / b,
{
    assert(i128::MIN <= a / b <= i128::MAX) by (nonlinear_arith)
        requires
            b > 0,
            i128::MIN <= a <= i128::MAX,
    ;
    match a.checked_div_euclid(b) {
        Some(q) => q,
        None => 0,
    }
}

/// Integer square root, by bisection on `lo * lo <= n < hi * hi`.
pub fn isqrt(n: u128) -> (r: u128)
    ensures
        is_isqrt(n as int, r as int),
{
    let mut lo: u128 = 0;
    let mut hi: u128 = 0x1_0000_0000_0000_0000;
    assert(n < hi * hi) by (nonlinear_arith)
        requires
            hi == 0x1_0000_0000_0000_0000u128,
            n <= u128::MAX,
    ;
    while hi - lo > 1
        invariant
            lo < hi <= 0x1_0000_0000_0000_0000u128,
            lo * lo <= n < hi * hi,
        decreases hi - lo,
    {
        let mid: u128 = lo + (hi - lo) / 2;
        assert(mid * mid < 0x1_0000_0000_0000_0000_0000_0000_0000_0000int) by (nonlinear_arith)
            requires
                mid < 0x1_0000_0000_0000_0000u128,
        ;
        if mid * mid <= n {
            lo = mid;
        } else {
            hi = mid;
        }
    }
    lo
}

/// Fixed-point product, rounded down and saturated.
pub fn fx_mul(a: i32, b: i32) -> (r: i32)
    ensures
        r == fx_mul_spec(a as int, b as int),
{
    assert(-0x4000_0000_0000_0000 <= a * b <= 0x4000_0000_0000_0000) by (nonlinear_arith)
        requires
            i32::MIN <= a <= i32::MAX,
            i32::MIN <= b <= i32::MAX,
    ;
    saturate(floor_div(a as i128 * b as i128, ONE as i128))
}

/// Fixed-point quotient, rounded down and saturated.
pub fn fx_div(a: i32, b: i32) -> (r: i32)
    requires
        b != 0,
    ensures
        r == fx_div_spec(a as int, b as int),
{
    let n: i128 = a as i128 * 65536;
    if b > 0 {
        saturate(floor_div(n, b as i128))
    } else {
        // a / b == (-a) / (-b) for Euclidean division with a negative divisor
        let q = match n.checked_div_euclid(b as i128) {
            Some(q) => q,
            None => 0,
        };
        assert(i128::MIN <= (n as int) / (b as int) <= i128::MAX) by (nonlinear_arith)
            requires
                b < 0,
                -0x1_0000_0000_0000 <= n <= 0x1_0000_0000_0000,
        ;
        saturate(q)
    }
}

/// Fixed-point square root of a non-negative value, rounded down.
pub fn fx_sqrt(x: i32) -> (r: i32)
    requires
        x >= 0,
    ensures
        is_isqrt(x * ONE, r as int),
{
    let n: u128 = x as u128 * 65536;
    let s = isqrt(n);
    assert(s < 0x1000_0000) by (nonlinear_arith)
        requires
            s * s <= n,
            n == x * 65536,
            0 <= x <= i32::MAX,
    ;
    s as i32
}

} // verus!
