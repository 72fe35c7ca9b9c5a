//! Three-component vectors over fixed-point scalars.
//!
//! A `Vec3` serves as a point, a direction or a colour; `Point3` and
//! `Color` are aliases.  Every operation states exactly which integer it
//! computes, over the raw dot product `rdot` and the floor-rounded helpers
//! of `fixed`.

use vstd::prelude::*;
use crate::fixed::{
    SCALE, fx_mul, fx_mul_spec, fx_div, fx_div_spec, sqrt_fx, sqrt_floor, is_sqrt_floor, isqrt,
    clamp, clamp_spec, lemma_fx_range, lemma_abs_mul_le, lemma_div_abs_shrinks,
    lemma_sqrt_floor_exists,
};
use vstd::arithmetic::div_mod::{lemma_div_is_ordered, lemma_div_multiples_vanish};
use vstd::arithmetic::mul::lemma_mul_is_commutative;

verus! {

/// Largest coordinate magnitude the vector operations accept; keeps every
/// raw dot product within the range where the floor-divided result fits an
/// `i64`.
pub const VEC_MAX: i64 = 0x4000000000;

#[derive(Clone, Copy, Debug, PartialEq, Eq, Structural)]
pub struct Vec3 {
    pub x: i64,
    pub y: i64,
    pub z: i64,
}

/// Every component of `v` lies in `[-m, m]`.
pub open spec fn bounded(v: Vec3, m: int) -> bool {
    &&& -m <= v.x <= m
    &&& -m <= v.y <= m
    &&& -m <= v.z <= m
}

/// The range in which the nonlinear operations accept a vector.
pub open spec fn in_range(v: Vec3) -> bool {
    bounded(v, VEC_MAX as int)
}

/// The raw dot product: the exact integer sum of the component products,
/// carrying twice the fixed-point scale.
pub open spec fn rdot(a: Vec3, b: Vec3) -> int {
    a.x * b.x + a.y * b.y + a.z * b.z
}

/// The fixed-point dot product: the raw dot product brought back to scale.
pub open spec fn dot_spec(a: Vec3, b: Vec3) -> int {
    rdot(a, b) / (SCALE as int)
}

/// A raw dot product of vectors bounded by `ma` and `mb` is bounded by
/// `3 * ma * mb`.
pub proof fn lemma_rdot_bound(a: Vec3, b: Vec3, ma: int, mb: int)
    by (nonlinear_arith)
    requires
        bounded(a, ma),
        bounded(b, mb),
        0 <= ma,
        0 <= mb,
    ensures
        -(3 * ma * mb) <= rdot(a, b) <= 3 * ma * mb,
{
}

/// The componentwise negation.
pub open spec fn neg_spec(v: Vec3) -> Vec3 {
    Vec3 { x: (-v.x) as i64, y: (-v.y) as i64, z: (-v.z) as i64 }
}

/// The componentwise sum.
pub open spec fn add_spec(a: Vec3, b: Vec3) -> Vec3 {
    Vec3 { x: (a.x + b.x) as i64, y: (a.y + b.y) as i64, z: (a.z + b.z) as i64 }
}

/// The componentwise difference.
pub open spec fn sub_spec(a: Vec3, b: Vec3) -> Vec3 {
    Vec3 { x: (a.x - b.x) as i64, y: (a.y - b.y) as i64, z: (a.z - b.z) as i64 }
}

/// The vector scaled by a fixed-point factor, componentwise.
pub open spec fn scale_spec(v: Vec3, k: int) -> Vec3 {
    Vec3 {
        x: fx_mul_spec(v.x as int, k) as i64,
        y: fx_mul_spec(v.y as int, k) as i64,
        z: fx_mul_spec(v.z as int, k) as i64,
    }
}

/// The vector divided by a fixed-point factor, componentwise.
pub open spec fn div_by_spec(v: Vec3, k: int) -> Vec3 {
    Vec3 {
        x: fx_div_spec(v.x as int, k) as i64,
        y: fx_div_spec(v.y as int, k) as i64,
        z: fx_div_spec(v.z as int, k) as i64,
    }
}

/// The fixed-point cross product, componentwise.
pub open spec fn cross_spec(a: Vec3, b: Vec3) -> Vec3 {
    Vec3 {
        x: (fx_mul_spec(a.y as int, b.z as int) - fx_mul_spec(a.z as int, b.y as int)) as i64,
        y: (fx_mul_spec(a.z as int, b.x as int) - fx_mul_spec(a.x as int, b.z as int)) as i64,
        z: (fx_mul_spec(a.x as int, b.y as int) - fx_mul_spec(a.y as int, b.x as int)) as i64,
    }
}

/// The unit vector in the direction of `v`: each component scaled and
/// divided by the length.
pub open spec fn unit_spec(v: Vec3) -> Vec3 {
    let l = sqrt_floor(rdot(v, v));
    Vec3 {
        x: fx_div_spec(v.x as int, l) as i64,
        y: fx_div_spec(v.y as int, l) as i64,
        z: fx_div_spec(v.z as int, l) as i64,
    }
}

/// A raw dot product of a vector with itself is nonnegative.
pub proof fn lemma_rdot_self_nonneg(v: Vec3)
    by (nonlinear_arith)
    ensures
        rdot(v, v) >= 0,
        v.x * v.x <= rdot(v, v),
        v.y * v.y <= rdot(v, v),
        v.z * v.z <= rdot(v, v),
{
}

impl Vec3 {
    pub fn new(e0: i64, e1: i64, e2: i64) -> (r: Self)
        ensures
            r == (Vec3 { x: e0, y: e1, z: e2 }),
    {
        Vec3 { x: e0, y: e1, z: e2 }
    }

    pub fn x(&self) -> (r: i64)
        ensures
            r == self.x,
    {
        self.x
    }

    pub fn y(&self) -> (r: i64)
        ensures
            r == self.y,
    {
        self.y
    }

    pub fn z(&self) -> (r: i64)
        ensures
            r == self.z,
    {
        self.z
    }

    /// Componentwise sum.
    pub fn add(self, rhs: Vec3) -> (r: Vec3)
        requires
            i64::MIN <= self.x + rhs.x <= i64::MAX,
            i64::MIN <= self.y + rhs.y <= i64::MAX,
            i64::MIN <= self.z + rhs.z <= i64::MAX,
        ensures
            r == add_spec(self, rhs),
            r.x == self.x + rhs.x,
            r.y == self.y + rhs.y,
            r.z == self.z + rhs.z,
    {
        Vec3 { x: self.x + rhs.x, y: self.y + rhs.y, z: self.z + rhs.z }
    }

    /// Componentwise difference.
    pub fn sub(self, rhs: Vec3) -> (r: Vec3)
        requires
            i64::MIN <= self.x - rhs.x <= i64::MAX,
            i64::MIN <= self.y - rhs.y <= i64::MAX,
            i64::MIN <= self.z - rhs.z <= i64::MAX,
        ensures
            r == sub_spec(self, rhs),
            r.x == self.x - rhs.x,
            r.y == self.y - rhs.y,
            r.z == self.z - rhs.z,
    {
        Vec3 { x: self.x - rhs.x, y: self.y - rhs.y, z: self.z - rhs.z }
    }

    /// Componentwise negation.
    pub fn neg(self) -> (r: Vec3)
        requires
            self.x > i64::MIN,
            self.y > i64::MIN,
            self.z > i64::MIN,
        ensures
            r == neg_spec(self),
            r.x == -self.x,
            r.y == -self.y,
            r.z == -self.z,
    {
        Vec3 { x: -self.x, y: -self.y, z: -self.z }
    }

    /// Componentwise fixed-point product of two vectors (used for colour
    /// attenuation).
    pub fn mul(self, rhs: Vec3) -> (r: Vec3)
        requires
            -(i64::MAX as int) * (SCALE as int) <= self.x * rhs.x <= (i64::MAX as int) * (
            SCALE as int),
            -(i64::MAX as int) * (SCALE as int) <= self.y * rhs.y <= (i64::MAX as int) * (
            SCALE as int),
            -(i64::MAX as int) * (SCALE as int) <= self.z * rhs.z <= (i64::MAX as int) * (
            SCALE as int),
        ensures
            r.x == fx_mul_spec(self.x as int, rhs.x as int),
            r.y == fx_mul_spec(self.y as int, rhs.y as int),
            r.z == fx_mul_spec(self.z as int, rhs.z as int),
    {
        Vec3 {
            x: fx_mul(self.x, rhs.x),
            y: fx_mul(self.y, rhs.y),
            z: fx_mul(self.z, rhs.z),
        }
    }

    /// The vector scaled by a fixed-point factor.
    pub fn scale(self, k: i64) -> (r: Vec3)
        requires
            -(i64::MAX as int) * (SCALE as int) <= self.x * k <= (i64::MAX as int) * (SCALE as int),
            -(i64::MAX as int) * (SCALE as int) <= self.y * k <= (i64::MAX as int) * (SCALE as int),
            -(i64::MAX as int) * (SCALE as int) <= self.z * k <= (i64::MAX as int) * (SCALE as int),
        ensures
            r == scale_spec(self, k as int),
            r.x == fx_mul_spec(self.x as int, k as int),
            r.y == fx_mul_spec(self.y as int, k as int),
            r.z == fx_mul_spec(self.z as int, k as int),
    {
        Vec3 { x: fx_mul(self.x, k), y: fx_mul(self.y, k), z: fx_mul(self.z, k) }
    }

    /// The vector divided by a fixed-point factor.
    pub fn div_by(self, k: i64) -> (r: Vec3)
        requires
            k != 0,
            i64::MIN <= (self.x * SCALE) / (k as int) <= i64::MAX,
            i64::MIN <= (self.y * SCALE) / (k as int) <= i64::MAX,
            i64::MIN <= (self.z * SCALE) / (k as int) <= i64::MAX,
        ensures
            r == div_by_spec(self, k as int),
            r.x == fx_div_spec(self.x as int, k as int),
            r.y == fx_div_spec(self.y as int, k as int),
            r.z == fx_div_spec(self.z as int, k as int),
    {
        Vec3 { x: fx_div(self.x, k), y: fx_div(self.y, k), z: fx_div(self.z, k) }
    }

    /// The fixed-point cross product, one floor rounding per product.
    pub fn cross(&self, rhs: &Vec3) -> (r: Vec3)
        requires
            in_range(*self),
            in_range(*rhs),
        ensures
            r == cross_spec(*self, *rhs),
            r.x == fx_mul_spec(self.y as int, rhs.z as int) - fx_mul_spec(self.z as int,
                rhs.y as int),
            r.y == fx_mul_spec(self.z as int, rhs.x as int) - fx_mul_spec(self.x as int,
                rhs.z as int),
            r.z == fx_mul_spec(self.x as int, rhs.y as int) - fx_mul_spec(self.y as int,
                rhs.x as int),
    {
        proof {
            lemma_cross_comp_bound(*self, *rhs, VEC_MAX as int, VEC_MAX as int,
                0x1000000000000000);
        }
        Vec3 {
            x: fx_mul(self.y, rhs.z) - fx_mul(self.z, rhs.y),
            y: fx_mul(self.z, rhs.x) - fx_mul(self.x, rhs.z),
            z: fx_mul(self.x, rhs.y) - fx_mul(self.y, rhs.x),
        }
    }

    /// The fixed-point dot product.
    pub fn dot(&self, rhs: Vec3) -> (r: i64)
        requires
            in_range(*self),
            in_range(rhs),
        ensures
            r == dot_spec(*self, rhs),
    {
        proof {
            lemma_abs_mul_le(self.x as int, rhs.x as int, VEC_MAX as int, VEC_MAX as int);
            lemma_abs_mul_le(self.y as int, rhs.y as int, VEC_MAX as int, VEC_MAX as int);
            lemma_abs_mul_le(self.z as int, rhs.z as int, VEC_MAX as int, VEC_MAX as int);
        }
        let p: i128 = (self.x as i128) * (rhs.x as i128) + (self.y as i128) * (rhs.y as i128) + (
        self.z as i128) * (rhs.z as i128);
        proof {
            lemma_fx_range(p as int, 3 * (VEC_MAX as int) * (VEC_MAX as int) / (SCALE as int));
        }
        let q: i128 = p.checked_div_euclid(65536).unwrap();
        q as i64
    }

    /// The raw squared length brought back to scale.
    pub fn length_squared(&self) -> (r: i64)
        requires
            in_range(*self),
        ensures
            r == rdot(*self, *self) / (SCALE as int),
            r >= 0,
    {
        proof {
            lemma_rdot_self_nonneg(*self);
            vstd::arithmetic::div_mod::lemma_div_pos_is_pos(rdot(*self, *self), SCALE as int);
        }
        self.dot(*self)
    }

    /// The fixed-point length: the integer square root of the raw squared
    /// length (which already carries twice the scale).
    pub fn length(&self) -> (r: i64)
        requires
            in_range(*self),
        ensures
            r == sqrt_floor(rdot(*self, *self)),
            is_sqrt_floor(rdot(*self, *self), r as int),
            0 <= r <= 0x20000000000,
    {
        proof {
            lemma_abs_mul_le(self.x as int, self.x as int, VEC_MAX as int, VEC_MAX as int);
            lemma_abs_mul_le(self.y as int, self.y as int, VEC_MAX as int, VEC_MAX as int);
            lemma_abs_mul_le(self.z as int, self.z as int, VEC_MAX as int, VEC_MAX as int);
            lemma_rdot_self_nonneg(*self);
        }
        let p: i128 = (self.x as i128) * (self.x as i128) + (self.y as i128) * (self.y as i128) + (
        self.z as i128) * (self.z as i128);
        let r = isqrt(p as u128);
        proof {
            assert(r as int <= 0x20000000000) by (nonlinear_arith)
                requires
                    (r as int) * (r as int) <= p as int,
                    p as int <= 3 * (VEC_MAX as int) * (VEC_MAX as int),
                    r >= 0;
        }
        r as u64 as i64
    }

    /// The unit vector in the direction of `self`: each component is the
    /// scaled component divided by the length.  Every component of the
    /// result lies in `[-1, 1]`.
    pub fn unit(&self) -> (r: Vec3)
        requires
            in_range(*self),
            rdot(*self, *self) >= 1,
        ensures
            r == unit_spec(*self),
            r.x == fx_div_spec(self.x as int, sqrt_floor(rdot(*self, *self))),
            r.y == fx_div_spec(self.y as int, sqrt_floor(rdot(*self, *self))),
            r.z == fx_div_spec(self.z as int, sqrt_floor(rdot(*self, *self))),
            bounded(r, SCALE as int),
    {
        let len = self.length();
        proof {
            lemma_rdot_self_nonneg(*self);
            assert(len >= 1) by (nonlinear_arith)
                requires
                    is_sqrt_floor(rdot(*self, *self), len as int),
                    rdot(*self, *self) >= 1;
            lemma_unit_comp(self.x as int, rdot(*self, *self), len as int);
            lemma_unit_comp(self.y as int, rdot(*self, *self), len as int);
            lemma_unit_comp(self.z as int, rdot(*self, *self), len as int);
        }
        Vec3 { x: fx_div(self.x, len), y: fx_div(self.y, len), z: fx_div(self.z, len) }
    }

    /// The three channels as bytes, each `floor(256 * channel)` saturated
    /// to `[0, 255]`.
    pub fn to_rgb(&self) -> (r: [u8; 3])
        ensures
            r[0] == byte_of(self.x as int),
            r[1] == byte_of(self.y as int),
            r[2] == byte_of(self.z as int),
    {
        [chan_byte(self.x), chan_byte(self.y), chan_byte(self.z)]
    }

    /// The three channels averaged over the sample count, clamped, and
    /// mapped to bytes.
    pub fn to_rgb_scaled(&self, samples_per_pixel: i32) -> (r: [u8; 3])
        requires
            samples_per_pixel >= 1,
        ensures
            r[0] == scaled_byte_of(self.x as int, samples_per_pixel as int),
            r[1] == scaled_byte_of(self.y as int, samples_per_pixel as int),
            r[2] == scaled_byte_of(self.z as int, samples_per_pixel as int),
    {
        [
            chan_byte_scaled(self.x, samples_per_pixel),
            chan_byte_scaled(self.y, samples_per_pixel),
            chan_byte_scaled(self.z, samples_per_pixel),
        ]
    }

    /// The three channels averaged over the sample count, square-rooted
    /// (the gamma-2 tone curve), clamped, and mapped to bytes.
    pub fn to_rgb_scaled_gamma2(&self, samples_per_pixel: i32) -> (r: [u8; 3])
        requires
            samples_per_pixel >= 1,
        ensures
            r[0] == gamma2_byte_of(self.x as int, samples_per_pixel as int),
            r[1] == gamma2_byte_of(self.y as int, samples_per_pixel as int),
            r[2] == gamma2_byte_of(self.z as int, samples_per_pixel as int),
    {
        [
            chan_byte_gamma2(self.x, samples_per_pixel),
            chan_byte_gamma2(self.y, samples_per_pixel),
            chan_byte_gamma2(self.z, samples_per_pixel),
        ]
    }

    /// A vector with three fresh channels in `[0, 1)`.
    pub fn random() -> (r: Vec3)
        ensures
            0 <= r.x < SCALE,
            0 <= r.y < SCALE,
            0 <= r.z < SCALE,
    {
        Vec3 { x: crate::rng::rand01(), y: crate::rng::rand01(), z: crate::rng::rand01() }
    }

    /// A vector with three fresh channels in `[min, max]`.
    pub fn random_range(min: i64, max: i64) -> (r: Vec3)
        requires
            -VEC_MAX <= min <= max <= VEC_MAX,
        ensures
            min <= r.x <= max,
            min <= r.y <= max,
            min <= r.z <= max,
    {
        Vec3 {
            x: rand_between(min, max),
            y: rand_between(min, max),
            z: rand_between(min, max),
        }
    }
}

/// Whether every component lies within the working range, decided at run
/// time.
pub fn vec_in_range(v: &Vec3) -> (r: bool)
    ensures
        r == in_range(*v),
{
    -VEC_MAX <= v.x && v.x <= VEC_MAX && -VEC_MAX <= v.y && v.y <= VEC_MAX && -VEC_MAX <= v.z
        && v.z <= VEC_MAX
}

impl Default for Vec3 {
    /// The zero vector.
    fn default() -> (r: Self)
        ensures
            r == (Vec3 { x: 0i64, y: 0i64, z: 0i64 }),
    {
        Vec3 { x: 0, y: 0, z: 0 }
    }
}

/// Bounded operands keep every term of the cross product within `m`, for
/// `m` large enough to absorb the products over the scale.
pub proof fn lemma_cross_comp_bound(a: Vec3, b: Vec3, ma: int, mb: int, m: int)
    requires
        bounded(a, ma),
        bounded(b, mb),
        0 <= ma,
        0 <= mb,
        0 <= m,
        ma * mb <= m * 65536,
    ensures
        -m <= fx_mul_spec(a.y as int, b.z as int) <= m,
        -m <= fx_mul_spec(a.z as int, b.y as int) <= m,
        -m <= fx_mul_spec(a.z as int, b.x as int) <= m,
        -m <= fx_mul_spec(a.x as int, b.z as int) <= m,
        -m <= fx_mul_spec(a.x as int, b.y as int) <= m,
        -m <= fx_mul_spec(a.y as int, b.x as int) <= m,
        -(ma * mb) <= a.y * b.z <= ma * mb,
        -(ma * mb) <= a.z * b.y <= ma * mb,
        -(ma * mb) <= a.z * b.x <= ma * mb,
        -(ma * mb) <= a.x * b.z <= ma * mb,
        -(ma * mb) <= a.x * b.y <= ma * mb,
        -(ma * mb) <= a.y * b.x <= ma * mb,
{
    lemma_abs_mul_le(a.y as int, b.z as int, ma, mb);
    lemma_abs_mul_le(a.z as int, b.y as int, ma, mb);
    lemma_abs_mul_le(a.z as int, b.x as int, ma, mb);
    lemma_abs_mul_le(a.x as int, b.z as int, ma, mb);
    lemma_abs_mul_le(a.x as int, b.y as int, ma, mb);
    lemma_abs_mul_le(a.y as int, b.x as int, ma, mb);
    crate::fixed::lemma_div_symm_bound((a.y as int) * (b.z as int), m, 65536);
    crate::fixed::lemma_div_symm_bound((a.z as int) * (b.y as int), m, 65536);
    crate::fixed::lemma_div_symm_bound((a.z as int) * (b.x as int), m, 65536);
    crate::fixed::lemma_div_symm_bound((a.x as int) * (b.z as int), m, 65536);
    crate::fixed::lemma_div_symm_bound((a.x as int) * (b.y as int), m, 65536);
    crate::fixed::lemma_div_symm_bound((a.y as int) * (b.x as int), m, 65536);
}

/// A unit vector of a usable argument has components within one unit.
pub proof fn lemma_unit_spec_bounded(v: Vec3)
    requires
        in_range(v),
        rdot(v, v) >= 1,
    ensures
        bounded(unit_spec(v), SCALE as int),
        fx_div_spec(v.x as int, sqrt_floor(rdot(v, v))) == unit_spec(v).x,
        fx_div_spec(v.y as int, sqrt_floor(rdot(v, v))) == unit_spec(v).y,
        fx_div_spec(v.z as int, sqrt_floor(rdot(v, v))) == unit_spec(v).z,
{
    lemma_rdot_self_nonneg(v);
    lemma_sqrt_floor_exists(rdot(v, v));
    let len = sqrt_floor(rdot(v, v));
    assert(len >= 1) by (nonlinear_arith)
        requires
            is_sqrt_floor(rdot(v, v), len),
            rdot(v, v) >= 1;
    lemma_unit_comp(v.x as int, rdot(v, v), len);
    lemma_unit_comp(v.y as int, rdot(v, v), len);
    lemma_unit_comp(v.z as int, rdot(v, v), len);
}

/// At scale, the quotient of a component by the vector's length stays
/// within one unit.
proof fn lemma_unit_comp(c: int, rd: int, len: int)
    requires
        is_sqrt_floor(rd, len),
        c * c <= rd,
        len >= 1,
    ensures
        -(SCALE as int) <= (c * SCALE) / len <= SCALE,
{
    assert(-len <= c <= len) by (nonlinear_arith)
        requires
            is_sqrt_floor(rd, len),
            c * c <= rd;
    assert(c * SCALE <= len * SCALE && -(len * SCALE) <= c * SCALE) by (nonlinear_arith)
        requires
            -len <= c <= len,
            SCALE == 65536;
    lemma_div_is_ordered(c * SCALE, len * SCALE, len);
    lemma_div_is_ordered(-(len as int) * SCALE, c * SCALE, len);
    lemma_mul_is_commutative(len, SCALE as int);
    lemma_div_multiples_vanish(SCALE as int, len);
    lemma_mul_is_commutative(len, -(SCALE as int));
    lemma_div_multiples_vanish(-(SCALE as int), len);
    assert(-(len as int) * SCALE == -(SCALE as int) * len) by (nonlinear_arith);
}

/// `floor(256 * c)` saturated to a byte, for a channel value at scale.
pub open spec fn byte_of(c: int) -> int {
    clamp_spec(c / 256, 0, 255)
}

/// The channel averaged over `spp` samples, clamped to `[0, 0.999]`, and
/// mapped to a byte.
pub open spec fn scaled_byte_of(c: int, spp: int) -> int {
    clamp_spec(c / spp, 0, 65470) / 256
}

/// The channel averaged over `spp` samples, square-rooted, clamped to
/// `[0, 0.999]`, and mapped to a byte.
pub open spec fn gamma2_byte_of(c: int, spp: int) -> int {
    let s = c / spp;
    let s0 = if s < 0 {
        0
    } else {
        s
    };
    clamp_spec(sqrt_floor(s0 * (SCALE as int)), 0, 65470) / 256
}

fn chan_byte(c: i64) -> (b: u8)
    ensures
        b == byte_of(c as int),
{
    proof {
        lemma_div_abs_shrinks(c as int, 256);
    }
    let q = c.checked_div_euclid(256).unwrap();
    clamp(q, 0, 255) as u8
}

fn chan_byte_scaled(c: i64, spp: i32) -> (b: u8)
    requires
        spp >= 1,
    ensures
        b == scaled_byte_of(c as int, spp as int),
{
    proof {
        lemma_div_abs_shrinks(c as int, spp as int);
    }
    let s = c.checked_div_euclid(spp as i64).unwrap();
    let cl = clamp(s, 0, 65470);
    proof {
        lemma_div_abs_shrinks(cl as int, 256);
    }
    cl.checked_div_euclid(256).unwrap() as u8
}

fn chan_byte_gamma2(c: i64, spp: i32) -> (b: u8)
    requires
        spp >= 1,
    ensures
        b == gamma2_byte_of(c as int, spp as int),
{
    proof {
        lemma_div_abs_shrinks(c as int, spp as int);
    }
    let s = c.checked_div_euclid(spp as i64).unwrap();
    let s0 = if s < 0 {
        0
    } else {
        s
    };
    let g = sqrt_fx(s0);
    let cl = clamp(g, 0, 65470);
    proof {
        lemma_div_abs_shrinks(cl as int, 256);
    }
    cl.checked_div_euclid(256).unwrap() as u8
}

/// A fresh scalar in `[min, max]`.
fn rand_between(min: i64, max: i64) -> (r: i64)
    requires
        -VEC_MAX <= min <= max <= VEC_MAX,
    ensures
        min <= r <= max,
{
    let u = crate::rng::rand01();
    let d = max - min;
    proof {
        lemma_abs_mul_le(u as int, d as int, SCALE as int, 2 * (VEC_MAX as int));
        assert(fx_mul_spec(u as int, d as int) <= d) by {
            assert((u as int) * (d as int) <= (SCALE as int) * (d as int)) by (nonlinear_arith)
                requires
                    0 <= u <= SCALE,
                    0 <= d;
            lemma_div_is_ordered((u as int) * (d as int), (SCALE as int) * (d as int), SCALE as int);
            lemma_mul_is_commutative(SCALE as int, d as int);
            lemma_div_multiples_vanish(d as int, SCALE as int);
        }
        assert(fx_mul_spec(u as int, d as int) >= 0) by {
            assert((u as int) * (d as int) >= 0) by (nonlinear_arith)
                requires
                    0 <= u,
                    0 <= d;
            vstd::arithmetic::div_mod::lemma_div_pos_is_pos((u as int) * (d as int), SCALE as int);
        }
    }
    min + fx_mul(u, d)
}

} // verus!
