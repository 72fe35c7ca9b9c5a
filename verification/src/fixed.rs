//! Fixed-point scalars: an `i64` carrying sixteen fractional bits.
//!
//! A scalar `a` stands for the real number `a / SCALE`.  Multiplication and
//! division round toward negative infinity (floor), which is what the
//! Euclidean `/` of specifications computes for a positive divisor, so every
//! operation here has an exact contract over `int`.

use vstd::prelude::*;
use vstd::arithmetic::div_mod::lemma_div_is_ordered;

verus! {

/// Number of units per 1.0: values carry sixteen fractional bits.
pub const SCALE: i64 = 65536;

/// Pi in fixed-point units.
pub const PI_FX: i64 = 205887;

/// Two pi in fixed-point units.
pub const TWO_PI_FX: i64 = 411774;

/// The fixed-point product: the mathematical product, floor-divided by the scale.
pub open spec fn fx_mul_spec(a: int, b: int) -> int {
    (a * b) / (SCALE as int)
}

/// The fixed-point quotient: the scaled dividend, Euclid-divided by the divisor.
pub open spec fn fx_div_spec(a: int, b: int) -> int {
    (a * SCALE) / b
}

/// Fixed-point multiplication, exact up to the single floor rounding.
pub fn fx_mul(a: i64, b: i64) -> (r: i64)
    requires
        -(i64::MAX as int) * (SCALE as int) <= a * b <= (i64::MAX as int) * (SCALE as int),
    ensures
        r == fx_mul_spec(a as int, b as int),
{
    proof {
        assert((a as int) * (b as int) <= i128::MAX && i128::MIN <= (a as int) * (b as int))
            by (nonlinear_arith)
            requires
                i64::MIN <= a <= i64::MAX,
                i64::MIN <= b <= i64::MAX;
    }
    let p: i128 = (a as i128) * (b as i128);
    proof {
        lemma_div_is_ordered(p as int, (i64::MAX as int) * (SCALE as int), SCALE as int);
        lemma_div_is_ordered(-(i64::MAX as int) * (SCALE as int), p as int, SCALE as int);
        assert((i64::MAX as int) * (SCALE as int) / (SCALE as int) == i64::MAX as int);
        assert(-(i64::MAX as int) * (SCALE as int) / (SCALE as int) == -(i64::MAX as int));
    }
    let q: i128 = p.checked_div_euclid(65536).unwrap();
    q as i64
}

/// Fixed-point division, exact up to the single Euclidean rounding.
pub fn fx_div(a: i64, b: i64) -> (r: i64)
    requires
        b != 0,
        i64::MIN <= (a * SCALE) / (b as int) <= i64::MAX,
    ensures
        r == fx_div_spec(a as int, b as int),
{
    let p: i128 = (a as i128) * 65536;
    let q: i128 = p.checked_div_euclid(b as i128).unwrap();
    q as i64
}

/// `r` is the integer square root of `n`: the floor of the real square root.
pub open spec fn is_sqrt_floor(n: int, r: int) -> bool {
    0 <= r && r * r <= n < (r + 1) * (r + 1)
}

/// The integer square root, as a function; meaningful for `n >= 0`
/// (see `lemma_sqrt_floor_exists`).
pub open spec fn sqrt_floor(n: int) -> int {
    choose|r: int| is_sqrt_floor(n, r)
}

/// The integer square root is unique.
pub proof fn lemma_sqrt_floor_unique(n: int, r1: int, r2: int)
    by (nonlinear_arith)
    requires
        is_sqrt_floor(n, r1),
        is_sqrt_floor(n, r2),
    ensures
        r1 == r2,
{
}

/// Every nonnegative integer has an integer square root.
pub proof fn lemma_sqrt_floor_exists(n: int)
    requires
        n >= 0,
    ensures
        is_sqrt_floor(n, sqrt_floor(n)),
    decreases n,
{
    if n == 0 {
        assert(is_sqrt_floor(0, 0));
    } else {
        lemma_sqrt_floor_exists(n - 1);
        let p = sqrt_floor(n - 1);
        if (p + 1) * (p + 1) <= n {
            assert(is_sqrt_floor(n, p + 1)) by (nonlinear_arith)
                requires
                    is_sqrt_floor(n - 1, p),
                    (p + 1) * (p + 1) <= n;
        } else {
            assert(is_sqrt_floor(n, p));
        }
    }
    assert(is_sqrt_floor(n, sqrt_floor(n))) by {
        let w = choose|r: int| is_sqrt_floor(n, r);
        assert(is_sqrt_floor(n, w));
    }
}

/// The integer square root is monotone.
pub proof fn lemma_sqrt_floor_monotone(a: int, b: int)
    requires
        0 <= a <= b,
    ensures
        sqrt_floor(a) <= sqrt_floor(b),
{
    lemma_sqrt_floor_exists(a);
    lemma_sqrt_floor_exists(b);
    let ra = sqrt_floor(a);
    let rb = sqrt_floor(b);
    assert(ra <= rb) by (nonlinear_arith)
        requires
            is_sqrt_floor(a, ra),
            is_sqrt_floor(b, rb),
            a <= b;
}

/// The integer square root, computed by binary search.
pub fn isqrt(n: u128) -> (r: u128)
    ensures
        is_sqrt_floor(n as int, r as int),
        r == sqrt_floor(n as int),
        r < 0x10000000000000000,
{
    let mut lo: u128 = 0;
    let mut hi: u128 = 0x10000000000000000;
    proof {
        assert((hi as int) * (hi as int) == 0x100000000000000000000000000000000);
    }
    while lo + 1 < hi
        invariant
            lo < hi <= 0x10000000000000000,
            (lo as int) * (lo as int) <= n as int,
            (n as int) < (hi as int) * (hi as int),
        decreases hi - lo,
    {
        let mid = lo + (hi - lo) / 2;
        proof {
            assert((mid as int) * (mid as int) < 0x100000000000000000000000000000000)
                by (nonlinear_arith)
                requires
                    mid < 0x10000000000000000;
        }
        if mid * mid <= n {
            lo = mid;
        } else {
            hi = mid;
        }
    }
    proof {
        assert(is_sqrt_floor(n as int, lo as int));
        lemma_sqrt_floor_exists(n as int);
        lemma_sqrt_floor_unique(n as int, lo as int, sqrt_floor(n as int));
    }
    lo
}

/// The square root of a nonnegative fixed-point scalar.
///
/// Since a scalar `x` stands for `x / SCALE`, the scalar standing for its
/// real square root is the integer square root of `x * SCALE`.
pub fn sqrt_fx(x: i64) -> (r: i64)
    requires
        x >= 0,
    ensures
        r == sqrt_floor(x * SCALE),
        r >= 0,
        r * r <= x * SCALE < (r + 1) * (r + 1),
{
    let n: u128 = (x as u128) * 65536;
    let r = isqrt(n);
    proof {
        assert((r as int) * (r as int) <= n < ((r as int) + 1) * ((r as int) + 1));
        assert(r as int <= 0x200000000000) by (nonlinear_arith)
            requires
                (r as int) * (r as int) <= n as int,
                n as int <= 0x7fffffffffffffff * 0x10000;
    }
    r as i64
}

/// Dividing by the scale shrinks a symmetric bound by the scale.
pub proof fn lemma_fx_range(p: int, m: int)
    requires
        0 <= m,
        -m * (SCALE as int) <= p <= m * (SCALE as int),
    ensures
        -m <= p / (SCALE as int) <= m,
{
    lemma_div_is_ordered(p, m * (SCALE as int), SCALE as int);
    lemma_div_is_ordered(-m * (SCALE as int), p, SCALE as int);
    vstd::arithmetic::div_mod::lemma_div_multiples_vanish(m, SCALE as int);
    vstd::arithmetic::div_mod::lemma_div_multiples_vanish(-m, SCALE as int);
}

/// Dividing by a positive divisor shrinks a symmetric bound by that divisor.
pub proof fn lemma_div_symm_bound(p: int, m: int, d: int)
    requires
        d >= 1,
        0 <= m,
        -(m * d) <= p <= m * d,
    ensures
        -m <= p / d <= m,
{
    lemma_div_is_ordered(p, m * d, d);
    lemma_div_is_ordered(-(m * d), p, d);
    vstd::arithmetic::mul::lemma_mul_is_commutative(m, d);
    vstd::arithmetic::div_mod::lemma_div_multiples_vanish(m, d);
    vstd::arithmetic::mul::lemma_mul_is_commutative(-m, d);
    vstd::arithmetic::div_mod::lemma_div_multiples_vanish(-m, d);
    assert(-(m * d) == -m * d) by (nonlinear_arith);
}

/// Euclidean division by a positive divisor never grows a value's magnitude.
pub proof fn lemma_div_abs_shrinks(c: int, d: int)
    requires
        d >= 1,
    ensures
        c >= 0 ==> 0 <= c / d <= c,
        c < 0 ==> c <= c / d <= 0,
{
    vstd::arithmetic::div_mod::lemma_fundamental_div_mod(c, d);
    vstd::arithmetic::div_mod::lemma_mod_division_less_than_divisor(c, d);
    assert((c >= 0 ==> 0 <= c / d <= c) && (c < 0 ==> c <= c / d <= 0)) by (nonlinear_arith)
        requires
            d >= 1,
            c == d * (c / d) + (c % d),
            0 <= c % d < d;
}

/// A product of bounded factors is bounded by the product of the bounds.
pub proof fn lemma_abs_mul_le(a: int, b: int, ma: int, mb: int)
    by (nonlinear_arith)
    requires
        -ma <= a <= ma,
        -mb <= b <= mb,
    ensures
        -(ma * mb) <= a * b <= ma * mb,
{
}

/// The smaller of two scalars.
pub fn fmin(a: i64, b: i64) -> (r: i64)
    ensures
        r == if a < b { a as int } else { b as int },
{
    if a < b {
        a
    } else {
        b
    }
}

/// `n` limited to the interval `[min, max]`; mirrors the tone-mapping clamp.
pub open spec fn clamp_spec(n: int, min: int, max: int) -> int {
    if n > max {
        max
    } else if n < min {
        min
    } else {
        n
    }
}

/// Limit a scalar to an interval.
pub fn clamp(n: i64, min: i64, max: i64) -> (r: i64)
    ensures
        r == clamp_spec(n as int, min as int, max as int),
{
    if n > max {
        max
    } else if n < min {
        min
    } else {
        n
    }
}

/// Half pi in fixed-point units (rounded up, so that the quarter-turn
/// shift of the cosine stays inside one period).
pub const HALF_PI_FX: i64 = 102944;

/// Largest magnitude the tangent is allowed to report; vertical fields of
/// view close enough to a straight angle to exceed it are cut there.
pub const TAN_MAX: i64 = 0x400000;

/// The rational sine approximation on `[0, pi]`, at scale:
/// `16 x (pi - x) / (5 pi^2 - 4 x (pi - x))`.
pub open spec fn sin_half_spec(x: int) -> int {
    let q = x * ((PI_FX as int) - x);
    (16 * q * (SCALE as int)) / (5 * (PI_FX as int) * (PI_FX as int) - 4 * q)
}

/// The sine on a full period, folded out of the half-period approximation.
pub open spec fn sin_spec(x: int) -> int {
    if x <= PI_FX {
        sin_half_spec(x)
    } else {
        -sin_half_spec(x - (PI_FX as int))
    }
}

/// The cosine, as the sine shifted by a quarter turn.
pub open spec fn cos_spec(x: int) -> int {
    let y = x + (HALF_PI_FX as int);
    if y >= TWO_PI_FX {
        sin_spec(y - (TWO_PI_FX as int))
    } else {
        sin_spec(y)
    }
}

/// The tangent: sine over cosine, the cosine floored at one unit and the
/// quotient cut at `TAN_MAX`.
pub open spec fn tan_spec(x: int) -> int {
    let c = cos_spec(x);
    let c1 = if c < 1 {
        1
    } else {
        c
    };
    clamp_spec(fx_div_spec(sin_spec(x), c1), -(TAN_MAX as int), TAN_MAX as int)
}

/// The sine approximation on the half period `[0, pi]`.
fn sin_half(x: i64) -> (r: i64)
    requires
        0 <= x <= PI_FX,
    ensures
        r == sin_half_spec(x as int),
        0 <= r <= SCALE,
{
    let xi: i128 = x as i128;
    let pi: i128 = PI_FX as i128;
    proof {
        assert(0 <= (x as int) * ((PI_FX as int) - x)) by (nonlinear_arith)
            requires
                0 <= x <= PI_FX;
        assert(4 * ((x as int) * ((PI_FX as int) - x)) <= (PI_FX as int) * (PI_FX as int))
            by (nonlinear_arith)
            requires
                0 <= x <= PI_FX;
    }
    let q: i128 = xi * (pi - xi);
    let num: i128 = 16 * q * 65536;
    let den: i128 = 5 * pi * pi - 4 * q;
    proof {
        let qi = (x as int) * ((PI_FX as int) - x);
        let deni = 5 * (PI_FX as int) * (PI_FX as int) - 4 * qi;
        assert(16 * qi * (SCALE as int) <= deni * (SCALE as int)) by (nonlinear_arith)
            requires
                0 <= qi,
                4 * qi <= (PI_FX as int) * (PI_FX as int),
                deni == 5 * (PI_FX as int) * (PI_FX as int) - 4 * qi;
        lemma_div_symm_bound(16 * qi * (SCALE as int), SCALE as int, deni);
        vstd::arithmetic::div_mod::lemma_div_pos_is_pos(16 * qi * (SCALE as int), deni);
    }
    let r: i128 = num.checked_div_euclid(den).unwrap();
    r as i64
}

/// The sine of an angle in `[0, 2 pi]`, in `[-1, 1]`.
pub fn fp_sin(x: i64) -> (r: i64)
    requires
        0 <= x <= TWO_PI_FX,
    ensures
        r == sin_spec(x as int),
        -SCALE <= r <= SCALE,
{
    if x <= PI_FX {
        sin_half(x)
    } else {
        -sin_half(x - PI_FX)
    }
}

/// The cosine of an angle in `[0, 2 pi]`, in `[-1, 1]`.
pub fn fp_cos(x: i64) -> (r: i64)
    requires
        0 <= x <= TWO_PI_FX,
    ensures
        r == cos_spec(x as int),
        -SCALE <= r <= SCALE,
{
    let y = x + HALF_PI_FX;
    if y >= TWO_PI_FX {
        fp_sin(y - TWO_PI_FX)
    } else {
        fp_sin(y)
    }
}

/// The tangent of an angle in `[0, 2 pi]`, cut at `TAN_MAX`; angles whose
/// cosine rounds below one unit are treated as if the cosine were one unit.
pub fn fp_tan(x: i64) -> (r: i64)
    requires
        0 <= x <= TWO_PI_FX,
    ensures
        r == tan_spec(x as int),
        -TAN_MAX <= r <= TAN_MAX,
{
    let s = fp_sin(x);
    let c = fp_cos(x);
    let c1 = if c < 1 {
        1
    } else {
        c
    };
    proof {
        lemma_div_abs_shrinks((s as int) * (SCALE as int), c1 as int);
        lemma_abs_mul_le(s as int, SCALE as int, SCALE as int, SCALE as int);
    }
    let t = fx_div(s, c1);
    clamp(t, -TAN_MAX, TAN_MAX)
}

} // verus!
