//! Scattering helpers: reflection, refraction, the Schlick reflectance,
//! and the random direction samplers.

pub use crate::fixed::{clamp, fmin};

use vstd::prelude::*;
use vstd::arithmetic::div_mod::lemma_div_is_ordered;
use crate::fixed::{
    SCALE, TWO_PI_FX, fx_mul, fx_mul_spec, fx_div, fx_div_spec, sqrt_fx, sqrt_floor,
    is_sqrt_floor, fp_sin, fp_cos, sin_spec, cos_spec, lemma_fx_range, lemma_abs_mul_le,
    lemma_div_symm_bound,
};
use crate::vec3::{Vec3, bounded, in_range, rdot, dot_spec, neg_spec, lemma_rdot_bound};
use crate::rng::{rand01, rand_sym, rand_angle};

verus! {

/// One square of the scale: the divisor that brings a twice-scaled value
/// back to scale in one rounding.
pub const SCALE_SQ: i64 = 0x100000000;

/// One component of the mirror reflection `v - 2 (v . n) n`, carried out
/// in raw units and brought back to scale with a single floor rounding.
pub open spec fn reflect_comp(vc: int, nc: int, d: int) -> int {
    ((SCALE_SQ as int) * vc - 2 * d * nc) / (SCALE_SQ as int)
}

/// The mirror reflection of `v` about the normal `n`.
pub open spec fn reflect_spec(v: Vec3, n: Vec3) -> Vec3 {
    Vec3 {
        x: reflect_comp(v.x as int, n.x as int, rdot(v, n)) as i64,
        y: reflect_comp(v.y as int, n.y as int, rdot(v, n)) as i64,
        z: reflect_comp(v.z as int, n.z as int, rdot(v, n)) as i64,
    }
}

/// Reflect the unit-length vector `v` about the unit-length normal `n`.
pub fn reflect(v: Vec3, n: Vec3) -> (r: Vec3)
    requires
        bounded(v, SCALE as int),
        bounded(n, SCALE as int),
    ensures
        r == reflect_spec(v, n),
        r.x == reflect_comp(v.x as int, n.x as int, rdot(v, n)),
        r.y == reflect_comp(v.y as int, n.y as int, rdot(v, n)),
        r.z == reflect_comp(v.z as int, n.z as int, rdot(v, n)),
        bounded(r, 7 * (SCALE as int)),
{
    proof {
        lemma_abs_mul_le(v.x as int, n.x as int, 65536, 65536);
        lemma_abs_mul_le(v.y as int, n.y as int, 65536, 65536);
        lemma_abs_mul_le(v.z as int, n.z as int, 65536, 65536);
        lemma_rdot_bound(v, n, SCALE as int, SCALE as int);
    }
    let d: i128 = (v.x as i128) * (n.x as i128) + (v.y as i128) * (n.y as i128) + (v.z as i128)
        * (n.z as i128);
    let rx = reflect_chan(v.x, n.x, d);
    let ry = reflect_chan(v.y, n.y, d);
    let rz = reflect_chan(v.z, n.z, d);
    Vec3 { x: rx, y: ry, z: rz }
}

/// One reflected component; `d` is the raw dot product of the arguments
/// of `reflect`.
fn reflect_chan(vc: i64, nc: i64, d: i128) -> (r: i64)
    requires
        -(SCALE as int) <= vc <= SCALE as int,
        -(SCALE as int) <= nc <= SCALE as int,
        -(3 * (SCALE as int) * (SCALE as int)) <= d as int <= 3 * (SCALE as int) * (SCALE as int),
    ensures
        r == reflect_comp(vc as int, nc as int, d as int),
        -(7 * (SCALE as int)) <= r <= 7 * (SCALE as int),
{
    proof {
        lemma_abs_mul_le(2 * (d as int), nc as int, 6 * (SCALE as int) * (SCALE as int),
            SCALE as int);
        assert(6 * (SCALE as int) * (SCALE as int) * (SCALE as int) == 6 * (SCALE as int) * (
        SCALE_SQ as int)) by (nonlinear_arith);
        lemma_div_symm_bound(
            (SCALE_SQ as int) * (vc as int) - 2 * (d as int) * (nc as int),
            7 * (SCALE as int),
            SCALE_SQ as int,
        );
    }
    let num: i128 = 0x100000000 * (vc as i128) - 2 * d * (nc as i128);
    let q: i128 = num.checked_div_euclid(0x100000000).unwrap();
    q as i64
}

/// The cosine of the angle of incidence, as the refraction uses it.
pub open spec fn refract_cos(uv: Vec3, n: Vec3) -> int {
    -dot_spec(uv, n)
}

/// One component of the part of the refracted direction that lies in the
/// surface plane: `eta * (uv + cos * n)`.
pub open spec fn refract_par_c(uc: int, nc: int, c: int, eta: int) -> int {
    fx_mul_spec(uc + fx_mul_spec(nc, c), eta)
}

/// The squared length the in-plane part is missing from one, before the
/// square root; may be negative when rounding overshoots.
pub open spec fn refract_sin2_arg(uv: Vec3, n: Vec3, eta: int) -> int {
    let c = refract_cos(uv, n);
    let px = refract_par_c(uv.x as int, n.x as int, c, eta);
    let py = refract_par_c(uv.y as int, n.y as int, c, eta);
    let pz = refract_par_c(uv.z as int, n.z as int, c, eta);
    (SCALE as int) - (px * px + py * py + pz * pz) / (SCALE as int)
}

/// The length of the part of the refracted direction along the normal.
pub open spec fn refract_sq(uv: Vec3, n: Vec3, eta: int) -> int {
    let a = refract_sin2_arg(uv, n, eta);
    let a0 = if a < 0 {
        0
    } else {
        a
    };
    sqrt_floor(a0 * (SCALE as int))
}

/// One component of the refracted direction.
pub open spec fn refract_out_c(uc: int, nc: int, c: int, eta: int, sq: int) -> int {
    refract_par_c(uc, nc, c, eta) + fx_mul_spec(nc, -sq)
}

/// The refracted direction, by Snell's law split into the in-plane and
/// along-normal parts.
pub open spec fn refract_spec(uv: Vec3, n: Vec3, eta: int) -> Vec3 {
    let c = refract_cos(uv, n);
    let sq = refract_sq(uv, n, eta);
    Vec3 {
        x: refract_out_c(uv.x as int, n.x as int, c, eta, sq) as i64,
        y: refract_out_c(uv.y as int, n.y as int, c, eta, sq) as i64,
        z: refract_out_c(uv.z as int, n.z as int, c, eta, sq) as i64,
    }
}

/// Refract the unit-length direction `uv` at the unit-length normal `n`,
/// with the ratio of refractive indices `etai_over_etat`.
pub fn refract(uv: Vec3, n: Vec3, etai_over_etat: i64) -> (r: Vec3)
    requires
        bounded(uv, SCALE as int),
        bounded(n, SCALE as int),
        0 < etai_over_etat <= 16 * SCALE,
    ensures
        r == refract_spec(uv, n, etai_over_etat as int),
        bounded(r, 66 * (SCALE as int)),
{
    proof {
        lemma_rdot_bound(uv, n, SCALE as int, SCALE as int);
        lemma_fx_range(rdot(uv, n), 3 * (SCALE as int));
    }
    let cos_theta = -uv.dot(n);
    proof {
        lemma_abs_mul_le(n.x as int, cos_theta as int, SCALE as int, 3 * (SCALE as int));
        lemma_abs_mul_le(n.y as int, cos_theta as int, SCALE as int, 3 * (SCALE as int));
        lemma_abs_mul_le(n.z as int, cos_theta as int, SCALE as int, 3 * (SCALE as int));
        lemma_fx_range((n.x as int) * (cos_theta as int), 3 * (SCALE as int));
        lemma_fx_range((n.y as int) * (cos_theta as int), 3 * (SCALE as int));
        lemma_fx_range((n.z as int) * (cos_theta as int), 3 * (SCALE as int));
    }
    let cn = n.scale(cos_theta);
    let s1 = uv.add(cn);
    proof {
        lemma_abs_mul_le(s1.x as int, etai_over_etat as int, 4 * (SCALE as int), 16 * (
        SCALE as int));
        lemma_abs_mul_le(s1.y as int, etai_over_etat as int, 4 * (SCALE as int), 16 * (
        SCALE as int));
        lemma_abs_mul_le(s1.z as int, etai_over_etat as int, 4 * (SCALE as int), 16 * (
        SCALE as int));
        lemma_fx_range((s1.x as int) * (etai_over_etat as int), 64 * (SCALE as int));
        lemma_fx_range((s1.y as int) * (etai_over_etat as int), 64 * (SCALE as int));
        lemma_fx_range((s1.z as int) * (etai_over_etat as int), 64 * (SCALE as int));
    }
    let par = s1.scale(etai_over_etat);
    let lensq = par.length_squared();
    let arg = SCALE - lensq;
    let k = if arg < 0 {
        0
    } else {
        arg
    };
    let sq = sqrt_fx(k);
    proof {
        assert(sq as int <= SCALE as int) by (nonlinear_arith)
            requires
                is_sqrt_floor((k as int) * (SCALE as int), sq as int),
                0 <= k <= SCALE,
                SCALE == 65536;
        lemma_abs_mul_le(n.x as int, -(sq as int), SCALE as int, SCALE as int);
        lemma_abs_mul_le(n.y as int, -(sq as int), SCALE as int, SCALE as int);
        lemma_abs_mul_le(n.z as int, -(sq as int), SCALE as int, SCALE as int);
        lemma_fx_range((n.x as int) * (-(sq as int)), SCALE as int);
        lemma_fx_range((n.y as int) * (-(sq as int)), SCALE as int);
        lemma_fx_range((n.z as int) * (-(sq as int)), SCALE as int);
    }
    let perp = n.scale(-sq);
    par.add(perp)
}

/// The Schlick approximation of the Fresnel reflectance, at scale.
pub open spec fn schlick_spec(cosine: int, ref_idx: int) -> int {
    let r0 = fx_div_spec((SCALE as int) - ref_idx, (SCALE as int) + ref_idx);
    let r0s = fx_mul_spec(r0, r0);
    let p = (SCALE as int) - cosine;
    let p2 = fx_mul_spec(p, p);
    let p4 = fx_mul_spec(p2, p2);
    let p5 = fx_mul_spec(p4, p);
    r0s + fx_mul_spec((SCALE as int) - r0s, p5)
}

/// The Schlick reflectance for a cosine in `[-3, 1]` and a ratio of
/// refractive indices in `(0, 16]`.
pub fn schlick(cosine: i64, ref_idx: i64) -> (r: i64)
    requires
        -(3 * (SCALE as int)) <= cosine <= SCALE,
        0 < ref_idx <= 16 * SCALE,
    ensures
        r == schlick_spec(cosine as int, ref_idx as int),
{
    proof {
        lemma_abs_mul_le((SCALE - ref_idx) as int, SCALE as int, 983040, 65536);
        assert(983040 * ((SCALE + ref_idx) as int) >= 983040 * 65536);
        lemma_div_symm_bound(((SCALE - ref_idx) as int) * (SCALE as int), 983040,
            (SCALE + ref_idx) as int);
    }
    let r0 = fx_div(SCALE - ref_idx, SCALE + ref_idx);
    proof {
        lemma_abs_mul_le(r0 as int, r0 as int, 983040, 983040);
        lemma_fx_range((r0 as int) * (r0 as int), 14745600);
    }
    let r0s = fx_mul(r0, r0);
    let p = SCALE - cosine;
    proof {
        lemma_abs_mul_le(p as int, p as int, 262144, 262144);
        lemma_fx_range((p as int) * (p as int), 1048576);
    }
    let p2 = fx_mul(p, p);
    proof {
        lemma_abs_mul_le(p2 as int, p2 as int, 1048576, 1048576);
        lemma_fx_range((p2 as int) * (p2 as int), 16777216);
    }
    let p4 = fx_mul(p2, p2);
    proof {
        lemma_abs_mul_le(p4 as int, p as int, 16777216, 262144);
        lemma_fx_range((p4 as int) * (p as int), 67108864);
    }
    let p5 = fx_mul(p4, p);
    proof {
        lemma_abs_mul_le((SCALE - r0s) as int, p5 as int, 14811136, 67108864);
        lemma_fx_range(((SCALE - r0s) as int) * (p5 as int), 15166603264);
    }
    r0s + fx_mul(SCALE - r0s, p5)
}

/// The spherical sampling scheme of the diffuse model: for an azimuth
/// `a` and a height `z`, the direction `(rad cos a, rad sin a, z)` with
/// `rad` the square root of `1 - z^2`, all at scale.
pub open spec fn unit_sample_spec(a: int, z: int) -> Vec3 {
    let rad = sqrt_floor(((SCALE as int) - fx_mul_spec(z, z)) * (SCALE as int));
    Vec3 {
        x: fx_mul_spec(rad, cos_spec(a)) as i64,
        y: fx_mul_spec(rad, sin_spec(a)) as i64,
        z: z as i64,
    }
}

/// `v` has the shape of a spherical sample: some in-range azimuth and
/// height produce it.
pub open spec fn unit_sample_ok(v: Vec3) -> bool {
    exists|a: int, z: int|
        0 <= a < TWO_PI_FX && -(SCALE as int) <= z <= SCALE && v == #[trigger] unit_sample_spec(
            a, z)
}

/// The disk sampling scheme of the thin lens: a uniform azimuth and a
/// square-rooted uniform radius.
pub open spec fn disk_sample_spec(a: int, u: int) -> Vec3 {
    let rad = sqrt_floor(u * (SCALE as int));
    Vec3 {
        x: fx_mul_spec(rad, cos_spec(a)) as i64,
        y: fx_mul_spec(rad, sin_spec(a)) as i64,
        z: 0i64,
    }
}

/// A fresh direction of unit-ish length: a uniform height on the sphere
/// and a uniform azimuth, turned into coordinates through the sine and
/// cosine approximations.  Every component lies in `[-1, 1]`.
pub fn random_unit_vector() -> (r: Vec3)
    ensures
        bounded(r, SCALE as int),
        unit_sample_ok(r),
{
    let a = rand_angle();
    let z = rand_sym();
    proof {
        lemma_abs_mul_le(z as int, z as int, SCALE as int, SCALE as int);
        lemma_fx_range((z as int) * (z as int), SCALE as int);
        assert(0 <= (z as int) * (z as int)) by (nonlinear_arith);
        vstd::arithmetic::div_mod::lemma_div_pos_is_pos((z as int) * (z as int), SCALE as int);
    }
    let zz = fx_mul(z, z);
    let arg = SCALE - zz;
    let rad = sqrt_fx(arg);
    proof {
        assert(rad as int <= SCALE as int) by (nonlinear_arith)
            requires
                is_sqrt_floor((arg as int) * (SCALE as int), rad as int),
                0 <= arg <= SCALE,
                SCALE == 65536;
    }
    let ca = fp_cos(a);
    let sa = fp_sin(a);
    proof {
        lemma_abs_mul_le(rad as int, ca as int, SCALE as int, SCALE as int);
        lemma_abs_mul_le(rad as int, sa as int, SCALE as int, SCALE as int);
        lemma_fx_range((rad as int) * (ca as int), SCALE as int);
        lemma_fx_range((rad as int) * (sa as int), SCALE as int);
    }
    let r = Vec3 { x: fx_mul(rad, ca), y: fx_mul(rad, sa), z };
    proof {
        assert(r == unit_sample_spec(a as int, z as int));
    }
    r
}

/// A fresh direction in the hemisphere around `normal` (up to one unit of
/// rounding in the fixed-point dot product).
pub fn rand_in_hemisphere(normal: &Vec3) -> (r: Vec3)
    requires
        in_range(*normal),
    ensures
        bounded(r, SCALE as int),
        dot_spec(r, *normal) >= -1,
        exists|u: Vec3|
            #![trigger unit_sample_ok(u)]
            unit_sample_ok(u) && r == if dot_spec(u, *normal) > 0 {
                u
            } else {
                neg_spec(u)
            },
{
    let in_unit_sphere = random_unit_vector();
    let d = in_unit_sphere.dot(*normal);
    if d > 0 {
        proof {
            assert(unit_sample_ok(in_unit_sphere) && in_unit_sphere == if dot_spec(
                in_unit_sphere, *normal) > 0 {
                in_unit_sphere
            } else {
                neg_spec(in_unit_sphere)
            });
        }
        in_unit_sphere
    } else {
        let flipped = in_unit_sphere.neg();
        proof {
            let u = in_unit_sphere;
            let n = *normal;
            assert(flipped.x * n.x + flipped.y * n.y + flipped.z * n.z == -(u.x * n.x + u.y * n.y
                + u.z * n.z)) by (nonlinear_arith)
                requires
                    flipped.x == -u.x,
                    flipped.y == -u.y,
                    flipped.z == -u.z,
            ;
            vstd::arithmetic::div_mod::lemma_fundamental_div_mod(rdot(u, n), SCALE as int);
            vstd::arithmetic::div_mod::lemma_mod_division_less_than_divisor(rdot(u, n),
                SCALE as int);
            assert(rdot(u, n) <= (SCALE as int) - 1) by (nonlinear_arith)
                requires
                    rdot(u, n) == (SCALE as int) * (rdot(u, n) / (SCALE as int)) + rdot(u, n) % (
                    SCALE as int),
                    rdot(u, n) / (SCALE as int) <= 0,
                    0 <= rdot(u, n) % (SCALE as int) < (SCALE as int),
            ;
            lemma_div_is_ordered(1 - (SCALE as int), rdot(flipped, n), SCALE as int);
            assert((1 - (SCALE as int)) / (SCALE as int) == -1) by {
                vstd::arithmetic::div_mod::lemma_fundamental_div_mod(1 - (SCALE as int),
                    SCALE as int);
                vstd::arithmetic::div_mod::lemma_mod_division_less_than_divisor(
                    1 - (SCALE as int), SCALE as int);
                assert(1 - (SCALE as int) == (SCALE as int) * ((1 - (SCALE as int)) / (
                SCALE as int)) + (1 - (SCALE as int)) % (SCALE as int));
                assert((1 - (SCALE as int)) / (SCALE as int) == -1) by (nonlinear_arith)
                    requires
                        1 - (SCALE as int) == (SCALE as int) * ((1 - (SCALE as int)) / (
                        SCALE as int)) + (1 - (SCALE as int)) % (SCALE as int),
                        0 <= (1 - (SCALE as int)) % (SCALE as int) < (SCALE as int),
                        SCALE == 65536,
                ;
            }
        }
        flipped
    }
}

/// `v` has the shape of a lens-disk sample: some in-range azimuth and
/// radius draw produce it.
pub open spec fn disk_sample_ok(v: Vec3) -> bool {
    exists|a: int, u: int|
        0 <= a < TWO_PI_FX && 0 <= u < SCALE && v == #[trigger] disk_sample_spec(a, u)
}

/// A fresh point in the unit disk of the x-y plane, by a uniform angle
/// and a square-rooted uniform radius.
pub fn random_in_unit_disk() -> (r: Vec3)
    ensures
        bounded(r, SCALE as int),
        r.z == 0,
        disk_sample_ok(r),
{
    let a = rand_angle();
    let u = rand01();
    let rad = sqrt_fx(u);
    proof {
        assert(rad as int <= SCALE as int) by (nonlinear_arith)
            requires
                is_sqrt_floor((u as int) * (SCALE as int), rad as int),
                0 <= u <= SCALE,
                SCALE == 65536;
    }
    let ca = fp_cos(a);
    let sa = fp_sin(a);
    proof {
        lemma_abs_mul_le(rad as int, ca as int, SCALE as int, SCALE as int);
        lemma_abs_mul_le(rad as int, sa as int, SCALE as int, SCALE as int);
        lemma_fx_range((rad as int) * (ca as int), SCALE as int);
        lemma_fx_range((rad as int) * (sa as int), SCALE as int);
    }
    let r = Vec3 { x: fx_mul(rad, ca), y: fx_mul(rad, sa), z: 0 };
    proof {
        assert(r == disk_sample_spec(a as int, u as int));
    }
    r
}

} // verus!
