//! The library's laws: proof functions stating what the scattering and
//! tone-mapping algebra guarantees, over the same spec functions the
//! executable contracts use.

use vstd::prelude::*;
use crate::fixed::{
    SCALE, sqrt_floor, clamp_spec, lemma_sqrt_floor_exists, lemma_sqrt_floor_monotone,
};
use vstd::arithmetic::div_mod::lemma_div_is_ordered;
use crate::vec3::{Vec3, rdot, gamma2_byte_of};
use crate::ray::Ray;
use crate::hittable::{HitRecord, list_hit_loop};
use crate::sphere::{Sphere, sphere_hit_spec, lemma_sphere_hit_shrink, sph_a, sph_half_b,
    sph_c, sph_disc, sph_sqrt_disc};

verus! {

/// Law of the quadratic roots: when the discriminant arithmetic loses
/// nothing to rounding — the square of the half middle coefficient and
/// the product of the outer coefficients are both multiples of the scale,
/// and the discriminant's scaled value is a perfect square `s * s` — the
/// two reported roots satisfy the intersection quadratic exactly.  In
/// cleared form, with `t` standing for the root numerator `(-hb -+ s) *
/// SCALE` over the denominator `a * SCALE`, the quadratic
/// `a t^2 + 2 hb t + c == 0` becomes the identities below.
pub proof fn lemma_sphere_root_quadratic(a: int, hb: int, c: int, s: int)
    by (nonlinear_arith)
    requires
        a > 0,
        s >= 0,
        s * s == hb * hb - a * c,
    ensures
        (-hb - s) * (-hb - s) + 2 * hb * (-hb - s) + a * c == 0,
        (-hb + s) * (-hb + s) + 2 * hb * (-hb + s) + a * c == 0,
{
}

/// The root law carried onto the hit protocol's own coefficients: when
/// the squared half coefficient and the coefficient product are multiples
/// of the scale and the scaled discriminant is a perfect square, both
/// root numerators `-hb -+ sd` satisfy the quadratic exactly — as the
/// axis-ray scenario of the tests does.
pub proof fn lemma_sphere_roots_exact(center: Vec3, r: Ray, radius: i64)
    requires
        sph_a(r) > 0,
        (sph_half_b(center, r) * sph_half_b(center, r)) % (SCALE as int) == 0,
        (sph_a(r) * sph_c(center, radius, r)) % (SCALE as int) == 0,
        sph_sqrt_disc(center, radius, r) == sqrt_floor(sph_disc(center, radius, r) * (
        SCALE as int)),
        sph_sqrt_disc(center, radius, r) * sph_sqrt_disc(center, radius, r) == sph_disc(center,
            radius, r) * (SCALE as int),
        sph_disc(center, radius, r) >= 0,
    ensures
        ({
            let hb = sph_half_b(center, r);
            let a = sph_a(r);
            let c = sph_c(center, radius, r);
            let sd = sph_sqrt_disc(center, radius, r);
            &&& (-hb - sd) * (-hb - sd) + 2 * hb * (-hb - sd) + a * c == 0
            &&& (-hb + sd) * (-hb + sd) + 2 * hb * (-hb + sd) + a * c == 0
        }),
{
    let hb = sph_half_b(center, r);
    let a = sph_a(r);
    let c = sph_c(center, radius, r);
    let sd = sph_sqrt_disc(center, radius, r);
    lemma_sqrt_floor_exists(sph_disc(center, radius, r) * (SCALE as int));
    vstd::arithmetic::div_mod::lemma_fundamental_div_mod(hb * hb, SCALE as int);
    vstd::arithmetic::div_mod::lemma_fundamental_div_mod(a * c, SCALE as int);
    assert(sph_disc(center, radius, r) * (SCALE as int) == hb * hb - a * c)
        by (nonlinear_arith)
        requires
            hb * hb == (SCALE as int) * ((hb * hb) / (SCALE as int)) + 0,
            a * c == (SCALE as int) * ((a * c) / (SCALE as int)) + 0,
            sph_disc(center, radius, r) == (hb * hb) / (SCALE as int) - (a * c) / (
            SCALE as int),
    ;
    lemma_sphere_root_quadratic(a, hb, c, sd);
}

/// Reflection law: reflecting about a unit normal preserves the angle.
/// Over the exact numerators of `reflect_comp` — component `i` of the
/// reflection is `(SCALE^2 v_i - 2 rdot(v, n) n_i) / SCALE^2` — the raw
/// dot product of the reflected numerators with the normal is exactly
/// the negation of the incoming raw dot product, at squared scale.
#[verifier::rlimit(100)]
pub proof fn lemma_reflect_law(v: Vec3, n: Vec3)
    requires
        rdot(n, n) == (SCALE as int) * (SCALE as int),
    ensures
        ((SCALE as int) * (SCALE as int) * v.x - 2 * rdot(v, n) * n.x) * n.x + ((
        SCALE as int) * (SCALE as int) * v.y - 2 * rdot(v, n) * n.y) * n.y + ((SCALE as int) * (
        SCALE as int) * v.z - 2 * rdot(v, n) * n.z) * n.z == -((SCALE as int) * (SCALE as int))
            * rdot(v, n),
{
    let d = rdot(v, n);
    assert((4294967296 * v.x - 2 * d * n.x) * n.x == 4294967296 * (v.x * n.x) - 2 * (d * (n.x
        * n.x)))
        by (nonlinear_arith);
    assert((4294967296 * v.y - 2 * d * n.y) * n.y == 4294967296 * (v.y * n.y) - 2 * (d * (n.y
        * n.y)))
        by (nonlinear_arith);
    assert((4294967296 * v.z - 2 * d * n.z) * n.z == 4294967296 * (v.z * n.z) - 2 * (d * (n.z
        * n.z)))
        by (nonlinear_arith);
    assert(d * (n.x * n.x) + d * (n.y * n.y) + d * (n.z * n.z) == d * 4294967296)
        by (nonlinear_arith)
        requires
            n.x * n.x + n.y * n.y + n.z * n.z == 4294967296,
    ;
}

/// Matched-media refraction law: with a ratio of one, refraction is the
/// identity.  Over the exact numerators of the in-plane part —
/// `P_i = SCALE^2 uv_i + cnum n_i` with `cnum = -rdot(uv, n)` — the
/// part's squared length misses the full squared scale by exactly
/// `cnum^2`, so the along-normal part restores exactly `cnum n_i` and
/// the refracted numerators recombine to the incoming direction.
#[verifier::rlimit(100)]
pub proof fn lemma_refract_matched(uv: Vec3, n: Vec3)
    requires
        rdot(uv, uv) == (SCALE as int) * (SCALE as int),
        rdot(n, n) == (SCALE as int) * (SCALE as int),
    ensures
        ({
            let s2 = (SCALE as int) * (SCALE as int);
            let cnum = -rdot(uv, n);
            let px = s2 * uv.x + cnum * n.x;
            let py = s2 * uv.y + cnum * n.y;
            let pz = s2 * uv.z + cnum * n.z;
            px * px + py * py + pz * pz == s2 * (s2 * s2 - cnum * cnum)
        }),
        ({
            let s2 = (SCALE as int) * (SCALE as int);
            let cnum = -rdot(uv, n);
            (s2 * uv.x + cnum * n.x) - cnum * n.x == s2 * uv.x
            && (s2 * uv.y + cnum * n.y) - cnum * n.y == s2 * uv.y
            && (s2 * uv.z + cnum * n.z) - cnum * n.z == s2 * uv.z
        }),
{
    let c = -rdot(uv, n);
    assert((4294967296 * uv.x + c * n.x) * (4294967296 * uv.x + c * n.x) == 4294967296
        * 4294967296 * (uv.x * uv.x) + 2 * 4294967296 * (c * (uv.x * n.x)) + (c * c) * (n.x
        * n.x))
        by (nonlinear_arith);
    assert((4294967296 * uv.y + c * n.y) * (4294967296 * uv.y + c * n.y) == 4294967296
        * 4294967296 * (uv.y * uv.y) + 2 * 4294967296 * (c * (uv.y * n.y)) + (c * c) * (n.y
        * n.y))
        by (nonlinear_arith);
    assert((4294967296 * uv.z + c * n.z) * (4294967296 * uv.z + c * n.z) == 4294967296
        * 4294967296 * (uv.z * uv.z) + 2 * 4294967296 * (c * (uv.z * n.z)) + (c * c) * (n.z
        * n.z))
        by (nonlinear_arith);
    assert(c * (uv.x * n.x) + c * (uv.y * n.y) + c * (uv.z * n.z) == -(c * c))
        by (nonlinear_arith)
        requires
            c == -(uv.x * n.x + uv.y * n.y + uv.z * n.z),
    ;
    assert((c * c) * (n.x * n.x) + (c * c) * (n.y * n.y) + (c * c) * (n.z * n.z) == (c * c)
        * 4294967296)
        by (nonlinear_arith)
        requires
            n.x * n.x + n.y * n.y + n.z * n.z == 4294967296,
    ;
    assert(4294967296 * 4294967296 * 4294967296 - 2 * 4294967296 * (c * c) + (c * c)
        * 4294967296 == 4294967296 * (4294967296 * 4294967296 - c * c)) by (nonlinear_arith);
    assert((SCALE as int) * (SCALE as int) == 4294967296);
    assert(2 * 4294967296 * (c * (uv.x * n.x)) + 2 * 4294967296 * (c * (uv.y * n.y)) + 2
        * 4294967296 * (c * (uv.z * n.z)) == 2 * 4294967296 * (c * (uv.x * n.x) + c * (uv.y
        * n.y) + c * (uv.z * n.z))) by (nonlinear_arith);
    assert(4294967296 * 4294967296 * (uv.x * uv.x) + 4294967296 * 4294967296 * (uv.y * uv.y)
        + 4294967296 * 4294967296 * (uv.z * uv.z) == 4294967296 * 4294967296 * (uv.x * uv.x
        + uv.y * uv.y + uv.z * uv.z)) by (nonlinear_arith);
    assert((4294967296 * uv.x + c * n.x) * (4294967296 * uv.x + c * n.x) + (4294967296 * uv.y
        + c * n.y) * (4294967296 * uv.y + c * n.y) + (4294967296 * uv.z + c * n.z) * (
    4294967296 * uv.z + c * n.z) == 4294967296 * (4294967296 * 4294967296 - c * c));
}

/// The induction behind the nearest-hit law, following the fold: the
/// running window edge equals the best hit's distance (or the full edge
/// while there is none), and every remaining primitive's full-window hit
/// lies no nearer than the final result.
proof fn lemma_list_hit_nearest_aux(
    objects: Seq<Sphere>,
    i: int,
    r: Ray,
    t_min: i64,
    closest: i64,
    best: Option<HitRecord>,
    t_max: i64,
)
    requires
        0 <= i,
        closest <= t_max,
        match best {
            Some(b) => b.distance == closest,
            None => closest == t_max,
        },
    ensures
        match list_hit_loop(objects, i, r, t_min, closest, best) {
            Some(h) => h.distance <= closest && (forall|j: int|
                i <= j < objects.len() ==> match sphere_hit_spec(#[trigger] objects[j], r,
                    t_min, t_max) {
                    Some(g) => h.distance <= g.distance,
                    None => true,
                }),
            None => best.is_none() && (forall|j: int|
                i <= j < objects.len() ==> sphere_hit_spec(#[trigger] objects[j], r, t_min,
                    t_max).is_none()),
        },
    decreases objects.len() - i,
{
    if 0 <= i < objects.len() {
        lemma_sphere_hit_shrink(objects[i], r, t_min, closest, t_max);
        crate::sphere::lemma_sphere_hit_window(objects[i], r, t_min, t_max);
        let res = list_hit_loop(objects, i, r, t_min, closest, best);
        match sphere_hit_spec(objects[i], r, t_min, closest) {
            Some(h) => {
                crate::sphere::lemma_sphere_hit_window(objects[i], r, t_min, closest);
                lemma_list_hit_nearest_aux(objects, i + 1, r, t_min, h.distance, Some(h),
                    t_max);
                assert(res == list_hit_loop(objects, i + 1, r, t_min, h.distance, Some(h)));
                match res {
                    Some(hh) => {
                        assert(hh.distance <= h.distance);
                        assert forall|j: int| i <= j < objects.len() implies match
                            sphere_hit_spec(#[trigger] objects[j], r, t_min, t_max) {
                            Some(g) => hh.distance <= g.distance,
                            None => true,
                        } by {
                            if j == i {
                                match sphere_hit_spec(objects[i], r, t_min, t_max) {
                                    Some(g) => {
                                        assert(g.distance >= closest || h.distance
                                            <= g.distance);
                                    },
                                    None => {},
                                }
                            }
                        }
                    },
                    None => {
                        assert(false);
                    },
                }
            },
            None => {
                lemma_list_hit_nearest_aux(objects, i + 1, r, t_min, closest, best, t_max);
                assert(res == list_hit_loop(objects, i + 1, r, t_min, closest, best));
                match res {
                    Some(hh) => {
                        assert forall|j: int| i <= j < objects.len() implies match
                            sphere_hit_spec(#[trigger] objects[j], r, t_min, t_max) {
                            Some(g) => hh.distance <= g.distance,
                            None => true,
                        } by {
                            if j == i {
                                match sphere_hit_spec(objects[i], r, t_min, t_max) {
                                    Some(g) => {
                                        assert(g.distance >= closest);
                                        assert(hh.distance <= closest);
                                    },
                                    None => {},
                                }
                            }
                        }
                    },
                    None => {
                        assert(closest == t_max);
                        assert forall|j: int| i <= j < objects.len() implies sphere_hit_spec(
                            #[trigger] objects[j], r, t_min, t_max).is_none() by {
                            if j == i {
                                match sphere_hit_spec(objects[i], r, t_min, t_max) {
                                    Some(g) => {
                                        assert(g.distance >= closest);
                                        assert(g.distance < t_max);
                                        assert(false);
                                    },
                                    None => {},
                                }
                            }
                        }
                    },
                }
            },
        }
    }
}

/// Nearest-hit law: whatever order the primitives were inserted in, the
/// scene aggregate reports a hit no farther than any primitive's own hit
/// over the full window, and reports a miss only when every primitive
/// misses.  Ties keep the earlier primitive, since a later candidate must
/// strictly beat the best distance so far.
pub proof fn lemma_nearest_hit(objects: Seq<Sphere>, r: Ray, t_min: i64, t_max: i64)
    ensures
        match list_hit_loop(objects, 0, r, t_min, t_max, None::<HitRecord>) {
            Some(h) => forall|j: int|
                0 <= j < objects.len() ==> match sphere_hit_spec(#[trigger] objects[j], r,
                    t_min, t_max) {
                    Some(g) => h.distance <= g.distance,
                    None => true,
                },
            None => forall|j: int|
                0 <= j < objects.len() ==> sphere_hit_spec(#[trigger] objects[j], r, t_min,
                    t_max).is_none(),
        },
{
    lemma_list_hit_nearest_aux(objects, 0, r, t_min, t_max, None, t_max);
}

/// Gamma tone curve law: the byte a channel maps to never decreases as
/// the accumulated linear radiance grows.
pub proof fn lemma_gamma_monotone(c1: int, c2: int, spp: int)
    requires
        0 <= c1 <= c2,
        1 <= spp,
    ensures
        gamma2_byte_of(c1, spp) <= gamma2_byte_of(c2, spp),
{
    lemma_div_is_ordered(c1, c2, spp);
    let s1 = c1 / spp;
    let s2 = c2 / spp;
    let s01 = if s1 < 0 {
        0
    } else {
        s1
    };
    let s02 = if s2 < 0 {
        0
    } else {
        s2
    };
    assert(0 <= s01 * (SCALE as int) <= s02 * (SCALE as int)) by (nonlinear_arith)
        requires
            0 <= s01 <= s02,
            SCALE == 65536;
    lemma_sqrt_floor_monotone(s01 * (SCALE as int), s02 * (SCALE as int));
    lemma_div_is_ordered(
        clamp_spec(sqrt_floor(s01 * (SCALE as int)), 0, 65470),
        clamp_spec(sqrt_floor(s02 * (SCALE as int)), 0, 65470),
        256,
    );
}

} // verus!
