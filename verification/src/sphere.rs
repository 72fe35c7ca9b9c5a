//! Spheres and their ray intersection, by the half-angle form of the
//! quadratic.
//!
//! The discriminant policy of the whole tracer: a tangent ray, whose
//! discriminant is zero, counts as a miss (`> 0`, not `>= 0`).  A negative
//! radius models an inverted shell; the outward normal is then flipped so
//! that front-face determination still works.

use vstd::prelude::*;
use crate::fixed::{
    SCALE, fx_mul, fx_mul_spec, sqrt_floor, isqrt, lemma_fx_range, lemma_abs_mul_le,
    lemma_div_symm_bound, lemma_div_abs_shrinks,
};
use vstd::arithmetic::div_mod::{lemma_div_is_ordered, lemma_div_pos_is_pos};
use crate::vec3::{Vec3, VEC_MAX, bounded, in_range, rdot, neg_spec, unit_spec, vec_in_range,
    lemma_rdot_bound, lemma_rdot_self_nonneg};
use crate::ray::{Ray, at_spec};
use crate::hittable::{
    Hittable, HitRecord, hit_query_ok, hit_record_spec, WORLD_MAX, T_MAX, RADIUS_MIN,
    RADIUS_MAX,
};
use crate::materials::{Material, MaterialKind};
use crate::Point3;

verus! {

/// A sphere with no material, for plain visibility tests.
pub struct SimpleSphere {
    pub center: Point3,
    pub radius: i64,
}

/// A sphere bound to a material.
pub struct Sphere {
    pub center: Point3,
    pub radius: i64,
    pub material: MaterialKind,
}

/// What the intersection arithmetic assumes of a sphere's geometry.
pub open spec fn sphere_geom_ok(center: Point3, radius: i64) -> bool {
    &&& bounded(center, WORLD_MAX as int)
    &&& RADIUS_MIN <= radius <= RADIUS_MAX || -RADIUS_MAX <= radius <= -RADIUS_MIN
}

impl SimpleSphere {
    pub fn new(center: Point3, radius: i64) -> (s: Self)
        requires
            sphere_geom_ok(center, radius),
        ensures
            s.center == center,
            s.radius == radius,
            s.wf(),
    {
        Self { center, radius }
    }
}

impl Sphere {
    pub fn new(center: Point3, radius: i64, material: MaterialKind) -> (s: Self)
        requires
            sphere_geom_ok(center, radius),
            material.wf_spec(),
        ensures
            s.center == center,
            s.radius == radius,
            s.material == material,
            s.wf(),
    {
        Self { center, radius, material }
    }
}

/// The ray origin relative to the sphere center.
pub open spec fn sph_oc(center: Point3, r: Ray) -> Vec3 {
    Vec3 {
        x: (r.origin.x - center.x) as i64,
        y: (r.origin.y - center.y) as i64,
        z: (r.origin.z - center.z) as i64,
    }
}

/// The quadratic's leading coefficient: the squared direction length.
pub open spec fn sph_a(r: Ray) -> int {
    rdot(r.direction, r.direction) / (SCALE as int)
}

/// The half middle coefficient `oc . direction`.
pub open spec fn sph_half_b(center: Point3, r: Ray) -> int {
    rdot(sph_oc(center, r), r.direction) / (SCALE as int)
}

/// The constant coefficient `|oc|^2 - radius^2`.
pub open spec fn sph_c(center: Point3, radius: i64, r: Ray) -> int {
    rdot(sph_oc(center, r), sph_oc(center, r)) / (SCALE as int) - fx_mul_spec(radius as int,
        radius as int)
}

/// The discriminant of the half-angle quadratic.
pub open spec fn sph_disc(center: Point3, radius: i64, r: Ray) -> int {
    let hb = sph_half_b(center, r);
    let a = sph_a(r);
    let c = sph_c(center, radius, r);
    (hb * hb) / (SCALE as int) - (a * c) / (SCALE as int)
}

/// The square root of the discriminant, at scale.
pub open spec fn sph_sqrt_disc(center: Point3, radius: i64, r: Ray) -> int {
    sqrt_floor(sph_disc(center, radius, r) * (SCALE as int))
}

/// The near root of the quadratic.
pub open spec fn sph_t1(center: Point3, radius: i64, r: Ray) -> int {
    ((-sph_half_b(center, r) - sph_sqrt_disc(center, radius, r)) * (SCALE as int)) / sph_a(r)
}

/// The far root of the quadratic.
pub open spec fn sph_t2(center: Point3, radius: i64, r: Ray) -> int {
    ((-sph_half_b(center, r) + sph_sqrt_disc(center, radius, r)) * (SCALE as int)) / sph_a(r)
}

/// Whether the hit point at `t` admits a usable normal: its offset from
/// the center is in range and not degenerate.  A hit failing this is
/// reported as a miss; it can only arise from extreme coordinates.
pub open spec fn sph_norm_ok(center: Point3, r: Ray, t: int) -> bool {
    let p = at_spec(r, t);
    let d = Vec3 {
        x: (p.x - center.x) as i64,
        y: (p.y - center.y) as i64,
        z: (p.z - center.z) as i64,
    };
    in_range(d) && rdot(d, d) >= 1
}

/// The outward normal at the hit point for parameter `t`: the unit offset
/// from the center, flipped for a negative radius.
pub open spec fn sph_outward(center: Point3, radius: i64, r: Ray, t: int) -> Vec3 {
    let p = at_spec(r, t);
    let d = Vec3 {
        x: (p.x - center.x) as i64,
        y: (p.y - center.y) as i64,
        z: (p.z - center.z) as i64,
    };
    if radius < 0 {
        neg_spec(unit_spec(d))
    } else {
        unit_spec(d)
    }
}

/// Whether the root `t` is accepted: strictly inside the window, with a
/// usable normal.
pub open spec fn sph_accepts(center: Point3, r: Ray, t_min: i64, t_max: i64, t: int) -> bool {
    t_min < t < t_max
}

/// The record a sphere hit builds for parameter `t`.
pub open spec fn sph_rec(center: Point3, radius: i64, mat: Option<MaterialKind>, r: Ray, t: int)
    -> HitRecord {
    let p = at_spec(r, t);
    let base = hit_record_spec(sph_outward(center, radius, r, t), r, t as i64, p);
    HitRecord {
        point: base.point,
        normal: base.normal,
        distance: base.distance,
        is_front_face: base.is_front_face,
        material: mat,
    }
}

/// The whole hit protocol of a sphere: no real intersection (a tangent
/// included) is a miss; otherwise the near root is tested against the
/// window first, then the far root, and the first root inside the window
/// decides — with a miss reported if its normal is unusable.
pub open spec fn sphere_hit_core(
    center: Point3,
    radius: i64,
    mat: Option<MaterialKind>,
    r: Ray,
    t_min: i64,
    t_max: i64,
) -> Option<HitRecord> {
    let disc = sph_disc(center, radius, r);
    if disc > 0 {
        let t1 = sph_t1(center, radius, r);
        let t2 = sph_t2(center, radius, r);
        if sph_accepts(center, r, t_min, t_max, t1) {
            if sph_norm_ok(center, r, t1) {
                Some(sph_rec(center, radius, mat, r, t1))
            } else {
                None
            }
        } else if sph_accepts(center, r, t_min, t_max, t2) {
            if sph_norm_ok(center, r, t2) {
                Some(sph_rec(center, radius, mat, r, t2))
            } else {
                None
            }
        } else {
            None
        }
    } else {
        None
    }
}

/// The hit protocol of a material-bearing sphere.
pub open spec fn sphere_hit_spec(s: Sphere, r: Ray, t_min: i64, t_max: i64) -> Option<HitRecord> {
    sphere_hit_core(s.center, s.radius, Some(s.material), r, t_min, t_max)
}

/// The discriminant of the full-coefficient quadratic, as the plain
/// visibility test computes it.
pub open spec fn hit_sphere_disc(center: Point3, radius: i64, r: Ray) -> int {
    let a = sph_a(r);
    let b = 2 * sph_half_b(center, r);
    let c = sph_c(center, radius, r);
    (b * b) / (SCALE as int) - (4 * (a * c)) / (SCALE as int)
}

/// Whether the ray meets the sphere at all: a positive discriminant.
/// A tangent ray, with discriminant zero, counts as a miss.
pub fn hit_sphere(center: &Point3, radius: i64, r: &Ray) -> (res: bool)
    requires
        bounded(r.origin, WORLD_MAX as int),
        in_range(r.direction),
        sphere_geom_ok(*center, radius),
    ensures
        res == (hit_sphere_disc(*center, radius, *r) > 0),
{
    let oc = r.origin.sub(*center);
    proof {
        assert(oc == sph_oc(*center, *r));
        lemma_rdot_bound(oc, oc, 0x200000000, 0x200000000);
        lemma_rdot_bound(oc, r.direction, 0x200000000, VEC_MAX as int);
        lemma_rdot_bound(r.direction, r.direction, VEC_MAX as int, VEC_MAX as int);
        lemma_fx_range(rdot(oc, r.direction), 0xC00000000000000);
        lemma_fx_range(rdot(oc, oc), 0xC000000000000);
        lemma_fx_range(rdot(r.direction, r.direction), 0x3000000000000000);
        lemma_abs_mul_le(radius as int, radius as int, RADIUS_MAX as int, RADIUS_MAX as int);
        lemma_fx_range((radius as int) * (radius as int), 0x10000000000);
        lemma_rdot_self_nonneg(oc);
        lemma_rdot_self_nonneg(r.direction);
        lemma_div_pos_is_pos(rdot(oc, oc), SCALE as int);
        lemma_div_pos_is_pos(rdot(r.direction, r.direction), SCALE as int);
    }
    let a = r.direction.dot(r.direction);
    let half_b = oc.dot(r.direction);
    let b: i64 = 2 * half_b;
    let c = oc.length_squared() - fx_mul(radius, radius);
    let b128: i128 = b as i128;
    let a128: i128 = a as i128;
    let c128: i128 = c as i128;
    proof {
        lemma_abs_mul_le(b128 as int, b128 as int, 0x1800000000000000, 0x1800000000000000);
        lemma_abs_mul_le(a128 as int, c128 as int, 0x3000000000000000, 0xD000000000000);
        lemma_div_symm_bound((b128 as int) * (b128 as int), 0x2400000000000000000000000000,
            SCALE as int);
        lemma_div_symm_bound(4 * ((a128 as int) * (c128 as int)),
            0x9C0000000000000000000000000, SCALE as int);
    }
    let disc: i128 = (b128 * b128).checked_div_euclid(65536).unwrap() - (4 * (a128 * c128))
        .checked_div_euclid(65536).unwrap();
    disc > 0
}

/// The full hit characterization, spelled out: a hit is reported exactly
/// when the discriminant is positive and the first root inside the open
/// window — near root first — has a usable normal; the reported distance
/// is that root.  The normal-usability guard is the one fixed-point
/// addition to the real-arithmetic protocol.
pub proof fn lemma_sphere_hit_characterization(s: Sphere, r: Ray, t_min: i64, t_max: i64)
    ensures
        sphere_hit_spec(s, r, t_min, t_max).is_some() <==> ({
            let disc = sph_disc(s.center, s.radius, r);
            let t1 = sph_t1(s.center, s.radius, r);
            let t2 = sph_t2(s.center, s.radius, r);
            disc > 0 && ((t_min < t1 < t_max && sph_norm_ok(s.center, r, t1)) || (!(t_min < t1
                < t_max) && t_min < t2 < t_max && sph_norm_ok(s.center, r, t2)))
        }),
        sphere_hit_spec(s, r, t_min, t_max).is_some() ==> sphere_hit_spec(s, r, t_min,
            t_max).unwrap().distance == (if t_min < sph_t1(s.center, s.radius, r) < t_max {
            sph_t1(s.center, s.radius, r)
        } else {
            sph_t2(s.center, s.radius, r)
        }),
{
}

/// An accepted hit lies strictly inside the query window.
pub proof fn lemma_sphere_hit_window(s: Sphere, r: Ray, t_min: i64, t_max: i64)
    ensures
        sphere_hit_spec(s, r, t_min, t_max).is_some() ==> t_min < sphere_hit_spec(s, r, t_min,
            t_max).unwrap().distance < t_max,
{
}

/// Cutting the window's far edge can only keep a hit at the same or a
/// nearer root, or push the old hit's distance beyond the cut: the step
/// that makes the nearest-hit fold sound.
pub proof fn lemma_sphere_hit_shrink(s: Sphere, r: Ray, t_min: i64, tm1: i64, tm2: i64)
    requires
        tm1 <= tm2,
    ensures
        match sphere_hit_spec(s, r, t_min, tm2) {
            Some(g) => g.distance >= tm1 || (match sphere_hit_spec(s, r, t_min, tm1) {
                Some(g2) => g2.distance <= g.distance,
                None => false,
            }),
            None => true,
        },
{
}

/// A record built for an accepted root is well formed.
pub proof fn lemma_sph_rec_wf(
    center: Point3,
    radius: i64,
    mat: Option<MaterialKind>,
    r: Ray,
    t: int,
)
    requires
        sph_norm_ok(center, r, t),
        in_range(r.direction),
        match mat {
            Some(m) => m.wf_spec(),
            None => true,
        },
    ensures
        sph_rec(center, radius, mat, r, t).wf(),
{
    let p = at_spec(r, t);
    let d = Vec3 {
        x: (p.x - center.x) as i64,
        y: (p.y - center.y) as i64,
        z: (p.z - center.z) as i64,
    };
    crate::vec3::lemma_unit_spec_bounded(d);
}

/// Build the hit record for an accepted root, or report a miss when the
/// normal there is unusable.
fn accept_root(
    center: Point3,
    radius: i64,
    material: Option<MaterialKind>,
    r: &Ray,
    t: i64,
) -> (res: Option<HitRecord>)
    requires
        bounded(r.origin, WORLD_MAX as int),
        in_range(r.direction),
        rdot(r.direction, r.direction) >= SCALE,
        sphere_geom_ok(center, radius),
        0 <= t <= T_MAX,
        match material {
            Some(m) => m.wf_spec(),
            None => true,
        },
    ensures
        res == if sph_norm_ok(center, *r, t as int) {
            Some(sph_rec(center, radius, material, *r, t as int))
        } else {
            None::<HitRecord>
        },
{
    proof {
        lemma_abs_mul_le(r.direction.x as int, t as int, VEC_MAX as int, T_MAX as int);
        lemma_abs_mul_le(r.direction.y as int, t as int, VEC_MAX as int, T_MAX as int);
        lemma_abs_mul_le(r.direction.z as int, t as int, VEC_MAX as int, T_MAX as int);
        lemma_fx_range((r.direction.x as int) * (t as int), 0x400000000000000);
        lemma_fx_range((r.direction.y as int) * (t as int), 0x400000000000000);
        lemma_fx_range((r.direction.z as int) * (t as int), 0x400000000000000);
    }
    let point = r.at(t);
    let diff = point.sub(center);
    if !vec_in_range(&diff) {
        return None;
    }
    proof {
        lemma_abs_mul_le(diff.x as int, diff.x as int, VEC_MAX as int, VEC_MAX as int);
        lemma_abs_mul_le(diff.y as int, diff.y as int, VEC_MAX as int, VEC_MAX as int);
        lemma_abs_mul_le(diff.z as int, diff.z as int, VEC_MAX as int, VEC_MAX as int);
    }
    let rr: i128 = (diff.x as i128) * (diff.x as i128) + (diff.y as i128) * (diff.y as i128) + (
    diff.z as i128) * (diff.z as i128);
    if rr < 1 {
        return None;
    }
    let u = diff.unit();
    let outward = if radius < 0 {
        u.neg()
    } else {
        u
    };
    match material {
        Some(m) => Some(HitRecord::new_with_material(outward, r, t, point, m)),
        None => Some(HitRecord::new(outward, r, t, point)),
    }
}

/// The shared intersection arithmetic of both sphere kinds.
fn hit_core(
    center: Point3,
    radius: i64,
    material: Option<MaterialKind>,
    r: &Ray,
    t_min: i64,
    t_max: i64,
) -> (res: Option<HitRecord>)
    requires
        hit_query_ok(*r, t_min, t_max),
        sphere_geom_ok(center, radius),
        match material {
            Some(m) => m.wf_spec(),
            None => true,
        },
    ensures
        res == sphere_hit_core(center, radius, material, *r, t_min, t_max),
{
    let oc = r.origin.sub(center);
    proof {
        assert(oc == sph_oc(center, *r));
        lemma_rdot_bound(oc, oc, 0x200000000, 0x200000000);
        lemma_rdot_bound(oc, r.direction, 0x200000000, VEC_MAX as int);
        lemma_rdot_bound(r.direction, r.direction, VEC_MAX as int, VEC_MAX as int);
        lemma_fx_range(rdot(oc, r.direction), 0xC00000000000000);
        lemma_fx_range(rdot(oc, oc), 0xC000000000000);
        lemma_fx_range(rdot(r.direction, r.direction), 0x3000000000000000);
        lemma_abs_mul_le(radius as int, radius as int, RADIUS_MAX as int, RADIUS_MAX as int);
        lemma_fx_range((radius as int) * (radius as int), 0x10000000000);
        lemma_rdot_self_nonneg(oc);
        lemma_rdot_self_nonneg(r.direction);
        lemma_div_pos_is_pos(rdot(oc, oc), SCALE as int);
        lemma_div_pos_is_pos(rdot(r.direction, r.direction), SCALE as int);
        assert(0 <= (radius as int) * (radius as int)) by (nonlinear_arith);
        lemma_div_pos_is_pos((radius as int) * (radius as int), SCALE as int);
    }
    let a = r.direction.dot(r.direction);
    proof {
        lemma_div_is_ordered(SCALE as int, rdot(r.direction, r.direction), SCALE as int);
        vstd::arithmetic::div_mod::lemma_div_by_self(SCALE as int);
    }
    let half_b = oc.dot(r.direction);
    let c = oc.length_squared() - fx_mul(radius, radius);
    let hb128: i128 = half_b as i128;
    let a128: i128 = a as i128;
    let c128: i128 = c as i128;
    proof {
        lemma_abs_mul_le(hb128 as int, hb128 as int, 0xC00000000000000, 0xC00000000000000);
        lemma_abs_mul_le(a128 as int, c128 as int, 0x3000000000000000, 0xD000000000000);
        lemma_div_symm_bound((hb128 as int) * (hb128 as int),
            0x900000000000000000000000000, SCALE as int);
        lemma_div_symm_bound((a128 as int) * (c128 as int), 0x270000000000000000000000000,
            SCALE as int);
    }
    let disc: i128 = (hb128 * hb128).checked_div_euclid(65536).unwrap() - (a128 * c128)
        .checked_div_euclid(65536).unwrap();
    proof {
        assert(disc as int == sph_disc(center, radius, *r));
    }
    if disc > 0 {
        let sd: u128 = isqrt((disc as u128) * 65536);
        proof {
            assert((disc as u128) as int * 65536 == sph_disc(center, radius, *r) * (
            SCALE as int));
        }
        let sd128: i128 = sd as i128;
        proof {
            lemma_div_abs_shrinks((-(hb128 as int) - (sd128 as int)) * (SCALE as int),
                a128 as int);
        }
        let num1: i128 = (-hb128 - sd128) * 65536;
        let t1: i128 = num1.checked_div_euclid(a128).unwrap();
        proof {
            assert(t1 as int == sph_t1(center, radius, *r));
        }
        if t1 < t_max as i128 && t1 > t_min as i128 {
            let t = t1 as i64;
            return accept_root(center, radius, material, r, t);
        }
        proof {
            lemma_div_abs_shrinks((-(hb128 as int) + (sd128 as int)) * (SCALE as int),
                a128 as int);
        }
        let num2: i128 = (-hb128 + sd128) * 65536;
        let t2: i128 = num2.checked_div_euclid(a128).unwrap();
        proof {
            assert(t2 as int == sph_t2(center, radius, *r));
        }
        if t2 < t_max as i128 && t2 > t_min as i128 {
            let t = t2 as i64;
            return accept_root(center, radius, material, r, t);
        }
        return None;
    }
    None
}

impl Hittable for Sphere {
    open spec fn wf(&self) -> bool {
        sphere_geom_ok(self.center, self.radius) && self.material.wf_spec()
    }

    open spec fn hit_spec(&self, r: Ray, t_min: i64, t_max: i64) -> Option<HitRecord> {
        sphere_hit_spec(*self, r, t_min, t_max)
    }

    fn hit(&self, r: &Ray, t_min: i64, t_max: i64) -> (res: Option<HitRecord>)
        ensures
            res == self.hit_spec(*r, t_min, t_max),
    {
        hit_core(self.center, self.radius, Some(self.material), r, t_min, t_max)
    }
}

impl Hittable for SimpleSphere {
    open spec fn wf(&self) -> bool {
        sphere_geom_ok(self.center, self.radius)
    }

    open spec fn hit_spec(&self, r: Ray, t_min: i64, t_max: i64) -> Option<HitRecord> {
        sphere_hit_core(self.center, self.radius, None, r, t_min, t_max)
    }

    fn hit(&self, r: &Ray, t_min: i64, t_max: i64) -> (res: Option<HitRecord>)
        ensures
            res == self.hit_spec(*r, t_min, t_max),
    {
        hit_core(self.center, self.radius, None, r, t_min, t_max)
    }
}

} // verus!
