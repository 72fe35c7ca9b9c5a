//! The material model: diffuse, specular-with-roughness, and dielectric
//! refraction with the Schlick reflectance.
//!
//! Scattering consumes a pre-drawn `ScatterSample`, so each material's
//! `scatter` is a function of its inputs and carries an exact contract;
//! the integrator draws one fresh sample per bounce.

use vstd::prelude::*;
use crate::fixed::{
    SCALE, fx_mul, fx_mul_spec, fx_div, fx_div_spec, sqrt_fx, sqrt_floor, is_sqrt_floor, fmin,
    clamp, clamp_spec, lemma_fx_range, lemma_abs_mul_le,
};
use vstd::arithmetic::div_mod::{lemma_div_is_ordered, lemma_div_multiples_vanish};
use crate::vec3::{Vec3, bounded, in_range, rdot, dot_spec, unit_spec};
use crate::ray::Ray;
use crate::hittable::HitRecord;
use crate::utils::{
    reflect, reflect_spec, refract, refract_spec, schlick, schlick_spec, random_unit_vector,
    unit_sample_ok,
};
use crate::rng::rand01;
use crate::Color;

verus! {

/// Smallest refractive index the dielectric arithmetic accepts (1/16).
pub const ETA_MIN: i64 = 4096;

/// Largest refractive index the dielectric arithmetic accepts (16).
pub const ETA_MAX: i64 = 0x100000;

/// Every channel lies in `[0, 1]`.
pub open spec fn color01(c: Color) -> bool {
    &&& 0 <= c.x <= SCALE
    &&& 0 <= c.y <= SCALE
    &&& 0 <= c.z <= SCALE
}

/// The randomness one scattering decision consumes: a unit-ish direction
/// and a coin in `[0, 1)`.
#[derive(Clone, Copy, Debug)]
pub struct ScatterSample {
    pub unit: Vec3,
    pub coin: i64,
}

impl ScatterSample {
    pub open spec fn wf(&self) -> bool {
        &&& bounded(self.unit, SCALE as int)
        &&& 0 <= self.coin < SCALE
    }

    /// Draw the randomness for one scattering decision: a spherical
    /// sample and a uniform coin.
    pub fn draw() -> (s: Self)
        ensures
            s.wf(),
            unit_sample_ok(s.unit),
    {
        ScatterSample { unit: random_unit_vector(), coin: rand01() }
    }
}

/// What a constructor of each material kind establishes, spelled without
/// the trait so that records can carry it.
pub open spec fn material_kind_wf(m: MaterialKind) -> bool {
    match m {
        MaterialKind::Lambertian(l) => color01(l.albedo),
        MaterialKind::Metal(me) => color01(me.albedo) && 0 <= me.fuzz <= SCALE,
        MaterialKind::Dielectric(d) => ETA_MIN <= d.ref_idx <= ETA_MAX,
    }
}

/// What every scatter call assumes: a usable incoming direction, a
/// unit-ish surface normal, and a well-formed sample.
pub open spec fn scatter_input_ok(r_in: Ray, rec: HitRecord, samp: ScatterSample) -> bool {
    &&& in_range(r_in.direction)
    &&& rdot(r_in.direction, r_in.direction) >= SCALE
    &&& bounded(rec.normal, SCALE as int)
    &&& samp.wf()
}

/// The scattering capability: an outgoing ray and an attenuation, or
/// absorption.
pub trait Material {
    /// What the material's constructor established.
    spec fn wf_spec(&self) -> bool;

    /// The outcome of `scatter`, as a function of its inputs.
    spec fn scatter_spec(&self, r_in: Ray, rec: HitRecord, samp: ScatterSample) -> Option<
        (Ray, Color),
    >;

    fn scatter(&self, r_in: &Ray, rec: &HitRecord, samp: &ScatterSample) -> (res: Option<
        (Ray, Color),
    >)
        requires
            self.wf_spec(),
            rec.wf(),
            scatter_input_ok(*r_in, *rec, *samp),
        ensures
            res == self.scatter_spec(*r_in, *rec, *samp),
    ;
}

/// A diffuse surface.
#[derive(Clone, Copy, Debug)]
pub struct Lambertian {
    pub albedo: Color,
}

impl Lambertian {
    pub fn new(albedo: Color) -> (m: Self)
        requires
            color01(albedo),
        ensures
            m.albedo == albedo,
            m.wf_spec(),
    {
        Self { albedo }
    }
}

/// A diffuse bounce: the outgoing direction is the normal plus the drawn
/// unit vector, the attenuation is the albedo, and nothing is absorbed.
pub open spec fn lambertian_scatter_spec(m: Lambertian, rec: HitRecord, samp: ScatterSample)
    -> Option<(Ray, Color)> {
    let direction = Vec3 {
        x: (rec.normal.x + samp.unit.x) as i64,
        y: (rec.normal.y + samp.unit.y) as i64,
        z: (rec.normal.z + samp.unit.z) as i64,
    };
    Some((Ray { origin: rec.point, direction }, m.albedo))
}

impl Material for Lambertian {
    open spec fn wf_spec(&self) -> bool {
        color01(self.albedo)
    }

    open spec fn scatter_spec(&self, r_in: Ray, rec: HitRecord, samp: ScatterSample) -> Option<
        (Ray, Color),
    > {
        lambertian_scatter_spec(*self, rec, samp)
    }

    /// Never absorbs: every diffuse hit scatters.
    fn scatter(&self, r_in: &Ray, rec: &HitRecord, samp: &ScatterSample) -> (res: Option<
        (Ray, Color),
    >)
        ensures
            res == self.scatter_spec(*r_in, *rec, *samp),
            res.is_some(),
    {
        let scatter_direction = rec.normal.add(samp.unit);
        let scattered = Ray::new(rec.point, scatter_direction);
        Some((scattered, self.albedo))
    }
}

/// A reflective surface with a roughness factor.
#[derive(Clone, Copy, Debug)]
pub struct Metal {
    pub albedo: Color,
    pub fuzz: i64,
}

impl Metal {
    /// The roughness is forced into `[0, 1]`.
    pub fn new(albedo: Color, fuzz: i64) -> (m: Self)
        requires
            color01(albedo),
        ensures
            m.albedo == albedo,
            m.fuzz == clamp_spec(fuzz as int, 0, SCALE as int),
            m.wf_spec(),
    {
        let fuzz = clamp(fuzz, 0, SCALE);
        Self { albedo, fuzz }
    }
}

/// A specular bounce: the incoming direction is normalized, mirrored
/// about the normal, and perturbed by the drawn vector scaled with the
/// roughness; a direction that does not leave the surface is absorbed.
pub open spec fn metal_scatter_spec(m: Metal, r_in: Ray, rec: HitRecord, samp: ScatterSample)
    -> Option<(Ray, Color)> {
    let reflected = reflect_spec(unit_spec(r_in.direction), rec.normal);
    let direction = Vec3 {
        x: (reflected.x + fx_mul_spec(samp.unit.x as int, m.fuzz as int)) as i64,
        y: (reflected.y + fx_mul_spec(samp.unit.y as int, m.fuzz as int)) as i64,
        z: (reflected.z + fx_mul_spec(samp.unit.z as int, m.fuzz as int)) as i64,
    };
    if dot_spec(direction, rec.normal) > 0 {
        Some((Ray { origin: rec.point, direction }, m.albedo))
    } else {
        None
    }
}

impl Material for Metal {
    open spec fn wf_spec(&self) -> bool {
        color01(self.albedo) && 0 <= self.fuzz <= SCALE
    }

    open spec fn scatter_spec(&self, r_in: Ray, rec: HitRecord, samp: ScatterSample) -> Option<
        (Ray, Color),
    > {
        metal_scatter_spec(*self, r_in, rec, samp)
    }

    /// With no roughness the outgoing direction is exactly the mirror
    /// reflection of the normalized incoming direction.
    fn scatter(&self, r_in: &Ray, rec: &HitRecord, samp: &ScatterSample) -> (res: Option<
        (Ray, Color),
    >)
        ensures
            res == self.scatter_spec(*r_in, *rec, *samp),
            self.fuzz == 0 && res.is_some() ==> res.unwrap().0.direction == reflect_spec(
                unit_spec(r_in.direction), rec.normal),
    {
        let reflected = reflect(r_in.direction.unit(), rec.normal);
        proof {
            lemma_abs_mul_le(samp.unit.x as int, self.fuzz as int, SCALE as int, SCALE as int);
            lemma_abs_mul_le(samp.unit.y as int, self.fuzz as int, SCALE as int, SCALE as int);
            lemma_abs_mul_le(samp.unit.z as int, self.fuzz as int, SCALE as int, SCALE as int);
            lemma_fx_range((samp.unit.x as int) * (self.fuzz as int), SCALE as int);
            lemma_fx_range((samp.unit.y as int) * (self.fuzz as int), SCALE as int);
            lemma_fx_range((samp.unit.z as int) * (self.fuzz as int), SCALE as int);
        }
        let fuzzed = samp.unit.scale(self.fuzz);
        let direction = reflected.add(fuzzed);
        proof {
            if self.fuzz == 0 {
                vstd::arithmetic::mul::lemma_mul_by_zero_is_zero(samp.unit.x as int);
                vstd::arithmetic::mul::lemma_mul_by_zero_is_zero(samp.unit.y as int);
                vstd::arithmetic::mul::lemma_mul_by_zero_is_zero(samp.unit.z as int);
                vstd::arithmetic::div_mod::lemma_div_of0(SCALE as int);
                assert(fuzzed.x == 0 && fuzzed.y == 0 && fuzzed.z == 0);
                assert(direction == reflected);
            }
        }
        let scattered = Ray::new(rec.point, direction);
        let is_scattered = scattered.direction.dot(rec.normal) > 0;
        if is_scattered {
            Some((scattered, self.albedo))
        } else {
            None
        }
    }
}

/// A clear refractive surface.
#[derive(Clone, Copy, Debug)]
pub struct Dielectric {
    pub ref_idx: i64,
}

impl Dielectric {
    pub fn new(ref_idx: i64) -> (m: Self)
        requires
            ETA_MIN <= ref_idx <= ETA_MAX,
        ensures
            m.ref_idx == ref_idx,
            m.wf_spec(),
    {
        Self { ref_idx }
    }
}

/// The ratio of refractive indices the refraction uses: the reciprocal
/// when the ray enters from outside, the index itself when it exits.
pub open spec fn dielectric_eta(m: Dielectric, rec: HitRecord) -> int {
    if rec.is_front_face {
        fx_div_spec(SCALE as int, m.ref_idx as int)
    } else {
        m.ref_idx as int
    }
}

/// A dielectric bounce: always white attenuation; reflect on total
/// internal reflection, reflect with the Schlick probability against the
/// drawn coin, refract otherwise.  Never absorbs.
pub open spec fn dielectric_scatter_spec(
    m: Dielectric,
    r_in: Ray,
    rec: HitRecord,
    samp: ScatterSample,
) -> Option<(Ray, Color)> {
    let attenuation = Vec3 { x: SCALE, y: SCALE, z: SCALE };
    let eta = dielectric_eta(m, rec);
    let ray_unit = unit_spec(r_in.direction);
    let cos0 = -dot_spec(ray_unit, rec.normal);
    let cos_theta = if cos0 < SCALE {
        cos0
    } else {
        SCALE as int
    };
    let sin2 = (SCALE as int) - fx_mul_spec(cos_theta, cos_theta);
    let sin_theta = sqrt_floor((if sin2 < 0 {
        0
    } else {
        sin2
    }) * (SCALE as int));
    if fx_mul_spec(eta, sin_theta) > SCALE {
        Some((Ray { origin: rec.point, direction: reflect_spec(ray_unit, rec.normal) },
            attenuation))
    } else if (samp.coin as int) < schlick_spec(cos_theta, eta) {
        Some((Ray { origin: rec.point, direction: reflect_spec(ray_unit, rec.normal) },
            attenuation))
    } else {
        Some((Ray { origin: rec.point, direction: refract_spec(ray_unit, rec.normal, eta) },
            attenuation))
    }
}

impl Material for Dielectric {
    open spec fn wf_spec(&self) -> bool {
        ETA_MIN <= self.ref_idx <= ETA_MAX
    }

    open spec fn scatter_spec(&self, r_in: Ray, rec: HitRecord, samp: ScatterSample) -> Option<
        (Ray, Color),
    > {
        dielectric_scatter_spec(*self, r_in, rec, samp)
    }

    /// Never absorbs: the outcome is always a reflected or refracted ray.
    fn scatter(&self, r_in: &Ray, rec: &HitRecord, samp: &ScatterSample) -> (res: Option<
        (Ray, Color),
    >)
        ensures
            res == self.scatter_spec(*r_in, *rec, *samp),
            res.is_some(),
    {
        let attenuation = Vec3 { x: SCALE, y: SCALE, z: SCALE };
        let etai_over_etat = if rec.is_front_face {
            proof {
                lemma_div_is_ordered(4294967296, 1048576 * (self.ref_idx as int),
                    self.ref_idx as int);
                lemma_div_is_ordered(4096 * (self.ref_idx as int), 4294967296,
                    self.ref_idx as int);
                lemma_div_multiples_vanish(1048576, self.ref_idx as int);
                lemma_div_multiples_vanish(4096, self.ref_idx as int);
                assert(1048576 * (self.ref_idx as int) == (self.ref_idx as int) * 1048576)
                    by (nonlinear_arith);
                assert(4096 * (self.ref_idx as int) == (self.ref_idx as int) * 4096)
                    by (nonlinear_arith);
                assert(4096 * (self.ref_idx as int) <= 4294967296 <= 1048576 * (
                self.ref_idx as int));
            }
            fx_div(SCALE, self.ref_idx)
        } else {
            self.ref_idx
        };
        let ray_unit = r_in.direction.unit();
        proof {
            crate::vec3::lemma_rdot_bound(ray_unit, rec.normal, SCALE as int, SCALE as int);
            lemma_fx_range(rdot(ray_unit, rec.normal), 196608);
        }
        let cos_theta = fmin(-ray_unit.dot(rec.normal), SCALE);
        proof {
            lemma_abs_mul_le(cos_theta as int, cos_theta as int, 196608, 196608);
            lemma_fx_range((cos_theta as int) * (cos_theta as int), 589824);
            assert(0 <= (cos_theta as int) * (cos_theta as int)) by (nonlinear_arith);
            vstd::arithmetic::div_mod::lemma_div_pos_is_pos(
                (cos_theta as int) * (cos_theta as int), SCALE as int);
        }
        let zz = fx_mul(cos_theta, cos_theta);
        let sin2 = SCALE - zz;
        let s2 = if sin2 < 0 {
            0
        } else {
            sin2
        };
        let sin_theta = sqrt_fx(s2);
        proof {
            assert(sin_theta as int <= SCALE as int) by (nonlinear_arith)
                requires
                    is_sqrt_floor((s2 as int) * (SCALE as int), sin_theta as int),
                    0 <= s2 <= SCALE,
                    SCALE == 65536;
            lemma_abs_mul_le(etai_over_etat as int, sin_theta as int, 1048576, 65536);
            lemma_fx_range((etai_over_etat as int) * (sin_theta as int), 1048576);
        }
        // Total internal reflection
        if fx_mul(etai_over_etat, sin_theta) > SCALE {
            let reflected = reflect(ray_unit, rec.normal);
            let scattered = Ray::new(rec.point, reflected);
            return Some((scattered, attenuation));
        }
        // Glancing reflection
        let reflect_prob = schlick(cos_theta, etai_over_etat);
        if samp.coin < reflect_prob {
            let reflected = reflect(ray_unit, rec.normal);
            let scattered = Ray::new(rec.point, reflected);
            return Some((scattered, attenuation));
        }
        // Refraction
        let refracted = refract(ray_unit, rec.normal, etai_over_etat);
        let scattered = Ray::new(rec.point, refracted);
        Some((scattered, attenuation))
    }
}

/// The closed set of materials a scene can hold; scattering dispatches on
/// the variant.
#[derive(Clone, Copy, Debug)]
pub enum MaterialKind {
    Lambertian(Lambertian),
    Metal(Metal),
    Dielectric(Dielectric),
}

impl Material for MaterialKind {
    open spec fn wf_spec(&self) -> bool {
        material_kind_wf(*self)
    }

    open spec fn scatter_spec(&self, r_in: Ray, rec: HitRecord, samp: ScatterSample) -> Option<
        (Ray, Color),
    > {
        match *self {
            MaterialKind::Lambertian(m) => m.scatter_spec(r_in, rec, samp),
            MaterialKind::Metal(m) => m.scatter_spec(r_in, rec, samp),
            MaterialKind::Dielectric(m) => m.scatter_spec(r_in, rec, samp),
        }
    }

    fn scatter(&self, r_in: &Ray, rec: &HitRecord, samp: &ScatterSample) -> (res: Option<
        (Ray, Color),
    >)
        ensures
            res == self.scatter_spec(*r_in, *rec, *samp),
    {
        match self {
            MaterialKind::Lambertian(m) => m.scatter(r_in, rec, samp),
            MaterialKind::Metal(m) => m.scatter(r_in, rec, samp),
            MaterialKind::Dielectric(m) => m.scatter(r_in, rec, samp),
        }
    }
}

} // verus!
