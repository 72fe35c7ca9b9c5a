//! The thin-lens camera: an orthonormal-ish basis derived once, and a ray
//! per normalized viewport coordinate, with optional depth of field.

use vstd::prelude::*;
use crate::fixed::{
    SCALE, TAN_MAX, fx_mul, fx_mul_spec, fx_div_spec, fp_tan, tan_spec, lemma_fx_range,
    lemma_abs_mul_le,
};
use crate::vec3::{
    Vec3, bounded, in_range, rdot, vec_in_range, unit_spec, sub_spec, scale_spec, div_by_spec,
    cross_spec,
};
use crate::ray::Ray;
use crate::hittable::WORLD_MAX;
use crate::utils::{random_in_unit_disk, disk_sample_ok, disk_sample_spec};
use crate::{Point3};

verus! {

/// Largest coordinate magnitude of the camera's anchor points.
pub const CAM_MAX: i64 = 0x80000000;

/// One radian-per-degree, at scale.
pub const RAD_PER_DEG: i64 = 1144;

/// Largest vertical field of view accepted, in scaled degrees.
pub const VFOV_MAX: i64 = 179 * 65536;

/// Largest aspect ratio accepted (16).
pub const ASPECT_MAX: i64 = 0x40000;

/// Largest focus distance accepted.
pub const FOCUS_MAX: i64 = 0x4000000;

/// Largest aperture accepted.
pub const APERTURE_MAX: i64 = 0x100000;

/// The viewport height the construction derives from the vertical field
/// of view: twice the tangent of half the angle.
pub open spec fn camera_viewport_height(vfov_deg: int) -> int {
    2 * tan_spec(fx_mul_spec(vfov_deg, RAD_PER_DEG as int) / 2)
}

/// The viewport width: the aspect ratio times the height.
pub open spec fn camera_viewport_width(vfov_deg: int, aspect_ratio: int) -> int {
    fx_mul_spec(aspect_ratio, camera_viewport_height(vfov_deg))
}

/// The unit vector of `v`, or the x axis when `v` is out of range or
/// degenerate: what `safe_unit` computes.
pub open spec fn safe_unit_spec(v: Vec3) -> Vec3 {
    if !in_range(v) || rdot(v, v) < 1 {
        Vec3 { x: SCALE, y: 0i64, z: 0i64 }
    } else {
        unit_spec(v)
    }
}

/// Everything the shared construction fixes about the camera: the basis
/// derived from the anchor points and up vector, the viewport spans
/// pushed to the focus distance, and the lower-left corner.
pub open spec fn camera_built(
    c: Camera,
    look_from: Point3,
    look_at: Point3,
    vup: Vec3,
    vfov_deg: int,
    aspect_ratio: int,
    focus_dist: int,
    aperture: int,
) -> bool {
    &&& c.origin == look_from
    &&& c.lens_radius == aperture / 2
    &&& c.w == unit_spec(sub_spec(look_from, look_at))
    &&& c.u == safe_unit_spec(cross_spec(vup, c.w))
    &&& c.v == cross_spec(c.w, c.u)
    &&& c.horizontal == scale_spec(c.u, fx_mul_spec(focus_dist, camera_viewport_width(vfov_deg,
        aspect_ratio)))
    &&& c.vertical == scale_spec(c.v, fx_mul_spec(focus_dist, camera_viewport_height(vfov_deg)))
    &&& c.lower_left_corner == sub_spec(
        sub_spec(
            sub_spec(look_from, div_by_spec(c.horizontal, 2 * (SCALE as int))),
            div_by_spec(c.vertical, 2 * (SCALE as int)),
        ),
        scale_spec(c.w, focus_dist),
    )
}

pub struct Camera {
    pub origin: Point3,
    pub u: Vec3,
    pub v: Vec3,
    pub w: Vec3,
    pub lower_left_corner: Point3,
    pub horizontal: Vec3,
    pub vertical: Vec3,
    pub lens_radius: i64,
}

impl Camera {
    /// The coordinate ranges every camera keeps, which make each generated
    /// ray acceptable to the hit queries.
    pub open spec fn wf(&self) -> bool {
        &&& bounded(self.origin, CAM_MAX as int)
        &&& bounded(self.u, SCALE as int)
        &&& bounded(self.v, 3 * (SCALE as int))
        &&& bounded(self.w, SCALE as int)
        &&& bounded(self.horizontal, 0x800000000)
        &&& bounded(self.vertical, 0x800000000)
        &&& bounded(self.lower_left_corner, 0x1100000000)
        &&& 0 <= self.lens_radius <= 0x80000
    }

    /// The axis-aligned default camera: a two-unit-high viewport one unit
    /// in front of the origin, no depth of field.
    pub fn default() -> (c: Self)
        ensures
            c.wf(),
            c.lens_radius == 0,
            c.origin == (Vec3 { x: 0i64, y: 0i64, z: 0i64 }),
            c.horizontal == (Vec3 { x: 233016i64, y: 0i64, z: 0i64 }),
            c.vertical == (Vec3 { x: 0i64, y: 131072i64, z: 0i64 }),
            c.lower_left_corner == (Vec3 { x: -116508i64, y: -65536i64, z: -65536i64 }),
            c.u == (Vec3 { x: 0i64, y: 0i64, z: 0i64 }),
            c.v == (Vec3 { x: 0i64, y: 0i64, z: 0i64 }),
            c.w == (Vec3 { x: 0i64, y: 0i64, z: 0i64 }),
    {
        let origin = Vec3 { x: 0, y: 0, z: 0 };
        let horizontal = Vec3 { x: 233016, y: 0, z: 0 };
        let vertical = Vec3 { x: 0, y: 2 * SCALE, z: 0 };
        let lower_left_corner = Vec3 { x: -116508, y: -SCALE, z: -SCALE };
        Self {
            origin,
            lower_left_corner,
            horizontal,
            vertical,
            u: Vec3 { x: 0, y: 0, z: 0 },
            v: Vec3 { x: 0, y: 0, z: 0 },
            w: Vec3 { x: 0, y: 0, z: 0 },
            lens_radius: 0,
        }
    }

    /// A camera without depth of field.
    pub fn new(look_from: Point3, look_at: Point3, vup: Vec3, vfov_deg: i64, aspect_ratio: i64)
        -> (c: Self)
        requires
            bounded(look_from, CAM_MAX as int),
            bounded(look_at, CAM_MAX as int),
            rdot(
                Vec3 {
                    x: (look_from.x - look_at.x) as i64,
                    y: (look_from.y - look_at.y) as i64,
                    z: (look_from.z - look_at.z) as i64,
                },
                Vec3 {
                    x: (look_from.x - look_at.x) as i64,
                    y: (look_from.y - look_at.y) as i64,
                    z: (look_from.z - look_at.z) as i64,
                },
            ) >= 1,
            in_range(vup),
            0 < vfov_deg <= VFOV_MAX,
            0 < aspect_ratio <= ASPECT_MAX,
        ensures
            c.wf(),
            c.lens_radius == 0,
            camera_built(c, look_from, look_at, vup, vfov_deg as int, aspect_ratio as int,
                SCALE as int, 0),
    {
        Self::build(look_from, look_at, vup, vfov_deg, aspect_ratio, SCALE, 0)
    }

    /// A camera with a thin lens: the viewport is pushed to the focal
    /// plane and rays start from a disk of half the aperture.
    pub fn new_with_depth_of_field(
        look_from: Point3,
        look_at: Point3,
        vup: Vec3,
        vfov_deg: i64,
        aspect_ratio: i64,
        aperture: i64,
        focus_dist: i64,
    ) -> (c: Self)
        requires
            bounded(look_from, CAM_MAX as int),
            bounded(look_at, CAM_MAX as int),
            rdot(
                Vec3 {
                    x: (look_from.x - look_at.x) as i64,
                    y: (look_from.y - look_at.y) as i64,
                    z: (look_from.z - look_at.z) as i64,
                },
                Vec3 {
                    x: (look_from.x - look_at.x) as i64,
                    y: (look_from.y - look_at.y) as i64,
                    z: (look_from.z - look_at.z) as i64,
                },
            ) >= 1,
            in_range(vup),
            0 < vfov_deg <= VFOV_MAX,
            0 < aspect_ratio <= ASPECT_MAX,
            0 <= aperture <= APERTURE_MAX,
            0 < focus_dist <= FOCUS_MAX,
        ensures
            c.wf(),
            camera_built(c, look_from, look_at, vup, vfov_deg as int, aspect_ratio as int,
                focus_dist as int, aperture as int),
    {
        Self::build(look_from, look_at, vup, vfov_deg, aspect_ratio, focus_dist, aperture)
    }

    /// The shared construction: basis, viewport, and lens.
    fn build(
        look_from: Point3,
        look_at: Point3,
        vup: Vec3,
        vfov_deg: i64,
        aspect_ratio: i64,
        focus_dist: i64,
        aperture: i64,
    ) -> (c: Self)
        requires
            bounded(look_from, CAM_MAX as int),
            bounded(look_at, CAM_MAX as int),
            rdot(
                Vec3 {
                    x: (look_from.x - look_at.x) as i64,
                    y: (look_from.y - look_at.y) as i64,
                    z: (look_from.z - look_at.z) as i64,
                },
                Vec3 {
                    x: (look_from.x - look_at.x) as i64,
                    y: (look_from.y - look_at.y) as i64,
                    z: (look_from.z - look_at.z) as i64,
                },
            ) >= 1,
            in_range(vup),
            0 < vfov_deg <= VFOV_MAX,
            0 < aspect_ratio <= ASPECT_MAX,
            0 <= aperture <= APERTURE_MAX,
            0 < focus_dist <= FOCUS_MAX,
        ensures
            c.wf(),
            camera_built(c, look_from, look_at, vup, vfov_deg as int, aspect_ratio as int,
                focus_dist as int, aperture as int),
    {
        proof {
            lemma_abs_mul_le(vfov_deg as int, RAD_PER_DEG as int, VFOV_MAX as int, 1144);
            lemma_fx_range((vfov_deg as int) * (RAD_PER_DEG as int), 204776);
        }
        let vfov = fx_mul(vfov_deg, RAD_PER_DEG);
        proof {
            crate::fixed::lemma_div_abs_shrinks(vfov as int, 2);
        }
        let half = vfov.checked_div_euclid(2).unwrap();
        let h = fp_tan(half);
        let viewport_height: i64 = 2 * h;
        proof {
            lemma_abs_mul_le(aspect_ratio as int, viewport_height as int, ASPECT_MAX as int,
                2 * (TAN_MAX as int));
            lemma_fx_range((aspect_ratio as int) * (viewport_height as int), 0x2000000);
        }
        let viewport_width = fx_mul(aspect_ratio, viewport_height);

        let delta = look_from.sub(look_at);
        let w = delta.unit();
        let cu = vup.cross(&w);
        let u = safe_unit(cu);
        proof {
            crate::vec3::lemma_cross_comp_bound(w, u, SCALE as int, SCALE as int, SCALE as int);
        }
        let v = w.cross(&u);

        let origin = look_from;
        proof {
            lemma_abs_mul_le(focus_dist as int, viewport_width as int, FOCUS_MAX as int,
                0x2000000);
            lemma_fx_range((focus_dist as int) * (viewport_width as int), 0x800000000);
            lemma_abs_mul_le(focus_dist as int, viewport_height as int, FOCUS_MAX as int,
                0x800000);
            lemma_fx_range((focus_dist as int) * (viewport_height as int), 0x200000000);
        }
        let span_w = fx_mul(focus_dist, viewport_width);
        let span_h = fx_mul(focus_dist, viewport_height);
        proof {
            lemma_scale_bound(u, span_w, SCALE as int, 0x800000000, 0x800000000);
            lemma_scale_bound(v, span_h, 3 * (SCALE as int), 0x200000000, 0x600000000);
            lemma_scale_bound(w, focus_dist, SCALE as int, FOCUS_MAX as int, FOCUS_MAX as int);
        }
        let horizontal = u.scale(span_w);
        let vertical = v.scale(span_h);
        let fw = w.scale(focus_dist);
        proof {
            lemma_half_bound(horizontal.x as int, 0x800000000);
            lemma_half_bound(horizontal.y as int, 0x800000000);
            lemma_half_bound(horizontal.z as int, 0x800000000);
            lemma_half_bound(vertical.x as int, 0x800000000);
            lemma_half_bound(vertical.y as int, 0x800000000);
            lemma_half_bound(vertical.z as int, 0x800000000);
        }
        let lower_left_corner = origin.sub(horizontal.div_by(2 * SCALE)).sub(vertical.div_by(
            2 * SCALE)).sub(fw);
        Self {
            origin,
            lower_left_corner,
            horizontal,
            vertical,
            u,
            v,
            w,
            lens_radius: aperture.checked_div_euclid(2).unwrap(),
        }
    }

    /// The ray through viewport coordinates `(s, t)`; with a lens, its
    /// origin is jittered across the lens disk.
    pub fn get_ray(&self, s: i64, t: i64) -> (r: Ray)
        requires
            self.wf(),
            0 <= s <= 2 * SCALE,
            0 <= t <= 2 * SCALE,
        ensures
            bounded(r.origin, WORLD_MAX as int),
            in_range(r.direction),
            exists|d: Vec3|
                bounded(d, SCALE as int) && disk_sample_ok(d) && r == get_ray_spec(*self,
                    s as int, t as int, d),
    {
        proof {
            lemma_scale_bound(self.horizontal, s, 0x800000000, 2 * (SCALE as int),
                0x1000000000);
            lemma_scale_bound(self.vertical, t, 0x800000000, 2 * (SCALE as int), 0x1000000000);
        }
        let sh = self.horizontal.scale(s);
        let tv = self.vertical.scale(t);
        if self.lens_radius > 0 {
            let disk = random_in_unit_disk();
            proof {
                lemma_scale_bound(disk, self.lens_radius, SCALE as int, 0x80000, 0x80000);
            }
            let rd = disk.scale(self.lens_radius);
            proof {
                lemma_scale_bound(self.u, rd.x, SCALE as int, 0x80000, 0x80000);
                lemma_scale_bound(self.v, rd.y, 3 * (SCALE as int), 0x80000, 0x180000);
            }
            let offset = self.u.scale(rd.x).add(self.v.scale(rd.y));
            let r = Ray::new(
                self.origin.add(offset),
                self.lower_left_corner.add(sh).add(tv).sub(self.origin).sub(offset),
            );
            proof {
                assert(bounded(disk, SCALE as int) && disk_sample_ok(disk) && r == get_ray_spec(
                    *self, s as int, t as int, disk));
            }
            r
        } else {
            let r = Ray::new(
                self.origin,
                self.lower_left_corner.add(sh).add(tv).sub(self.origin),
            );
            proof {
                let d0 = Vec3 { x: 0i64, y: 0i64, z: 0i64 };
                crate::fixed::lemma_sqrt_floor_exists(0);
                assert(crate::fixed::is_sqrt_floor(0, 0)) by (nonlinear_arith);
                crate::fixed::lemma_sqrt_floor_unique(0, 0, crate::fixed::sqrt_floor(0));
                vstd::arithmetic::mul::lemma_mul_by_zero_is_zero(
                    crate::fixed::cos_spec(0));
                vstd::arithmetic::mul::lemma_mul_by_zero_is_zero(
                    crate::fixed::sin_spec(0));
                vstd::arithmetic::div_mod::lemma_div_of0(SCALE as int);
                assert(d0 == disk_sample_spec(0, 0));
                assert(disk_sample_ok(d0));
                assert(bounded(d0, SCALE as int) && r == get_ray_spec(*self, s as int, t as int,
                    d0));
            }
            r
        }
    }
}

/// The ray `get_ray` builds, as a function of the camera, the viewport
/// coordinates and the drawn lens-disk point (ignored without a lens).
pub open spec fn get_ray_spec(cam: Camera, s: int, t: int, d: Vec3) -> Ray {
    let shx = fx_mul_spec(cam.horizontal.x as int, s);
    let shy = fx_mul_spec(cam.horizontal.y as int, s);
    let shz = fx_mul_spec(cam.horizontal.z as int, s);
    let tvx = fx_mul_spec(cam.vertical.x as int, t);
    let tvy = fx_mul_spec(cam.vertical.y as int, t);
    let tvz = fx_mul_spec(cam.vertical.z as int, t);
    if cam.lens_radius > 0 {
        let rdx = fx_mul_spec(d.x as int, cam.lens_radius as int);
        let rdy = fx_mul_spec(d.y as int, cam.lens_radius as int);
        let ox = fx_mul_spec(cam.u.x as int, rdx) + fx_mul_spec(cam.v.x as int, rdy);
        let oy = fx_mul_spec(cam.u.y as int, rdx) + fx_mul_spec(cam.v.y as int, rdy);
        let oz = fx_mul_spec(cam.u.z as int, rdx) + fx_mul_spec(cam.v.z as int, rdy);
        Ray {
            origin: Vec3 {
                x: (cam.origin.x + ox) as i64,
                y: (cam.origin.y + oy) as i64,
                z: (cam.origin.z + oz) as i64,
            },
            direction: Vec3 {
                x: (cam.lower_left_corner.x + shx + tvx - cam.origin.x - ox) as i64,
                y: (cam.lower_left_corner.y + shy + tvy - cam.origin.y - oy) as i64,
                z: (cam.lower_left_corner.z + shz + tvz - cam.origin.z - oz) as i64,
            },
        }
    } else {
        Ray {
            origin: cam.origin,
            direction: Vec3 {
                x: (cam.lower_left_corner.x + shx + tvx - cam.origin.x) as i64,
                y: (cam.lower_left_corner.y + shy + tvy - cam.origin.y) as i64,
                z: (cam.lower_left_corner.z + shz + tvz - cam.origin.z) as i64,
            },
        }
    }
}

/// The unit vector of `v`, or the x axis when `v` is degenerate (a
/// parallel up vector); keeps construction total.
fn safe_unit(v: Vec3) -> (r: Vec3)
    ensures
        bounded(r, SCALE as int),
        r == safe_unit_spec(v),
{
    if !vec_in_range(&v) {
        return Vec3 { x: SCALE, y: 0, z: 0 };
    }
    proof {
        crate::fixed::lemma_abs_mul_le(v.x as int, v.x as int, crate::vec3::VEC_MAX as int,
            crate::vec3::VEC_MAX as int);
        crate::fixed::lemma_abs_mul_le(v.y as int, v.y as int, crate::vec3::VEC_MAX as int,
            crate::vec3::VEC_MAX as int);
        crate::fixed::lemma_abs_mul_le(v.z as int, v.z as int, crate::vec3::VEC_MAX as int,
            crate::vec3::VEC_MAX as int);
    }
    let rr: i128 = (v.x as i128) * (v.x as i128) + (v.y as i128) * (v.y as i128) + (v.z as i128)
        * (v.z as i128);
    if rr < 1 {
        return Vec3 { x: SCALE, y: 0, z: 0 };
    }
    v.unit()
}

/// Bounded inputs give the componentwise scaling a bounded result:
/// `mfx` bounds the scaled components, where the products stay within
/// `mfx` times the scale.
proof fn lemma_scale_bound(v: Vec3, k: i64, mv: int, mk: int, mfx: int)
    requires
        bounded(v, mv),
        -mk <= k <= mk,
        0 <= mv,
        0 <= mk,
        0 <= mfx <= 0x7fffffffffffffff,
        mv * mk <= mfx * 65536,
    ensures
        -(mfx * 65536) <= v.x * k <= mfx * 65536,
        -(mfx * 65536) <= v.y * k <= mfx * 65536,
        -(mfx * 65536) <= v.z * k <= mfx * 65536,
        -mfx <= fx_mul_spec(v.x as int, k as int) <= mfx,
        -mfx <= fx_mul_spec(v.y as int, k as int) <= mfx,
        -mfx <= fx_mul_spec(v.z as int, k as int) <= mfx,
{
    lemma_abs_mul_le(v.x as int, k as int, mv, mk);
    lemma_abs_mul_le(v.y as int, k as int, mv, mk);
    lemma_abs_mul_le(v.z as int, k as int, mv, mk);
    crate::fixed::lemma_div_symm_bound((v.x as int) * (k as int), mfx, 65536);
    crate::fixed::lemma_div_symm_bound((v.y as int) * (k as int), mfx, 65536);
    crate::fixed::lemma_div_symm_bound((v.z as int) * (k as int), mfx, 65536);
}

/// Halving by the fixed-point divide keeps a symmetric bound.
proof fn lemma_half_bound(c: int, m: int)
    requires
        0 <= m <= 0x7fffffffffffffff,
        -m <= c <= m,
    ensures
        -m <= fx_div_spec(c, 2 * (SCALE as int)) <= m,
{
    lemma_abs_mul_le(c, SCALE as int, m, SCALE as int);
    crate::fixed::lemma_div_symm_bound(c * (SCALE as int), m, 2 * (SCALE as int));
    assert(m * (SCALE as int) <= m * (2 * (SCALE as int))) by (nonlinear_arith)
        requires
            0 <= m,
            SCALE == 65536;
}

} // verus!
