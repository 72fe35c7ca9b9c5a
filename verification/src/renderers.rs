//! The path integrator and the renderers: a sequential scan-order
//! renderer, the per-pixel sampling shared with the parallel driver, and
//! the order-independent assembly of pixel triples into an image.

use vstd::prelude::*;
use vstd::pervasive::VecAdditionalExecFns;
use crate::fixed::{
    SCALE, fx_mul, fx_mul_spec, lemma_abs_mul_le, lemma_div_abs_shrinks, lemma_div_symm_bound,
};
use vstd::arithmetic::div_mod::{
    lemma_div_is_ordered, lemma_div_multiples_vanish, lemma_div_pos_is_pos,
};
use crate::vec3::{Vec3, add_spec, bounded, in_range, rdot, unit_spec, vec_in_range,
    gamma2_byte_of};
use crate::ray::Ray;
use crate::hittable::{Hittable, HitRecord, HittableList, T_EPS, T_MAX, WORLD_MAX, list_hit_loop};
use crate::sphere::{Sphere, sphere_hit_spec, lemma_sph_rec_wf};
use crate::materials::{Material, MaterialKind, ScatterSample, color01, material_kind_wf};
use crate::utils::unit_sample_ok;
use crate::camera::{Camera, get_ray_spec};
use crate::Color;

verus! {

/// No radiance: the colour of an exhausted or absorbed path.
pub open spec fn black() -> Color {
    Vec3 { x: 0i64, y: 0i64, z: 0i64 }
}

/// What the integrator needs of a ray before it can trace it; a ray
/// failing this contributes no radiance.
pub open spec fn ray_ok(r: Ray) -> bool {
    &&& bounded(r.origin, WORLD_MAX as int)
    &&& in_range(r.direction)
    &&& rdot(r.direction, r.direction) >= SCALE
}

/// Decide `ray_ok` at run time.
fn ray_ok_check(r: &Ray) -> (b: bool)
    ensures
        b == ray_ok(*r),
{
    let o = &r.origin;
    if !(-WORLD_MAX <= o.x && o.x <= WORLD_MAX && -WORLD_MAX <= o.y && o.y <= WORLD_MAX
        && -WORLD_MAX <= o.z && o.z <= WORLD_MAX) {
        return false;
    }
    if !vec_in_range(&r.direction) {
        return false;
    }
    proof {
        lemma_abs_mul_le(r.direction.x as int, r.direction.x as int,
            crate::vec3::VEC_MAX as int, crate::vec3::VEC_MAX as int);
        lemma_abs_mul_le(r.direction.y as int, r.direction.y as int,
            crate::vec3::VEC_MAX as int, crate::vec3::VEC_MAX as int);
        lemma_abs_mul_le(r.direction.z as int, r.direction.z as int,
            crate::vec3::VEC_MAX as int, crate::vec3::VEC_MAX as int);
    }
    let d = &r.direction;
    let rr: i128 = (d.x as i128) * (d.x as i128) + (d.y as i128) * (d.y as i128) + (d.z as i128)
        * (d.z as i128);
    rr >= 65536
}

/// The sky gradient a missed ray returns: white at the horizon blending
/// to sky blue at the zenith, keyed on the unit direction's height.
pub open spec fn background_spec(r: Ray) -> Color {
    let uy = unit_spec(r.direction).y;
    let t = (uy + (SCALE as int)) / 2;
    Vec3 {
        x: ((SCALE as int) - t + fx_mul_spec(t, 32768)) as i64,
        y: ((SCALE as int) - t + fx_mul_spec(t, 45875)) as i64,
        z: ((SCALE as int) - t + fx_mul_spec(t, SCALE as int)) as i64,
    }
}

/// A blend weight at scale keeps a scaled factor within the weight.
proof fn lemma_blend_bound(t: int, k: int)
    requires
        0 <= t <= SCALE,
        0 <= k <= SCALE,
    ensures
        0 <= fx_mul_spec(t, k) <= t,
{
    assert(0 <= t * k <= t * 65536) by (nonlinear_arith)
        requires
            0 <= t,
            0 <= k <= 65536;
    lemma_div_pos_is_pos(t * k, SCALE as int);
    lemma_div_is_ordered(t * k, t * 65536, 65536);
    lemma_div_multiples_vanish(t, 65536);
}

/// The background colour of a missed ray.
fn background(r: &Ray) -> (c: Color)
    requires
        in_range(r.direction),
        rdot(r.direction, r.direction) >= 1,
    ensures
        c == background_spec(*r),
        color01(c),
{
    let ud = r.direction.unit();
    proof {
        lemma_div_abs_shrinks((ud.y + SCALE) as int, 2);
        lemma_div_is_ordered((ud.y + SCALE) as int, 131072, 2);
        lemma_div_multiples_vanish(65536, 2);
        lemma_div_pos_is_pos((ud.y + SCALE) as int, 2);
    }
    let t = (ud.y + SCALE).checked_div_euclid(2).unwrap();
    proof {
        lemma_blend_bound(t as int, 32768);
        lemma_blend_bound(t as int, 45875);
        lemma_blend_bound(t as int, SCALE as int);
        lemma_abs_mul_le(t as int, SCALE as int, SCALE as int, SCALE as int);
    }
    let w = SCALE - t;
    Vec3 { x: w + fx_mul(t, 32768), y: w + fx_mul(t, 45875), z: w + fx_mul(t, SCALE) }
}

/// Every record the nearest-hit fold can return is well formed.
pub proof fn lemma_list_hit_wf(
    objects: Seq<Sphere>,
    i: int,
    r: Ray,
    t_min: i64,
    closest: i64,
    best: Option<HitRecord>,
)
    requires
        forall|k: int| 0 <= k < objects.len() ==> (#[trigger] objects[k]).wf(),
        in_range(r.direction),
        match best {
            Some(b) => b.wf(),
            None => true,
        },
    ensures
        match list_hit_loop(objects, i, r, t_min, closest, best) {
            Some(h) => h.wf(),
            None => true,
        },
    decreases objects.len() - i,
{
    if 0 <= i < objects.len() {
        match sphere_hit_spec(objects[i], r, t_min, closest) {
            Some(h) => {
                let s = objects[i];
                if crate::sphere::sph_norm_ok(s.center, r, crate::sphere::sph_t1(s.center,
                    s.radius, r)) && h == crate::sphere::sph_rec(s.center, s.radius, Some(
                s.material), r, crate::sphere::sph_t1(s.center, s.radius, r)) {
                    lemma_sph_rec_wf(s.center, s.radius, Some(s.material), r,
                        crate::sphere::sph_t1(s.center, s.radius, r));
                } else {
                    lemma_sph_rec_wf(s.center, s.radius, Some(s.material), r,
                        crate::sphere::sph_t2(s.center, s.radius, r));
                }
                lemma_list_hit_wf(objects, i + 1, r, t_min, h.distance, Some(h));
            },
            None => {
                lemma_list_hit_wf(objects, i + 1, r, t_min, closest, best);
            },
        }
    }
}

/// Whatever a well-formed material scatters carries an attenuation with
/// every channel in `[0, 1]`.
pub proof fn lemma_scatter_attenuation(m: MaterialKind, r_in: Ray, rec: HitRecord,
    samp: ScatterSample)
    requires
        material_kind_wf(m),
    ensures
        match m.scatter_spec(r_in, rec, samp) {
            Some(p) => color01(p.1),
            None => true,
        },
{
    match m {
        MaterialKind::Lambertian(_) => {
        },
        MaterialKind::Metal(_) => {
        },
        MaterialKind::Dielectric(_) => {
        },
    }
}

/// A product of channels in `[0, 1]` stays in `[0, 1]`.
proof fn lemma_mul01(a: int, b: int)
    requires
        0 <= a <= SCALE,
        0 <= b <= SCALE,
    ensures
        0 <= fx_mul_spec(a, b) <= SCALE,
{
    assert(0 <= a * b <= 65536 * 65536) by (nonlinear_arith)
        requires
            0 <= a <= 65536,
            0 <= b <= 65536;
    lemma_div_pos_is_pos(a * b, SCALE as int);
    lemma_div_symm_bound(a * b, SCALE as int, 65536);
}

/// Two colours multiplied channel by channel: the per-bounce attenuation.
pub open spec fn attenuate_spec(a: Color, b: Color) -> Color {
    Vec3 {
        x: fx_mul_spec(a.x as int, b.x as int) as i64,
        y: fx_mul_spec(a.y as int, b.y as int) as i64,
        z: fx_mul_spec(a.z as int, b.z as int) as i64,
    }
}

/// The radiance estimate as a function of the scattering randomness: one
/// sample consumed per bounce.  `ray_color` returns this value for the
/// sequence of samples it drew.
pub open spec fn ray_color_spec(
    r: Ray,
    objects: Seq<Sphere>,
    depth: int,
    samples: Seq<ScatterSample>,
) -> Color
    decreases depth,
{
    if depth <= 0 {
        black()
    } else if !ray_ok(r) {
        black()
    } else {
        match list_hit_loop(objects, 0, r, T_EPS, T_MAX, None::<HitRecord>) {
            Some(rec) => match rec.material {
                Some(m) => match m.scatter_spec(r, rec, samples[0]) {
                    Some(p) => attenuate_spec(p.1, ray_color_spec(p.0, objects, depth - 1,
                        samples.drop_first())),
                    None => black(),
                },
                None => black(),
            },
            None => background_spec(r),
        }
    }
}

/// One radiance estimate: bounce the ray through the scene, folding each
/// surface's attenuation, until the ray escapes to the background, is
/// absorbed, or the depth budget runs out.  The result always has every
/// channel in `[0, 1]` and is exactly `ray_color_spec` at the drawn
/// per-bounce samples — at most `depth` of them, which is the recursion
/// bound the `decreases` clause enforces.
pub fn ray_color(r: &Ray, world: &HittableList, depth: i32) -> (c: Color)
    requires
        world.wf(),
    ensures
        color01(c),
        depth <= 0 ==> c == black(),
        depth > 0 && !ray_ok(*r) ==> c == black(),
        (depth > 0 && ray_ok(*r) && list_hit_loop(world.objects@, 0, *r, T_EPS, T_MAX,
            None::<HitRecord>).is_none()) ==> c == background_spec(*r),
        exists|samples: Seq<ScatterSample>|
            (forall|k: int|
                0 <= k < samples.len() ==> (#[trigger] samples[k]).wf() && unit_sample_ok(
                    samples[k].unit)) && samples.len() <= (if depth <= 0 {
                0int
            } else {
                depth as int
            }) && c == ray_color_spec(*r, world.objects@, depth as int, samples),
    decreases depth,
{
    if depth <= 0 {
        let c = Vec3 { x: 0, y: 0, z: 0 };
        proof {
            let ws = Seq::<ScatterSample>::empty();
            assert(c == ray_color_spec(*r, world.objects@, depth as int, ws));
        }
        return c;
    }
    if !ray_ok_check(r) {
        let c = Vec3 { x: 0, y: 0, z: 0 };
        proof {
            let ws = Seq::<ScatterSample>::empty();
            assert(c == ray_color_spec(*r, world.objects@, depth as int, ws));
        }
        return c;
    }
    match world.hit(r, T_EPS, T_MAX) {
        Some(rec) => {
            proof {
                lemma_list_hit_wf(world.objects@, 0, *r, T_EPS, T_MAX, None);
            }
            let samp = ScatterSample::draw();
            match rec.scatter(r, &samp) {
                Some((scattered_ray, attenuation)) => {
                    proof {
                        match rec.material {
                            Some(m) => lemma_scatter_attenuation(m, *r, rec, samp),
                            None => (),
                        }
                    }
                    let rec_color = ray_color(&scattered_ray, world, depth - 1);
                    proof {
                        lemma_mul01(attenuation.x as int, rec_color.x as int);
                        lemma_mul01(attenuation.y as int, rec_color.y as int);
                        lemma_mul01(attenuation.z as int, rec_color.z as int);
                        lemma_abs_mul_le(attenuation.x as int, rec_color.x as int, SCALE as int,
                            SCALE as int);
                        lemma_abs_mul_le(attenuation.y as int, rec_color.y as int, SCALE as int,
                            SCALE as int);
                        lemma_abs_mul_le(attenuation.z as int, rec_color.z as int, SCALE as int,
                            SCALE as int);
                    }
                    let c = attenuation.mul(rec_color);
                    proof {
                        let tail = choose|samples: Seq<ScatterSample>|
                            #![trigger ray_color_spec(scattered_ray, world.objects@, depth - 1,
                                samples)]
                            (forall|k: int|
                                0 <= k < samples.len() ==> (#[trigger] samples[k]).wf()
                                    && unit_sample_ok(samples[k].unit)) && samples.len() <= (
                            if depth - 1 <= 0 {
                                0int
                            } else {
                                depth - 1
                            }) && rec_color == ray_color_spec(scattered_ray, world.objects@,
                            depth - 1, samples);
                        let ws = seq![samp] + tail;
                        assert(ws[0] == samp);
                        assert(ws.drop_first() =~= tail);
                        assert(forall|k: int| 0 <= k < ws.len() ==> (#[trigger] ws[k]).wf());
                        assert(c == ray_color_spec(*r, world.objects@, depth as int, ws));
                    }
                    c
                },
                None => {
                    let c = Vec3 { x: 0, y: 0, z: 0 };
                    proof {
                        let ws = seq![samp];
                        assert(ws[0] == samp);
                        assert(c == ray_color_spec(*r, world.objects@, depth as int, ws));
                    }
                    c
                },
            }
        },
        None => {
            let c = background(r);
            proof {
                let ws = Seq::<ScatterSample>::empty();
                assert(c == ray_color_spec(*r, world.objects@, depth as int, ws));
            }
            c
        },
    }
}

/// The pixel buffer: three bytes per pixel, row-major, row zero at the
/// top of the image.
pub struct ImageBuf {
    pub width: u32,
    pub height: u32,
    pub data: Vec<u8>,
}

impl ImageBuf {
    /// The buffer holds exactly three bytes per pixel, within the size
    /// the index arithmetic accepts.
    pub open spec fn wf(&self) -> bool {
        &&& self.data@.len() == 3 * (self.width as int) * (self.height as int)
        &&& self.width <= 0x4000
        &&& self.height <= 0x4000
    }

    /// The byte offset of the first channel of pixel `(x, y)`.
    pub open spec fn pix_base(&self, x: int, y: int) -> int {
        3 * (y * (self.width as int) + x)
    }

    /// A zeroed buffer.
    pub fn new(width: u32, height: u32) -> (im: Self)
        requires
            1 <= width <= 0x4000,
            1 <= height <= 0x4000,
        ensures
            im.wf(),
            im.width == width,
            im.height == height,
            forall|k: int| 0 <= k < im.data@.len() ==> im.data@[k] == 0,
    {
        proof {
            assert(3 * (width as int) * (height as int) <= 0xC0000000) by (nonlinear_arith)
                requires
                    width <= 0x4000,
                    height <= 0x4000;
        }
        let n: usize = 3 * (width as usize) * (height as usize);
        let mut data: Vec<u8> = Vec::new();
        let mut i: usize = 0;
        while i < n
            invariant
                data@.len() == i,
                i <= n,
                forall|k: int| 0 <= k < i ==> data@[k] == 0,
            decreases n - i,
        {
            data.push(0);
            i = i + 1;
        }
        ImageBuf { width, height, data }
    }

    /// Write one pixel's three channels.
    pub fn put_pixel(&mut self, x: u32, y: u32, p: [u8; 3])
        requires
            old(self).wf(),
            x < old(self).width,
            y < old(self).height,
        ensures
            final(self).wf(),
            final(self).width == old(self).width,
            final(self).height == old(self).height,
            final(self).data@ == old(self).data@.update(old(self).pix_base(x as int, y as int),
                p[0]).update(old(self).pix_base(x as int, y as int) + 1, p[1]).update(
                old(self).pix_base(x as int, y as int) + 2, p[2]),
    {
        proof {
            assert(3 * ((y as int) * (self.width as int) + x) + 2 < 3 * (self.width as int) * (
            self.height as int) && (y as int) * (self.width as int) + x < 0x10000000)
                by (nonlinear_arith)
                requires
                    x < self.width,
                    y < self.height,
                    0 <= x,
                    0 <= y,
                    self.width <= 0x4000,
                    self.height <= 0x4000;
        }
        let base: usize = 3 * ((y as usize) * (self.width as usize) + (x as usize));
        self.data.set(base, p[0]);
        self.data.set(base + 1, p[1]);
        self.data.set(base + 2, p[2]);
    }

    /// Read one pixel's three channels back.
    pub fn get_pixel(&self, x: u32, y: u32) -> (p: [u8; 3])
        requires
            self.wf(),
            x < self.width,
            y < self.height,
        ensures
            p[0] == self.data@[self.pix_base(x as int, y as int)],
            p[1] == self.data@[self.pix_base(x as int, y as int) + 1],
            p[2] == self.data@[self.pix_base(x as int, y as int) + 2],
    {
        proof {
            assert(3 * ((y as int) * (self.width as int) + x) + 2 < 3 * (self.width as int) * (
            self.height as int) && (y as int) * (self.width as int) + x < 0x10000000)
                by (nonlinear_arith)
                requires
                    x < self.width,
                    y < self.height,
                    0 <= x,
                    0 <= y,
                    self.width <= 0x4000,
                    self.height <= 0x4000;
        }
        let base: usize = 3 * ((y as usize) * (self.width as usize) + (x as usize));
        [self.data[base], self.data[base + 1], self.data[base + 2]]
    }
}

/// A sub-pixel viewport coordinate stays within twice the scale.
proof fn lemma_pixel_frac(iv: int, wv: int, r: int)
    requires
        0 <= iv < wv,
        2 <= wv,
        0 <= r < SCALE,
    ensures
        0 <= (iv * 65536 + r) / (wv - 1) <= 2 * SCALE,
{
    assert(0 <= iv * 65536 + r <= 131072 * (wv - 1)) by (nonlinear_arith)
        requires
            0 <= iv <= wv - 1,
            2 <= wv,
            0 <= r < 65536;
    lemma_div_pos_is_pos(iv * 65536 + r, wv - 1);
    lemma_div_is_ordered(iv * 65536 + r, 131072 * (wv - 1), wv - 1);
    lemma_div_multiples_vanish(131072, wv - 1);
}

/// The randomness one sample of one pixel consumes: the two sub-pixel
/// jitters, the lens-disk point, and the per-bounce scatter draws.
pub struct SampleDraw {
    pub ru: i64,
    pub rv: i64,
    pub lens: Vec3,
    pub trace: Seq<ScatterSample>,
}

/// What the drawing helpers guarantee of one sample's randomness: the
/// jitters in range, the lens point a genuine disk sample, and every
/// scatter draw a genuine spherical sample with a coin in range.
pub open spec fn sample_draw_ok(s: SampleDraw) -> bool {
    &&& 0 <= s.ru < SCALE
    &&& 0 <= s.rv < SCALE
    &&& bounded(s.lens, SCALE as int)
    &&& crate::utils::disk_sample_ok(s.lens)
    &&& forall|k: int|
        0 <= k < s.trace.len() ==> (#[trigger] s.trace[k]).wf() && crate::utils::unit_sample_ok(
            s.trace[k].unit)
}

/// The viewport coordinate of pixel index `i` jittered by `r`, out of
/// `n` pixels: `(i + r) / (n - 1)` at scale.
pub open spec fn viewport_coord(i: int, r: int, n: int) -> int {
    (i * (SCALE as int) + r) / (n - 1)
}

/// The radiance one sample of pixel `(i, j)` contributes: the integrator
/// run on the camera ray through the jittered viewport coordinates.
pub open spec fn sample_color_spec(
    objects: Seq<Sphere>,
    cam: Camera,
    w: int,
    h: int,
    depth: int,
    i: int,
    j: int,
    s: SampleDraw,
) -> Color {
    ray_color_spec(
        get_ray_spec(cam, viewport_coord(i, s.ru as int, w), viewport_coord(j, s.rv as int, h),
            s.lens),
        objects,
        depth,
        s.trace,
    )
}

/// The radiance pixel `(i, j)` accumulates over a sequence of sample
/// draws.
pub open spec fn accum_color_spec(
    objects: Seq<Sphere>,
    cam: Camera,
    w: int,
    h: int,
    depth: int,
    i: int,
    j: int,
    draws: Seq<SampleDraw>,
) -> Color
    decreases draws.len(),
{
    if draws.len() <= 0 {
        black()
    } else {
        add_spec(
            accum_color_spec(objects, cam, w, h, depth, i, j, draws.drop_last()),
            sample_color_spec(objects, cam, w, h, depth, i, j, draws.last()),
        )
    }
}

/// The three bytes are the gamma-2 tone mapping of the accumulated
/// radiance, averaged over the sample count.
pub open spec fn pixel_bytes_match(b0: u8, b1: u8, b2: u8, acc: Color, spp: int) -> bool {
    &&& b0 == gamma2_byte_of(acc.x as int, spp)
    &&& b1 == gamma2_byte_of(acc.y as int, spp)
    &&& b2 == gamma2_byte_of(acc.z as int, spp)
}

/// Estimate one pixel: fire `samples_per_pixel` jittered camera rays,
/// accumulate their radiance, and tone-map the average.  The result is
/// the gamma-2 byte triple of the radiance this pixel's own samples
/// accumulated, for the sequence of draws the function made.
pub fn render_pixel(
    scene: &HittableList,
    camera: &Camera,
    image_width: u32,
    image_height: u32,
    samples_per_pixel: i32,
    max_depth: i32,
    i: u32,
    j: u32,
) -> (p: [u8; 3])
    requires
        scene.wf(),
        camera.wf(),
        2 <= image_width <= 0x4000,
        2 <= image_height <= 0x4000,
        1 <= samples_per_pixel <= 0x100000,
        i < image_width,
        j < image_height,
    ensures
        exists|draws: Seq<SampleDraw>|
            #![trigger accum_color_spec(scene.objects@, *camera, image_width as int,
                image_height as int, max_depth as int, i as int, j as int, draws)]
            {
                &&& draws.len() == samples_per_pixel as int
                &&& (forall|k: int| 0 <= k < draws.len() ==> sample_draw_ok(#[trigger] draws[k]))
                &&& pixel_bytes_match(p[0], p[1], p[2], accum_color_spec(scene.objects@,
                    *camera, image_width as int, image_height as int, max_depth as int,
                    i as int, j as int, draws), samples_per_pixel as int)
            },
{
    let ghost mut draws: Seq<SampleDraw> = Seq::empty();
    let mut pixel_color = Vec3 { x: 0i64, y: 0i64, z: 0i64 };
    let mut s: i32 = 0;
    while s < samples_per_pixel
        invariant
            0 <= s <= samples_per_pixel,
            0 <= pixel_color.x <= s * 65536,
            0 <= pixel_color.y <= s * 65536,
            0 <= pixel_color.z <= s * 65536,
            scene.wf(),
            camera.wf(),
            2 <= image_width <= 0x4000,
            2 <= image_height <= 0x4000,
            1 <= samples_per_pixel <= 0x100000,
            i < image_width,
            j < image_height,
            draws.len() == s as int,
            forall|k: int| 0 <= k < draws.len() ==> sample_draw_ok(#[trigger] draws[k]),
            pixel_color == accum_color_spec(scene.objects@, *camera, image_width as int,
                image_height as int, max_depth as int, i as int, j as int, draws),
        decreases samples_per_pixel - s,
    {
        let ru = crate::rng::rand01();
        let rv = crate::rng::rand01();
        proof {
            lemma_pixel_frac(i as int, image_width as int, ru as int);
            lemma_pixel_frac(j as int, image_height as int, rv as int);
        }
        let nu: i64 = (i as i64) * SCALE + ru;
        let u = nu.checked_div_euclid((image_width as i64) - 1).unwrap();
        let nv: i64 = (j as i64) * SCALE + rv;
        let v = nv.checked_div_euclid((image_height as i64) - 1).unwrap();
        let ray = camera.get_ray(u, v);
        let col = ray_color(&ray, scene, max_depth);
        proof {
            let d = choose|d: Vec3|
                bounded(d, SCALE as int) && crate::utils::disk_sample_ok(d) && ray
                    == get_ray_spec(*camera, u as int, v as int, d);
            let tr = choose|samples: Seq<ScatterSample>|
                (forall|k: int|
                    0 <= k < samples.len() ==> (#[trigger] samples[k]).wf()
                        && crate::utils::unit_sample_ok(samples[k].unit)) && samples.len() <= (
                if max_depth <= 0 {
                    0int
                } else {
                    max_depth as int
                }) && col == ray_color_spec(ray, scene.objects@, max_depth as int, samples);
            let before = draws;
            draws = draws.push(SampleDraw { ru, rv, lens: d, trace: tr });
            assert(draws.drop_last() =~= before);
            assert(draws.last() == SampleDraw { ru, rv, lens: d, trace: tr });
            assert(u as int == viewport_coord(i as int, ru as int, image_width as int));
            assert(v as int == viewport_coord(j as int, rv as int, image_height as int));
            assert(sample_color_spec(scene.objects@, *camera, image_width as int,
                image_height as int, max_depth as int, i as int, j as int, draws.last())
                == col);
        }
        pixel_color = pixel_color.add(col);
        s = s + 1;
    }
    pixel_color.to_rgb_scaled_gamma2(samples_per_pixel)
}

/// Pixel `(x, y)` of the buffer holds the tone-mapped average of the
/// radiance its own samples accumulated: the camera rays of image column
/// `x` and sampling row `height - 1 - y`, traced through the scene, for
/// some sequence of in-range draws.
pub open spec fn pixel_done(
    im: ImageBuf,
    objects: Seq<Sphere>,
    cam: Camera,
    spp: int,
    depth: int,
    x: int,
    y: int,
) -> bool {
    exists|draws: Seq<SampleDraw>|
        #![trigger accum_color_spec(objects, cam, im.width as int, im.height as int, depth, x,
            im.height - 1 - y, draws)]
        {
            &&& draws.len() == spp
            &&& (forall|k: int| 0 <= k < draws.len() ==> sample_draw_ok(#[trigger] draws[k]))
            &&& pixel_bytes_match(im.data@[im.pix_base(x, y)], im.data@[im.pix_base(x, y) + 1],
                im.data@[im.pix_base(x, y) + 2], accum_color_spec(objects, cam,
                im.width as int, im.height as int, depth, x, im.height - 1 - y, draws), spp)
        }
}

/// A pixel already tied to its sampling stays tied when other bytes of
/// the buffer change.
proof fn lemma_pixel_done_preserved(
    before: ImageBuf,
    after: ImageBuf,
    objects: Seq<Sphere>,
    cam: Camera,
    spp: int,
    depth: int,
    x: int,
    y: int,
)
    requires
        pixel_done(before, objects, cam, spp, depth, x, y),
        after.width == before.width,
        after.height == before.height,
        after.data@[before.pix_base(x, y)] == before.data@[before.pix_base(x, y)],
        after.data@[before.pix_base(x, y) + 1] == before.data@[before.pix_base(x, y) + 1],
        after.data@[before.pix_base(x, y) + 2] == before.data@[before.pix_base(x, y) + 2],
    ensures
        pixel_done(after, objects, cam, spp, depth, x, y),
{
    let draws = choose|draws: Seq<SampleDraw>|
        #![trigger accum_color_spec(objects, cam, before.width as int, before.height as int,
            depth, x, before.height - 1 - y, draws)]
        {
            &&& draws.len() == spp
            &&& (forall|k: int| 0 <= k < draws.len() ==> sample_draw_ok(#[trigger] draws[k]))
            &&& pixel_bytes_match(before.data@[before.pix_base(x, y)],
                before.data@[before.pix_base(x, y) + 1],
                before.data@[before.pix_base(x, y) + 2], accum_color_spec(objects, cam,
                before.width as int, before.height as int, depth, x, before.height - 1 - y,
                draws), spp)
        };
    assert(pixel_bytes_match(after.data@[after.pix_base(x, y)],
        after.data@[after.pix_base(x, y) + 1], after.data@[after.pix_base(x, y) + 2],
        accum_color_spec(objects, cam, after.width as int, after.height as int, depth, x,
        after.height - 1 - y, draws), spp));
}

/// The rendering capability: turn a scene, a camera and the sampling
/// parameters into a pixel buffer of the requested size, every pixel the
/// tone-mapped average of its own samples.
pub trait Renderer {
    fn render(
        &self,
        scene: HittableList,
        camera: &Camera,
        image_width: u32,
        image_height: u32,
        samples_per_pixel: i32,
        max_depth: i32,
    ) -> (im: ImageBuf)
        requires
            scene.wf(),
            camera.wf(),
            2 <= image_width <= 0x4000,
            2 <= image_height <= 0x4000,
            1 <= samples_per_pixel <= 0x100000,
        ensures
            im.wf(),
            im.width == image_width,
            im.height == image_height,
            forall|x: int, y: int|
                0 <= x < image_width && 0 <= y < image_height ==> #[trigger] pixel_done(im,
                    scene.objects@, *camera, samples_per_pixel as int, max_depth as int, x, y),
    ;
}

/// The sequential renderer: rows top to bottom, columns left to right,
/// writing each pixel as it is finished.
#[derive(Default)]
pub struct SimpleRenderer {}

impl Renderer for SimpleRenderer {
    fn render(
        &self,
        scene: HittableList,
        camera: &Camera,
        image_width: u32,
        image_height: u32,
        samples_per_pixel: i32,
        max_depth: i32,
    ) -> (im: ImageBuf)
        ensures
            im.wf(),
            im.width == image_width,
            im.height == image_height,
            forall|x: int, y: int|
                0 <= x < image_width && 0 <= y < image_height ==> #[trigger] pixel_done(im,
                    scene.objects@, *camera, samples_per_pixel as int, max_depth as int, x, y),
    {
        let mut im = ImageBuf::new(image_width, image_height);
        let ghost w = image_width as int;
        let ghost h = image_height as int;
        let ghost spp = samples_per_pixel as int;
        let ghost dep = max_depth as int;
        let ghost objs = scene.objects@;
        let ghost cam = *camera;
        let mut jj: u32 = image_height;
        while jj > 0
            invariant
                im.wf(),
                im.width == image_width,
                im.height == image_height,
                jj <= image_height,
                scene.wf(),
                camera.wf(),
                2 <= image_width <= 0x4000,
                2 <= image_height <= 0x4000,
                1 <= samples_per_pixel <= 0x100000,
                w == image_width as int,
                h == image_height as int,
                spp == samples_per_pixel as int,
                dep == max_depth as int,
                objs == scene.objects@,
                cam == *camera,
                forall|x: int, y: int|
                    0 <= x < w && 0 <= y < h - jj ==> #[trigger] pixel_done(im, objs, cam, spp,
                        dep, x, y),
            decreases jj,
        {
            jj = jj - 1;
            let out_row: u32 = image_height - jj - 1;
            let mut i: u32 = 0;
            while i < image_width
                invariant
                    im.wf(),
                    im.width == image_width,
                    im.height == image_height,
                    jj < image_height,
                    out_row == image_height - jj - 1,
                    i <= image_width,
                    scene.wf(),
                    camera.wf(),
                    2 <= image_width <= 0x4000,
                    2 <= image_height <= 0x4000,
                    1 <= samples_per_pixel <= 0x100000,
                    w == image_width as int,
                    h == image_height as int,
                    spp == samples_per_pixel as int,
                    dep == max_depth as int,
                    objs == scene.objects@,
                    cam == *camera,
                    forall|x: int, y: int|
                        0 <= x < w && 0 <= y < out_row ==> #[trigger] pixel_done(im, objs, cam,
                            spp, dep, x, y),
                    forall|x: int|
                        0 <= x < i ==> #[trigger] pixel_done(im, objs, cam, spp, dep, x,
                            out_row as int),
                decreases image_width - i,
            {
                let pix = render_pixel(&scene, camera, image_width, image_height,
                    samples_per_pixel, max_depth, i, jj);
                let ghost before = im;
                im.put_pixel(i, out_row, pix);
                proof {
                    lemma_pixel_index(i as int, out_row as int, 0, w, h);
                    lemma_pixel_index(i as int, out_row as int, 1, w, h);
                    lemma_pixel_index(i as int, out_row as int, 2, w, h);
                    assert(h - 1 - (out_row as int) == jj as int);
                    assert(pixel_done(im, objs, cam, spp, dep, i as int, out_row as int));
                    assert forall|x: int, y: int|
                        0 <= x < w && 0 <= y < h && !(x == i as int && y == out_row as int)
                        && pixel_done(before, objs, cam, spp, dep, x, y) implies pixel_done(im,
                        objs, cam, spp, dep, x, y) by {
                        lemma_pixel_index(x, y, 0, w, h);
                        lemma_pixel_index(x, y, 1, w, h);
                        lemma_pixel_index(x, y, 2, w, h);
                        if y * w + x == (out_row as int) * w + i {
                            assert(x == i as int && y == out_row as int);
                        }
                        lemma_pixel_done_preserved(before, im, objs, cam, spp, dep, x, y);
                    }
                }
                i = i + 1;
            }
        }
        im
    }
}

/// Whether some triple in `ts` carries pixel `(x, y)`.
pub open spec fn covers(ts: Seq<(u32, u32, [u8; 3])>, x: int, y: int) -> bool {
    exists|k: int| 0 <= k < ts.len() && (#[trigger] ts[k]).0 == x && ts[k].1 == y
}

/// The colour the triples assign to pixel `(x, y)`; meaningful where a
/// unique triple covers it.
pub open spec fn triple_color(ts: Seq<(u32, u32, [u8; 3])>, x: int, y: int) -> [u8; 3] {
    let k = choose|k: int| 0 <= k < ts.len() && (#[trigger] ts[k]).0 == x && ts[k].1 == y;
    ts[k].2
}

/// The triples cover every pixel of a `w` by `h` image exactly once, and
/// none outside it.
pub open spec fn complete(ts: Seq<(u32, u32, [u8; 3])>, w: int, h: int) -> bool {
    &&& forall|k: int| 0 <= k < ts.len() ==> (#[trigger] ts[k]).0 < w && ts[k].1 < h
    &&& forall|x: int, y: int| 0 <= x < w && 0 <= y < h ==> covers(ts, x, y)
    &&& forall|k1: int, k2: int|
        0 <= k1 < ts.len() && 0 <= k2 < ts.len() && k1 != k2 ==> !((#[trigger] ts[k1]).0 == (
        #[trigger] ts[k2]).0 && ts[k1].1 == ts[k2].1)
}

/// The image a complete set of triples describes, independent of their
/// order: byte `n` belongs to channel `n % 3` of the pixel at flat index
/// `n / 3`.
pub open spec fn image_of(ts: Seq<(u32, u32, [u8; 3])>, w: int, h: int) -> Seq<u8> {
    Seq::new((3 * w * h) as nat, |n: int|
        {
            let p = n / 3;
            let c = n % 3;
            let y = p / w;
            let x = p % w;
            triple_color(ts, x, y)[c]
        },
    )
}

/// The byte index of channel `c` of pixel `(x, y)` decomposes back into
/// exactly those coordinates.
proof fn lemma_pixel_index(x: int, y: int, c: int, w: int, h: int)
    requires
        0 <= x < w,
        0 <= y < h,
        0 <= c < 3,
    ensures
        (3 * (y * w + x) + c) / 3 == y * w + x,
        (3 * (y * w + x) + c) % 3 == c,
        (y * w + x) / w == y,
        (y * w + x) % w == x,
        0 <= 3 * (y * w + x) + c < 3 * w * h,
{
    let p = y * w + x;
    assert(3 * p + c == p * 3 + c) by (nonlinear_arith);
    vstd::arithmetic::div_mod::lemma_fundamental_div_mod_converse_div(3 * p + c, 3, p, c);
    vstd::arithmetic::div_mod::lemma_fundamental_div_mod_converse_mod(3 * p + c, 3, p, c);
    vstd::arithmetic::div_mod::lemma_fundamental_div_mod_converse_div(p, w, y, x);
    vstd::arithmetic::div_mod::lemma_fundamental_div_mod_converse_mod(p, w, y, x);
    assert(0 <= 3 * p + c < 3 * w * h) by (nonlinear_arith)
        requires
            0 <= x < w,
            0 <= y < h,
            0 <= c < 3,
            p == y * w + x;
}

/// Under uniqueness, the colour assigned to the pixel of triple `k` is
/// that triple's colour.
proof fn lemma_triple_color_unique(ts: Seq<(u32, u32, [u8; 3])>, k: int)
    requires
        0 <= k < ts.len(),
        forall|k1: int, k2: int|
            0 <= k1 < ts.len() && 0 <= k2 < ts.len() && k1 != k2 ==> !((#[trigger] ts[k1]).0 == (
            #[trigger] ts[k2]).0 && ts[k1].1 == ts[k2].1),
    ensures
        triple_color(ts, ts[k].0 as int, ts[k].1 as int) == ts[k].2,
{
    let x = ts[k].0 as int;
    let y = ts[k].1 as int;
    assert(covers(ts, x, y));
    let k2 = choose|k2: int| 0 <= k2 < ts.len() && (#[trigger] ts[k2]).0 == x && ts[k2].1 == y;
    assert(k2 == k);
}

/// Build the image from finished pixel triples, in whatever order they
/// arrived: the aggregation step of the parallel renderer.
pub fn assemble_image(width: u32, height: u32, triples: &Vec<(u32, u32, [u8; 3])>) -> (im:
    ImageBuf)
    requires
        1 <= width <= 0x4000,
        1 <= height <= 0x4000,
        complete(triples@, width as int, height as int),
    ensures
        im.wf(),
        im.width == width,
        im.height == height,
        im.data@ == image_of(triples@, width as int, height as int),
{
    let ghost ts = triples@;
    let ghost w = width as int;
    let ghost h = height as int;
    let mut im = ImageBuf::new(width, height);
    proof {
        assert forall|xx: int, yy: int, c: int|
            0 <= xx < w && 0 <= yy < h && 0 <= c < 3 implies #[trigger] im.data@[3 * (yy * w
            + xx) + c] == 0u8 by {
            lemma_pixel_index(xx, yy, c, w, h);
        }
    }
    let n = triples.len();
    let mut k: usize = 0;
    while k < n
        invariant
            n == ts.len(),
            k <= n,
            triples@ == ts,
            complete(ts, w, h),
            w == width as int,
            h == height as int,
            1 <= width <= 0x4000,
            1 <= height <= 0x4000,
            im.wf(),
            im.width == width,
            im.height == height,
            forall|xx: int, yy: int, c: int|
                0 <= xx < w && 0 <= yy < h && 0 <= c < 3 ==> #[trigger] im.data@[3 * (yy * w
                    + xx) + c] == if exists|kk: int|
                    0 <= kk < k && (#[trigger] ts[kk]).0 == xx && ts[kk].1 == yy {
                    triple_color(ts, xx, yy)[c]
                } else {
                    0u8
                },
        decreases n - k,
    {
        let (x, y, rgb) = triples[k];
        proof {
            lemma_pixel_index(x as int, y as int, 0, w, h);
            lemma_pixel_index(x as int, y as int, 1, w, h);
            lemma_pixel_index(x as int, y as int, 2, w, h);
            lemma_triple_color_unique(ts, k as int);
        }
        im.put_pixel(x, y, rgb);
        k = k + 1;
        proof {
            assert forall|xx: int, yy: int, c: int|
                0 <= xx < w && 0 <= yy < h && 0 <= c < 3 implies #[trigger] im.data@[3 * (yy * w
                + xx) + c] == (if exists|kk: int|
                0 <= kk < k && (#[trigger] ts[kk]).0 == xx && ts[kk].1 == yy {
                triple_color(ts, xx, yy)[c]
            } else {
                0u8
            }) by {
                lemma_pixel_index(xx, yy, c, w, h);
                if xx == x as int && yy == y as int {
                    assert(ts[k - 1].0 == xx && ts[k - 1].1 == yy);
                } else {
                    assert(3 * (yy * w + xx) + c != 3 * ((y as int) * w + x) + 0 && 3 * (yy * w
                        + xx) + c != 3 * ((y as int) * w + x) + 1 && 3 * (yy * w + xx) + c != 3
                        * ((y as int) * w + x) + 2) by {
                        lemma_pixel_index(x as int, y as int, 0, w, h);
                        lemma_pixel_index(x as int, y as int, 1, w, h);
                        lemma_pixel_index(x as int, y as int, 2, w, h);
                        if yy * w + xx == (y as int) * w + x {
                            assert(xx == x as int && yy == y as int);
                        }
                    }
                    if exists|kk: int| 0 <= kk < k && (#[trigger] ts[kk]).0 == xx && ts[kk].1
                        == yy {
                        let kk = choose|kk: int|
                            0 <= kk < k && (#[trigger] ts[kk]).0 == xx && ts[kk].1 == yy;
                        assert(0 <= kk < k - 1 || kk == k - 1);
                        assert(kk != k - 1);
                    }
                }
            }
        }
    }
    proof {
        assert(im.data@ =~= image_of(ts, w, h)) by {
            assert forall|nn: int| 0 <= nn < 3 * w * h implies im.data@[nn] == image_of(ts, w,
                h)[nn] by {
                let p = nn / 3;
                let c = nn % 3;
                let yy = p / w;
                let xx = p % w;
                lemma_byte_index_ranges(nn, w, h);
                lemma_pixel_index(xx, yy, c, w, h);
                assert(covers(ts, xx, yy));
            }
        }
    }
    im
}

/// Every byte index of the image decomposes into a pixel inside it.
proof fn lemma_byte_index_ranges(n: int, w: int, h: int)
    requires
        0 <= n < 3 * w * h,
        1 <= w,
        1 <= h,
    ensures
        0 <= n / 3 < w * h,
        0 <= n % 3 < 3,
        0 <= (n / 3) / w < h,
        0 <= (n / 3) % w < w,
        n == 3 * ((((n / 3) / w) * w) + ((n / 3) % w)) + (n % 3),
{
    vstd::arithmetic::div_mod::lemma_fundamental_div_mod(n, 3);
    vstd::arithmetic::div_mod::lemma_mod_division_less_than_divisor(n, 3);
    lemma_div_pos_is_pos(n, 3);
    let p = n / 3;
    assert(p < w * h) by (nonlinear_arith)
        requires
            n == 3 * p + n % 3,
            0 <= n % 3 < 3,
            n < 3 * w * h;
    vstd::arithmetic::div_mod::lemma_fundamental_div_mod(p, w);
    vstd::arithmetic::div_mod::lemma_mod_division_less_than_divisor(p, w);
    lemma_div_pos_is_pos(p, w);
    assert(p / w < h) by (nonlinear_arith)
        requires
            p == w * (p / w) + p % w,
            0 <= p % w < w,
            0 <= p < w * h,
            1 <= w,
            0 <= p / w;
    assert(n == 3 * (((p / w) * w) + (p % w)) + (n % 3)) by (nonlinear_arith)
        requires
            n == 3 * p + n % 3,
            p == w * (p / w) + p % w;
}

/// The assembled image depends only on which colour each pixel received,
/// never on the order the triples arrived in: two complete deliveries
/// that agree pixelwise describe the same image.
pub proof fn lemma_assembly_order_independent(
    t1: Seq<(u32, u32, [u8; 3])>,
    t2: Seq<(u32, u32, [u8; 3])>,
    w: int,
    h: int,
)
    requires
        1 <= w,
        1 <= h,
        complete(t1, w, h),
        complete(t2, w, h),
        forall|x: int, y: int|
            0 <= x < w && 0 <= y < h ==> #[trigger] triple_color(t1, x, y) == triple_color(t2,
                x, y),
    ensures
        image_of(t1, w, h) == image_of(t2, w, h),
{
    assert(image_of(t1, w, h) =~= image_of(t2, w, h)) by {
        assert forall|n: int| 0 <= n < 3 * w * h implies image_of(t1, w, h)[n] == image_of(t2,
            w, h)[n] by {
            lemma_byte_index_ranges(n, w, h);
        }
    }
}

} // verus!
