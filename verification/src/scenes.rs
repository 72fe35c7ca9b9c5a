//! The reference scene: a large ground sphere, a grid of small randomly
//! placed and randomly shaded spheres, and three large ones.

use vstd::prelude::*;
use crate::fixed::{SCALE, fx_mul, fx_mul_spec, sqrt_floor, lemma_fx_range, lemma_abs_mul_le};
use vstd::arithmetic::div_mod::lemma_div_pos_is_pos;
use crate::vec3::{Vec3, rdot, sub_spec};
use crate::hittable::{Hittable, HittableList};
use crate::sphere::Sphere;
use crate::materials::{MaterialKind, Lambertian, Metal, Dielectric, color01};
use crate::rng::rand01;
use crate::{Color, color, point3};

verus! {

/// The point the small spheres must clear: the front landmark sphere's
/// neighbourhood.
pub open spec fn grid_anchor() -> Vec3 {
    Vec3 { x: 262144i64, y: 13107i64, z: 0i64 }
}

/// What every randomly placed small sphere satisfies: radius one fifth,
/// a centre at height one fifth inside the grid that clears the anchor
/// by more than nine tenths, and one of the three material shapes.
pub open spec fn small_sphere_ok(s: Sphere) -> bool {
    &&& s.radius == 13107
    &&& s.center.y == 13107
    &&& -11 * (SCALE as int) <= s.center.x <= 11 * (SCALE as int)
    &&& -11 * (SCALE as int) <= s.center.z <= 11 * (SCALE as int)
    &&& sqrt_floor(rdot(sub_spec(s.center, grid_anchor()), sub_spec(s.center, grid_anchor())))
        > 58982
    &&& match s.material {
        MaterialKind::Lambertian(l) => color01(l.albedo),
        MaterialKind::Metal(m) => {
            &&& 32768 <= m.albedo.x <= SCALE
            &&& 32768 <= m.albedo.y <= SCALE
            &&& 32768 <= m.albedo.z <= SCALE
            &&& 0 <= m.fuzz <= 32767
        },
        MaterialKind::Dielectric(d) => d.ref_idx == 98304,
    }
}

/// The large diffuse ground sphere.
pub open spec fn ground_sphere() -> Sphere {
    Sphere {
        center: Vec3 { x: 0i64, y: -65536000i64, z: 0i64 },
        radius: 65536000,
        material: MaterialKind::Lambertian(
            Lambertian { albedo: Vec3 { x: 32768i64, y: 32768i64, z: 32768i64 } },
        ),
    }
}

/// The central glass landmark sphere.
pub open spec fn landmark_glass() -> Sphere {
    Sphere {
        center: Vec3 { x: 0i64, y: 65536i64, z: 0i64 },
        radius: 65536,
        material: MaterialKind::Dielectric(Dielectric { ref_idx: 98304 }),
    }
}

/// The brown diffuse landmark sphere.
pub open spec fn landmark_diffuse() -> Sphere {
    Sphere {
        center: Vec3 { x: -262144i64, y: 65536i64, z: 0i64 },
        radius: 65536,
        material: MaterialKind::Lambertian(
            Lambertian { albedo: Vec3 { x: 26214i64, y: 13107i64, z: 6554i64 } },
        ),
    }
}

/// The polished metal landmark sphere.
pub open spec fn landmark_metal() -> Sphere {
    Sphere {
        center: Vec3 { x: 262144i64, y: 65536i64, z: 0i64 },
        radius: 65536,
        material: MaterialKind::Metal(
            Metal { albedo: Vec3 { x: 45875i64, y: 39322i64, z: 32768i64 }, fuzz: 0 },
        ),
    }
}

/// A channel product of two fresh channels stays a channel.
proof fn lemma_chan_mul(a: int, b: int)
    requires
        0 <= a <= SCALE,
        0 <= b <= SCALE,
    ensures
        0 <= fx_mul_spec(a, b) <= SCALE,
{
    assert(0 <= a * b <= 65536 * 65536) by (nonlinear_arith)
        requires
            0 <= a <= 65536,
            0 <= b <= 65536;
    lemma_div_pos_is_pos(a * b, SCALE as int);
    crate::fixed::lemma_div_symm_bound(a * b, SCALE as int, 65536);
}

/// A fresh colour with channels in `[0, 1)`: the product of two uniform
/// colours, darker toward the corners.
fn random_albedo() -> (c: Color)
    ensures
        color01(c),
{
    let a = Vec3::random();
    let b = Vec3::random();
    proof {
        lemma_chan_mul(a.x as int, b.x as int);
        lemma_chan_mul(a.y as int, b.y as int);
        lemma_chan_mul(a.z as int, b.z as int);
        lemma_abs_mul_le(a.x as int, b.x as int, SCALE as int, SCALE as int);
        lemma_abs_mul_le(a.y as int, b.y as int, SCALE as int, SCALE as int);
        lemma_abs_mul_le(a.z as int, b.z as int, SCALE as int, SCALE as int);
    }
    a.mul(b)
}

/// One grid cell's sphere, if its centre clears the front sphere: a
/// diffuse, metal or glass ball of radius one fifth, chosen by a coin.
fn random_small_sphere(world: &mut HittableList, a: i64, b: i64)
    requires
        old(world).wf(),
        -11 <= a <= 10,
        -11 <= b <= 10,
    ensures
        final(world).wf(),
        final(world).objects@ == old(world).objects@ || (exists|s: Sphere|
            #[trigger] small_sphere_ok(s) && final(world).objects@ == old(
            world).objects@.push(s)),
{
    let choose_mat = rand01();
    let rjx = rand01();
    let rjz = rand01();
    proof {
        lemma_abs_mul_le(rjx as int, 58982, 65536, 58982);
        lemma_abs_mul_le(rjz as int, 58982, 65536, 58982);
        lemma_fx_range((rjx as int) * 58982, 58982);
        lemma_fx_range((rjz as int) * 58982, 58982);
    }
    let jx = fx_mul(rjx, 58982);
    let jz = fx_mul(rjz, 58982);
    let center = point3(a * SCALE + jx, 13107, b * SCALE + jz);
    let anchor = point3(4 * SCALE, 13107, 0);
    let delta = center.sub(anchor);
    proof {
        crate::vec3::lemma_rdot_bound(delta, delta, 0x100000000, 0x100000000);
        crate::vec3::lemma_rdot_self_nonneg(delta);
    }
    let dist = delta.length();
    if dist > 58982 {
        let material = if choose_mat < 52429 {
            MaterialKind::Lambertian(Lambertian::new(random_albedo()))
        } else if choose_mat < 62259 {
            let albedo = Vec3::random_range(32768, SCALE);
            let raw_fuzz = rand01();
            proof {
                crate::fixed::lemma_div_abs_shrinks(raw_fuzz as int, 2);
            }
            let fuzz = raw_fuzz.checked_div_euclid(2).unwrap();
            MaterialKind::Metal(Metal::new(albedo, fuzz))
        } else {
            MaterialKind::Dielectric(Dielectric::new(98304))
        };
        let sphere = Sphere::new(center, 13107, material);
        proof {
            assert(delta == sub_spec(sphere.center, grid_anchor()));
            assert(small_sphere_ok(sphere));
        }
        world.add(sphere);
    }
}

/// The reference scene: the ground sphere first, then up to 484 small
/// random spheres, then the three landmark spheres.
pub fn random_scene() -> (world: HittableList)
    ensures
        world.wf(),
        4 <= world.objects@.len() <= 488,
        world.objects@[0] == ground_sphere(),
        world.objects@[world.objects@.len() - 3] == landmark_glass(),
        world.objects@[world.objects@.len() - 2] == landmark_diffuse(),
        world.objects@[world.objects@.len() - 1] == landmark_metal(),
        forall|k: int|
            1 <= k < world.objects@.len() - 3 ==> small_sphere_ok(#[trigger] world.objects@[k]),
{
    let mut world = HittableList::new();

    let ground_material = MaterialKind::Lambertian(Lambertian::new(color(32768, 32768, 32768)));
    let ground = Sphere::new(point3(0, -65536000, 0), 65536000, ground_material);
    proof {
        assert(ground == ground_sphere());
    }
    world.add(ground);

    let mut a: i64 = -11;
    while a < 11
        invariant
            world.wf(),
            -11 <= a <= 11,
            1 <= world.objects@.len() <= 1 + (a + 11) * 22,
            world.objects@[0] == ground_sphere(),
            forall|k: int|
                1 <= k < world.objects@.len() ==> small_sphere_ok(#[trigger] world.objects@[k]),
        decreases 11 - a,
    {
        let mut b: i64 = -11;
        while b < 11
            invariant
                world.wf(),
                -11 <= a <= 10,
                -11 <= b <= 11,
                1 <= world.objects@.len() <= 1 + (a + 11) * 22 + (b + 11),
                world.objects@[0] == ground_sphere(),
                forall|k: int|
                    1 <= k < world.objects@.len() ==> small_sphere_ok(
                        #[trigger] world.objects@[k]),
            decreases 11 - b,
        {
            random_small_sphere(&mut world, a, b);
            b = b + 1;
        }
        a = a + 1;
    }

    let material_1 = MaterialKind::Dielectric(Dielectric::new(98304));
    let glass = Sphere::new(point3(0, SCALE, 0), SCALE, material_1);
    proof {
        assert(glass == landmark_glass());
    }
    world.add(glass);

    let material_2 = MaterialKind::Lambertian(Lambertian::new(color(26214, 13107, 6554)));
    let diffuse = Sphere::new(point3(-4 * SCALE, SCALE, 0), SCALE, material_2);
    proof {
        assert(diffuse == landmark_diffuse());
    }
    world.add(diffuse);

    let material_3 = MaterialKind::Metal(Metal::new(color(45875, 39322, 32768), 0));
    let metal = Sphere::new(point3(4 * SCALE, SCALE, 0), SCALE, material_3);
    proof {
        assert(metal == landmark_metal());
    }
    world.add(metal);

    world
}

} // verus!
