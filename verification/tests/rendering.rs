//! Tone mapping, pixel assembly, the renderers and the samplers.

use raytracer::{SCALE, Vec3, Hittable, HittableList, Sphere, Camera};
use raytracer::materials::{Lambertian, MaterialKind};
use raytracer::renderers::{ImageBuf, Renderer, SimpleRenderer, assemble_image, render_pixel};
use raytracer::scenes::random_scene;
use raytracer::fixed::isqrt;
use raytracer::rng::{rand01, rand_sym, rand_angle};
use raytracer::utils::{random_unit_vector, random_in_unit_disk, rand_in_hemisphere, fmin, clamp};

#[test]
fn test_gamma_bytes_exact() {
    // One sample: full radiance maps to 255, a quarter to 128, none to 0.
    let full = Vec3::new(SCALE, SCALE / 4, 0);
    assert_eq!(full.to_rgb_scaled_gamma2(1), [255, 128, 0]);
}

#[test]
fn test_gamma_averages_over_samples() {
    // Four samples of a full channel: the average is full again.
    let c = Vec3::new(4 * SCALE, SCALE, 0);
    assert_eq!(c.to_rgb_scaled_gamma2(4), [255, 128, 0]);
}

#[test]
fn test_gamma_monotone_in_radiance() {
    let mut last = 0u8;
    let mut c: i64 = 0;
    while c <= SCALE {
        let v = Vec3::new(c, 0, 0);
        let b = v.to_rgb_scaled_gamma2(1)[0];
        assert!(b >= last);
        last = b;
        c += 1000;
    }
}

#[test]
fn test_to_rgb_scaled_clamps() {
    let c = Vec3::new(3 * SCALE, -SCALE, SCALE / 2);
    assert_eq!(c.to_rgb_scaled(1), [255, 0, 128]);
}

#[test]
fn test_isqrt_exact() {
    assert_eq!(isqrt(0), 0);
    assert_eq!(isqrt(15), 3);
    assert_eq!(isqrt(16), 4);
    assert_eq!(isqrt(4294967296), 65536);
}

#[test]
fn test_fmin_clamp() {
    assert_eq!(fmin(3, 5), 3);
    assert_eq!(fmin(5, 3), 3);
    assert_eq!(clamp(7, 0, 5), 5);
    assert_eq!(clamp(-7, 0, 5), 0);
    assert_eq!(clamp(3, 0, 5), 3);
}

#[test]
fn test_rand_ranges() {
    for _ in 0..64 {
        let a = rand01();
        assert!(0 <= a && a < SCALE);
        let b = rand_sym();
        assert!(-SCALE <= b && b <= SCALE);
        let c = rand_angle();
        assert!(0 <= c && c < 411774);
    }
}

#[test]
fn test_random_unit_vector_bounds() {
    for _ in 0..64 {
        let u = random_unit_vector();
        assert!(-SCALE <= u.x && u.x <= SCALE);
        assert!(-SCALE <= u.y && u.y <= SCALE);
        assert!(-SCALE <= u.z && u.z <= SCALE);
    }
}

#[test]
fn test_random_in_unit_disk_flat() {
    for _ in 0..64 {
        let p = random_in_unit_disk();
        assert_eq!(p.z, 0);
        assert!(-SCALE <= p.x && p.x <= SCALE);
        assert!(-SCALE <= p.y && p.y <= SCALE);
    }
}

#[test]
fn test_rand_in_hemisphere_side() {
    let n = Vec3::new(0, SCALE, 0);
    for _ in 0..64 {
        let u = rand_in_hemisphere(&n);
        // Up to one rounding unit, the sample points with the normal.
        assert!(u.dot(n) >= -1);
    }
}

#[test]
fn test_image_buf_put_get() {
    let mut im = ImageBuf::new(3, 2);
    assert_eq!(im.data.len(), 18);
    im.put_pixel(2, 1, [9, 8, 7]);
    assert_eq!(im.get_pixel(2, 1), [9, 8, 7]);
    assert_eq!(im.get_pixel(0, 0), [0, 0, 0]);
}

#[test]
fn test_assemble_order_independent() {
    // The same four pixels delivered in two different orders give
    // bit-identical images.
    let a = vec![
        (0u32, 0u32, [1u8, 2u8, 3u8]),
        (1u32, 0u32, [4u8, 5u8, 6u8]),
        (0u32, 1u32, [7u8, 8u8, 9u8]),
        (1u32, 1u32, [10u8, 11u8, 12u8]),
    ];
    let b = vec![
        (1u32, 1u32, [10u8, 11u8, 12u8]),
        (0u32, 1u32, [7u8, 8u8, 9u8]),
        (1u32, 0u32, [4u8, 5u8, 6u8]),
        (0u32, 0u32, [1u8, 2u8, 3u8]),
    ];
    let im_a = assemble_image(2, 2, &a);
    let im_b = assemble_image(2, 2, &b);
    assert_eq!(im_a.data, im_b.data);
    assert_eq!(im_a.get_pixel(1, 0), [4, 5, 6]);
}

#[test]
fn test_camera_default_center_ray() {
    let cam = Camera::default();
    let r = cam.get_ray(SCALE / 2, SCALE / 2);
    assert_eq!(r.origin, Vec3::new(0, 0, 0));
    assert_eq!(r.direction, Vec3::new(0, 0, -SCALE));
}

#[test]
fn test_camera_looks_along_axis() {
    let cam = Camera::new(
        Vec3::new(0, 0, 0),
        Vec3::new(0, 0, -4 * SCALE),
        Vec3::new(0, SCALE, 0),
        90 * SCALE,
        SCALE,
    );
    let r = cam.get_ray(SCALE / 2, SCALE / 2);
    assert_eq!(r.origin, Vec3::new(0, 0, 0));
    // The centre ray points forward; allow for rounding of the basis.
    assert!(r.direction.z < -SCALE / 2);
    assert!(r.direction.x.abs() < 2048 && r.direction.y.abs() < 2048);
}

#[test]
fn test_simple_renderer_dimensions() {
    let mut world = HittableList::new();
    world.add(Sphere::new(
        Vec3::new(0, 0, -2 * SCALE),
        SCALE / 2,
        MaterialKind::Lambertian(Lambertian::new(Vec3::new(SCALE / 2, SCALE / 2, SCALE / 2))),
    ));
    let cam = Camera::default();
    let renderer = SimpleRenderer::default();
    let im = renderer.render(world, &cam, 4, 3, 2, 4);
    assert_eq!(im.width, 4);
    assert_eq!(im.height, 3);
    assert_eq!(im.data.len(), 36);
}

#[test]
fn test_render_pixel_in_byte_range() {
    let world = HittableList::new();
    let cam = Camera::default();
    let p = render_pixel(&world, &cam, 8, 8, 4, 4, 3, 3);
    // An empty world yields the background, which is never black.
    assert!(p[2] > 0);
}

#[test]
fn test_random_scene_contents() {
    let world = random_scene();
    // The ground sphere and the three large ones are always present.
    assert!(world.objects.len() >= 4);
}

#[test]
fn test_camera_basis_exact() {
    // Axis-aligned anchors give an exactly representable basis.
    let cam = Camera::new(
        Vec3::new(0, 0, 0),
        Vec3::new(0, 0, -4 * SCALE),
        Vec3::new(0, SCALE, 0),
        90 * SCALE,
        SCALE,
    );
    assert_eq!(cam.w, Vec3::new(0, 0, SCALE));
    assert_eq!(cam.u, Vec3::new(SCALE, 0, 0));
    assert_eq!(cam.v, Vec3::new(0, SCALE, 0));
    assert_eq!(cam.origin, Vec3::new(0, 0, 0));
    assert_eq!(cam.lens_radius, 0);
}

#[test]
fn test_random_scene_structure() {
    let world = random_scene();
    let n = world.objects.len();
    assert!((4..=488).contains(&n));
    // The ground sphere comes first.
    assert_eq!(world.objects[0].center, Vec3::new(0, -65536000, 0));
    assert_eq!(world.objects[0].radius, 65536000);
    // The three landmark spheres come last.
    assert_eq!(world.objects[n - 3].center, Vec3::new(0, SCALE, 0));
    assert_eq!(world.objects[n - 2].center, Vec3::new(-4 * SCALE, SCALE, 0));
    assert_eq!(world.objects[n - 1].center, Vec3::new(4 * SCALE, SCALE, 0));
    assert_eq!(world.objects[n - 1].radius, SCALE);
    // Every sphere in between is a small one at the grid height.
    for k in 1..n - 3 {
        assert_eq!(world.objects[k].radius, 13107);
        assert_eq!(world.objects[k].center.y, 13107);
    }
}

#[test]
fn test_camera_dof_lens_radius() {
    let cam = Camera::new_with_depth_of_field(
        Vec3::new(13 * SCALE, 2 * SCALE, 3 * SCALE),
        Vec3::new(0, 0, 0),
        Vec3::new(0, SCALE, 0),
        20 * SCALE,
        (16 * SCALE) / 9,
        SCALE / 10,
        10 * SCALE,
    );
    assert_eq!(cam.lens_radius, SCALE / 20);
    assert_eq!(cam.origin, Vec3::new(13 * SCALE, 2 * SCALE, 3 * SCALE));
}
