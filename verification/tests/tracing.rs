//! Intersection and scattering behaviour on exactly representable
//! configurations.

use raytracer::{SCALE, Vec3, Ray, Hittable, HittableList, HitRecord, Sphere, SimpleSphere};
use raytracer::materials::{Lambertian, Metal, Dielectric, Material, MaterialKind, ScatterSample};
use raytracer::sphere::hit_sphere;
use raytracer::utils::{reflect, refract, schlick};
use raytracer::renderers::ray_color;

fn half() -> i64 {
    SCALE / 2
}

#[test]
fn test_sphere_axis_hit() {
    // A sphere of radius one half, one unit in front of the origin, hit by
    // the axis ray: the nearest hit is at exactly t = 0.5.
    let s = SimpleSphere::new(Vec3::new(0, 0, -SCALE), half());
    let ray = Ray::new(Vec3::new(0, 0, 0), Vec3::new(0, 0, -SCALE));
    let rec = s.hit(&ray, 0, 10 * SCALE).expect("the axis ray must hit");
    assert_eq!(rec.distance, half());
    assert!(rec.is_front_face);
    assert_eq!(rec.normal, Vec3::new(0, 0, SCALE));
    assert_eq!(rec.point, Vec3::new(0, 0, -half()));
}

#[test]
fn test_sphere_tangent_is_miss() {
    // A ray grazing the sphere exactly: discriminant zero counts as a miss.
    let s = SimpleSphere::new(Vec3::new(0, 0, -SCALE), half());
    let ray = Ray::new(Vec3::new(half(), 0, 0), Vec3::new(0, 0, -SCALE));
    assert!(s.hit(&ray, 0, 10 * SCALE).is_none());
}

#[test]
fn test_sphere_behind_is_miss() {
    let s = SimpleSphere::new(Vec3::new(0, 0, -SCALE), half());
    let ray = Ray::new(Vec3::new(0, 0, 0), Vec3::new(0, 0, SCALE));
    assert!(s.hit(&ray, 0, 10 * SCALE).is_none());
}

#[test]
fn test_hit_sphere_discriminant() {
    let center = Vec3::new(0, 0, -SCALE);
    let toward = Ray::new(Vec3::new(0, 0, 0), Vec3::new(0, 0, -SCALE));
    let away = Ray::new(Vec3::new(0, 0, 0), Vec3::new(SCALE, 0, 0));
    assert!(hit_sphere(&center, half(), &toward));
    assert!(!hit_sphere(&center, half(), &away));
}

#[test]
fn test_reflect_head_on() {
    let d = Vec3::new(0, 0, -SCALE);
    let n = Vec3::new(0, 0, SCALE);
    assert_eq!(reflect(d, n), Vec3::new(0, 0, SCALE));
}

#[test]
fn test_reflect_grazing() {
    // A direction orthogonal to the normal reflects to itself.
    let d = Vec3::new(SCALE, 0, 0);
    let n = Vec3::new(0, 0, SCALE);
    assert_eq!(reflect(d, n), d);
}

#[test]
fn test_reflect_angle_preserved() {
    // 45 degrees in, 45 degrees out: (1,0,-1)/sqrt2 about the z normal.
    let d = Vec3::new(46341, 0, -46341);
    let n = Vec3::new(0, 0, SCALE);
    let r = reflect(d, n);
    assert_eq!(r, Vec3::new(46341, 0, 46341));
}

fn head_on_record(material: MaterialKind) -> (Ray, HitRecord) {
    let ray = Ray::new(Vec3::new(0, 0, 0), Vec3::new(0, 0, -SCALE));
    let rec = HitRecord::new_with_material(
        Vec3::new(0, 0, SCALE),
        &ray,
        SCALE,
        Vec3::new(0, 0, -SCALE),
        material,
    );
    (ray, rec)
}

#[test]
fn test_lambertian_never_absorbs() {
    let albedo = Vec3::new(SCALE / 2, SCALE / 2, SCALE / 2);
    let m = Lambertian::new(albedo);
    let (ray, rec) = head_on_record(MaterialKind::Lambertian(m));
    for _ in 0..32 {
        let samp = ScatterSample::draw();
        let out = m.scatter(&ray, &rec, &samp);
        let (scattered, attenuation) = out.expect("diffuse scatter never absorbs");
        assert_eq!(scattered.origin, rec.point);
        assert_eq!(attenuation, albedo);
    }
}

#[test]
fn test_metal_perfect_mirror() {
    // Zero roughness: the outgoing direction is the exact reflection.
    let albedo = Vec3::new(SCALE, SCALE, SCALE);
    let m = Metal::new(albedo, 0);
    let (ray, rec) = head_on_record(MaterialKind::Metal(m));
    let samp = ScatterSample { unit: Vec3::new(12345, -23456, 7), coin: 99 };
    let (scattered, attenuation) = m.scatter(&ray, &rec, &samp).expect("mirror reflects");
    assert_eq!(scattered.direction, Vec3::new(0, 0, SCALE));
    assert_eq!(attenuation, albedo);
}

#[test]
fn test_dielectric_matched_media() {
    // A refractive index of one: the ray passes straight through.
    let m = Dielectric::new(SCALE);
    let (ray, rec) = head_on_record(MaterialKind::Dielectric(m));
    let samp = ScatterSample { unit: Vec3::new(0, 0, 0), coin: 0 };
    let (scattered, attenuation) = m.scatter(&ray, &rec, &samp).expect("dielectric never absorbs");
    assert_eq!(scattered.direction, Vec3::new(0, 0, -SCALE));
    assert_eq!(attenuation, Vec3::new(SCALE, SCALE, SCALE));
}

#[test]
fn test_dielectric_glass_refracts_down() {
    // Entering glass head on with a fresh coin: still straight through.
    let m = Dielectric::new(98304);
    let (ray, rec) = head_on_record(MaterialKind::Dielectric(m));
    let samp = ScatterSample { unit: Vec3::new(0, 0, 0), coin: 60000 };
    let (scattered, _) = m.scatter(&ray, &rec, &samp).expect("dielectric never absorbs");
    assert_eq!(scattered.direction, Vec3::new(0, 0, -SCALE));
}

#[test]
fn test_schlick_normal_incidence() {
    // Head on against glass of index 1.5: about four percent reflectance.
    assert_eq!(schlick(SCALE, 98304), 2621);
}

#[test]
fn test_refract_head_on() {
    let uv = Vec3::new(0, 0, -SCALE);
    let n = Vec3::new(0, 0, SCALE);
    assert_eq!(refract(uv, n, SCALE), uv);
}

#[test]
fn test_nearest_hit_either_order() {
    // Two spheres along one ray: the nearer one wins whatever the
    // insertion order.
    let albedo = Vec3::new(SCALE / 2, SCALE / 2, SCALE / 2);
    let near = Sphere::new(
        Vec3::new(0, 0, -2 * SCALE),
        half(),
        MaterialKind::Lambertian(Lambertian::new(albedo)),
    );
    let far = Sphere::new(
        Vec3::new(0, 0, -4 * SCALE),
        half(),
        MaterialKind::Lambertian(Lambertian::new(albedo)),
    );
    let ray = Ray::new(Vec3::new(0, 0, 0), Vec3::new(0, 0, -SCALE));

    let mut world_a = HittableList::new();
    world_a.add(near);
    world_a.add(far);
    let rec_a = world_a.hit(&ray, 65, 0x1000000000).expect("hit");
    assert_eq!(rec_a.distance, 98304);

    let near2 = Sphere::new(
        Vec3::new(0, 0, -2 * SCALE),
        half(),
        MaterialKind::Lambertian(Lambertian::new(albedo)),
    );
    let far2 = Sphere::new(
        Vec3::new(0, 0, -4 * SCALE),
        half(),
        MaterialKind::Lambertian(Lambertian::new(albedo)),
    );
    let mut world_b = HittableList::new();
    world_b.add(far2);
    world_b.add(near2);
    let rec_b = world_b.hit(&ray, 65, 0x1000000000).expect("hit");
    assert_eq!(rec_b.distance, 98304);
}

#[test]
fn test_nearest_hit_tie_breaks_by_insertion() {
    // Two identical spheres: exactly equal distances, so the first
    // inserted keeps the hit.
    let albedo = Vec3::new(SCALE / 2, SCALE / 2, SCALE / 2);
    let first = Sphere::new(
        Vec3::new(0, 0, -2 * SCALE),
        half(),
        MaterialKind::Lambertian(Lambertian::new(albedo)),
    );
    let second = Sphere::new(
        Vec3::new(0, 0, -2 * SCALE),
        half(),
        MaterialKind::Metal(Metal::new(albedo, 0)),
    );
    let ray = Ray::new(Vec3::new(0, 0, 0), Vec3::new(0, 0, -SCALE));
    let mut world = HittableList::new();
    world.add(first);
    world.add(second);
    let rec = world.hit(&ray, 65, 0x1000000000).expect("hit");
    assert_eq!(rec.distance, 98304);
    assert!(matches!(rec.material, Some(MaterialKind::Lambertian(_))));
}

#[test]
fn test_ray_color_depth_exhausted_is_black() {
    let world = HittableList::new();
    let ray = Ray::new(Vec3::new(0, 0, 0), Vec3::new(0, 0, -SCALE));
    assert_eq!(ray_color(&ray, &world, 0), Vec3::new(0, 0, 0));
}

#[test]
fn test_ray_color_miss_is_background() {
    // A horizontal ray in an empty world: halfway between white and sky
    // blue, exactly.
    let world = HittableList::new();
    let ray = Ray::new(Vec3::new(0, 0, 0), Vec3::new(0, 0, -SCALE));
    let c = ray_color(&ray, &world, 8);
    assert_eq!(c, Vec3::new(49152, 55705, SCALE));
}

#[test]
fn test_ray_color_upward_is_sky() {
    // Straight up: pure sky blue.
    let world = HittableList::new();
    let ray = Ray::new(Vec3::new(0, 0, 0), Vec3::new(0, SCALE, 0));
    let c = ray_color(&ray, &world, 8);
    assert_eq!(c, Vec3::new(32768, 45875, SCALE));
}

#[test]
fn test_ray_color_in_range() {
    let mut world = HittableList::new();
    world.add(Sphere::new(
        Vec3::new(0, 0, -2 * SCALE),
        half(),
        MaterialKind::Lambertian(Lambertian::new(Vec3::new(SCALE / 2, SCALE / 2, SCALE / 2))),
    ));
    for _ in 0..16 {
        let ray = Ray::new(Vec3::new(0, 0, 0), Vec3::new(0, 0, -SCALE));
        let c = ray_color(&ray, &world, 16);
        assert!(0 <= c.x && c.x <= SCALE);
        assert!(0 <= c.y && c.y <= SCALE);
        assert!(0 <= c.z && c.z <= SCALE);
    }
}
