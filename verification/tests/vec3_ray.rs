//! Vector and ray arithmetic, at scale: one unit is 65536.

use raytracer::{SCALE, Vec3, Ray};

#[test]
fn test_vec3_default() {
    let u = Vec3::default();
    assert_eq!(u.x(), 0);
    assert_eq!(u.y(), 0);
    assert_eq!(u.z(), 0);
}

#[test]
fn test_vec3_new() {
    let u = Vec3::new(SCALE, 2 * SCALE, 3 * SCALE);
    assert_eq!(u.x(), SCALE);
    assert_eq!(u.y(), 2 * SCALE);
    assert_eq!(u.z(), 3 * SCALE);
    assert_eq!(u.length_squared(), 14 * SCALE);
    // The length is the integer square root of the raw squared length.
    let l = u.length();
    assert!(l * l <= 14 * SCALE * SCALE);
    assert!((l + 1) * (l + 1) > 14 * SCALE * SCALE);
}

#[test]
fn test_vec3_dot() {
    let u = Vec3::new(SCALE, 2 * SCALE, 3 * SCALE);
    let v = Vec3::new(4 * SCALE, 5 * SCALE, 6 * SCALE);
    assert_eq!(u.dot(v), 32 * SCALE);
}

#[test]
fn test_vec3_cross() {
    let u = Vec3::new(SCALE, 2 * SCALE, 3 * SCALE);
    let v = Vec3::new(4 * SCALE, 5 * SCALE, 6 * SCALE);
    let result = Vec3::new(-3 * SCALE, 6 * SCALE, -3 * SCALE);
    assert_eq!(u.cross(&v), result);
}

#[test]
fn test_vec3_ops() {
    let u = Vec3::new(SCALE, 2 * SCALE, 3 * SCALE);
    let v = Vec3::new(4 * SCALE, 5 * SCALE, 6 * SCALE);
    let t = 2 * SCALE;

    let sum = Vec3::new(5 * SCALE, 7 * SCALE, 9 * SCALE);
    assert_eq!(u.add(v), sum);

    let diff = Vec3::new(-3 * SCALE, -3 * SCALE, -3 * SCALE);
    assert_eq!(u.sub(v), diff);

    let scaled_u = Vec3::new(2 * SCALE, 4 * SCALE, 6 * SCALE);
    assert_eq!(u.scale(t), scaled_u);

    let scaled_u = Vec3::new(2 * SCALE, 4 * SCALE, 6 * SCALE);
    assert_eq!(scaled_u.div_by(t), u);

    let product = Vec3::new(4 * SCALE, 10 * SCALE, 18 * SCALE);
    assert_eq!(u.mul(v), product);

    assert_eq!(u.neg(), Vec3::new(-SCALE, -2 * SCALE, -3 * SCALE));
}

#[test]
fn test_at() {
    let origin = Vec3::new(0, 0, 0);
    let dir = Vec3::new(SCALE, SCALE, SCALE);
    let ray = Ray::new(origin, dir);
    assert_eq!(ray.at(5 * SCALE), Vec3::new(5 * SCALE, 5 * SCALE, 5 * SCALE));
}

#[test]
fn test_unit_vector() {
    let u = Vec3::new(3 * SCALE, 4 * SCALE, 0);
    // A 3-4-5 triangle: the length and the unit vector are exact.
    assert_eq!(u.length(), 5 * SCALE);
    let n = u.unit();
    assert_eq!(n, Vec3::new(39321, 52428, 0));
    // 3/5 = 0.6 and 4/5 = 0.8, floored at scale.
    assert_eq!(39321, (3 * SCALE * SCALE) / (5 * SCALE));
}

#[test]
fn test_to_rgb() {
    let c = Vec3::new(0, SCALE / 2, SCALE);
    assert_eq!(c.to_rgb(), [0, 128, 255]);
}
