use raytracer::fixed::{SCALE, fmul, fdiv, fsqrt, tdiv_exec, clamp};
use raytracer::vec3::Vec3;

fn v(x: i128, y: i128, z: i128) -> Vec3 {
    Vec3 { x, y, z }
}

#[test]
fn fixed_point_scalars() {
    assert_eq!(fmul(SCALE, SCALE), SCALE);
    assert_eq!(fmul(50_000_000, 50_000_000), 25_000_000);
    assert_eq!(fmul(-50_000_000, 50_000_000), -25_000_000);
    assert_eq!(fdiv(SCALE, 2 * SCALE), 50_000_000);
    assert_eq!(fdiv(-SCALE, 2 * SCALE), -50_000_000);
    assert_eq!(fsqrt(SCALE), SCALE);
    assert_eq!(fsqrt(25_000_000), 50_000_000);
    assert_eq!(fsqrt(0), 0);
    assert_eq!(tdiv_exec(-7, 2), -3);
    assert_eq!(tdiv_exec(7, 2), 3);
    assert_eq!(clamp(5, 0, 3), 3);
    assert_eq!(clamp(-5, 0, 3), 0);
    assert_eq!(clamp(2, 0, 3), 2);
}

#[test]
fn componentwise_arithmetic() {
    let a = v(SCALE, 2 * SCALE, -SCALE);
    let b = v(SCALE, -SCALE, 3 * SCALE);
    assert_eq!(a.add(b), v(2 * SCALE, SCALE, 2 * SCALE));
    assert_eq!(a.sub(b), v(0, 3 * SCALE, -4 * SCALE));
    assert_eq!(a.neg(), v(-SCALE, -2 * SCALE, SCALE));
    assert_eq!(a.mul(b), v(SCALE, -2 * SCALE, -3 * SCALE));
    assert_eq!(a.scale(2 * SCALE), v(2 * SCALE, 4 * SCALE, -2 * SCALE));
    assert_eq!(a.divide(2 * SCALE), v(50_000_000, SCALE, -50_000_000));
}

#[test]
fn dot_cross_length() {
    let a = v(SCALE, 0, 0);
    let b = v(0, SCALE, 0);
    assert_eq!(a.dot(b), 0);
    assert_eq!(a.dot(a), SCALE);
    assert_eq!(a.cross(b), v(0, 0, SCALE));
    assert_eq!(b.cross(a), v(0, 0, -SCALE));
    let p = v(3 * SCALE, 4 * SCALE, 0);
    assert_eq!(p.length_squared(), 25 * SCALE);
    assert_eq!(p.length(), 5 * SCALE);
}

#[test]
fn unit_vector_exact_cases() {
    let d = v(0, 0, -SCALE);
    assert_eq!(d.unit_vector(), v(0, 0, -SCALE));
    let p = v(3 * SCALE, 4 * SCALE, 0);
    assert_eq!(p.unit_vector(), v(60_000_000, 80_000_000, 0));
}

#[test]
fn near_zero_threshold() {
    assert!(v(0, 0, 0).is_near_zero());
    assert!(!v(1, 0, 0).is_near_zero());
    assert!(!v(0, 0, -1).is_near_zero());
}

// Reflection preserves magnitude: reflecting a vector about a unit-length
// normal keeps its squared length.
#[test]
fn reflect_preserves_magnitude() {
    let vv = v(SCALE, -SCALE, 0);
    let n = v(0, SCALE, 0);
    let r = vv.reflect(n);
    assert_eq!(r, v(SCALE, SCALE, 0));
    assert_eq!(r.length_squared(), vv.length_squared());

    let w = v(2 * SCALE, -3 * SCALE, SCALE);
    let rw = w.reflect(n);
    assert_eq!(rw, v(2 * SCALE, 3 * SCALE, SCALE));
    assert_eq!(rw.length_squared(), w.length_squared());
}

#[test]
fn refract_straight_through() {
    let uv = v(0, 0, -SCALE);
    let n = v(0, 0, SCALE);
    let r = uv.refract(n, SCALE);
    assert_eq!(r, v(0, 0, -SCALE));
}
