use raytracer::fixed::SCALE;
use raytracer::rng::{seeded_rng, get_rand, get_rand_range};
use raytracer::vec3::Vec3;

// Rejection samplers never report a point whose squared length reaches
// one, over repeated trials.
#[test]
fn unit_sphere_samples_stay_inside() {
    let mut rng = seeded_rng(7);
    for _ in 0..200 {
        let p = Vec3::random_in_unit_sphere(&mut rng);
        assert!(p.length_squared() < SCALE);
    }
}

#[test]
fn unit_disk_samples_stay_inside() {
    let mut rng = seeded_rng(11);
    for _ in 0..200 {
        let p = Vec3::random_in_unit_disk(&mut rng);
        assert!(p.length_squared() < SCALE);
        assert_eq!(p.z, 0);
    }
}

#[test]
fn raw_draws_stay_in_range() {
    let mut rng = seeded_rng(3);
    for _ in 0..200 {
        let u = get_rand(&mut rng);
        assert!(0 <= u && u < SCALE);
        let w = get_rand_range(&mut rng, -SCALE, SCALE);
        assert!(-SCALE <= w && w < SCALE);
    }
}

#[test]
fn hemisphere_samples_respect_normal() {
    let mut rng = seeded_rng(5);
    let normal = Vec3 { x: 0, y: SCALE, z: 0 };
    for _ in 0..200 {
        let p = Vec3::random_in_hemisphere(&mut rng, normal);
        assert!(p.dot(normal) >= 0);
        assert!(p.length_squared() < SCALE);
    }
}

#[test]
fn unit_vector_samples_are_normalized() {
    let mut rng = seeded_rng(13);
    for _ in 0..100 {
        let p = Vec3::random_unit_vector(&mut rng);
        let ls = p.length_squared();
        // within a grid step of one in squared length
        assert!(ls > SCALE - 50_000 && ls < SCALE + 50_000, "squared length {}", ls);
    }
}
