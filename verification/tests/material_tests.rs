use raytracer::fixed::SCALE;
use raytracer::vec3::Vec3;
use raytracer::ray::Ray;
use raytracer::hittable::HitRecord;
use raytracer::material::{Material, Lambertian, Metal, Dielectric};
use raytracer::rng::seeded_rng;

fn v(x: i128, y: i128, z: i128) -> Vec3 {
    Vec3 { x, y, z }
}

fn record(material: Material) -> HitRecord {
    HitRecord {
        p: v(0, 0, -50_000_000),
        normal: v(0, SCALE, 0),
        t: 50_000_000,
        front_face: true,
        material,
    }
}

#[test]
fn lambertian_always_scatters() {
    let mut rng = seeded_rng(21);
    let lam = Lambertian { albedo: v(10_000_000, 20_000_000, 50_000_000) };
    let rec = record(Material::Lambertian(lam));
    let r_in = Ray { origin: v(0, 0, 0), direction: v(0, 0, -SCALE) };
    for _ in 0..50 {
        let (scattered, attenuation) = lam.scatter(&r_in, &rec, &mut rng).unwrap();
        assert_eq!(attenuation, lam.albedo);
        assert_eq!(scattered.origin, rec.p);
        assert!(!scattered.direction.is_near_zero());
    }
}

// With zero fuzz the metal reflection is the exact mirror image of the
// normalized incoming direction.
#[test]
fn metal_mirror_reflection() {
    let mut rng = seeded_rng(22);
    let met = Metal { albedo: v(80_000_000, 60_000_000, 20_000_000), fuzz: 0 };
    let rec = record(Material::Metal(met));
    let r_in = Ray { origin: v(-SCALE, SCALE, 0), direction: v(SCALE, -SCALE, 0) };
    let (scattered, attenuation) = met.scatter(&r_in, &rec, &mut rng).unwrap();
    assert_eq!(attenuation, met.albedo);
    assert_eq!(scattered.origin, rec.p);
    assert_eq!(scattered.direction, v(70_710_678, 70_710_678, 0));
    assert!(scattered.direction.dot(rec.normal) > 0);
}

// A grazing ray reflected into the surface is absorbed.
#[test]
fn metal_absorbs_into_surface() {
    let mut rng = seeded_rng(23);
    let met = Metal { albedo: v(80_000_000, 60_000_000, 20_000_000), fuzz: 0 };
    let mut rec = record(Material::Metal(met));
    rec.normal = v(0, -SCALE, 0);
    let r_in = Ray { origin: v(-SCALE, SCALE, 0), direction: v(SCALE, -SCALE, 0) };
    assert!(met.scatter(&r_in, &rec, &mut rng).is_none());
}

// Reflectance at normal incidence is exactly r0; for a ratio of 1.5 that
// is the textbook 0.04.
#[test]
fn reflectance_normal_incidence() {
    assert_eq!(Dielectric::reflectance(SCALE, 150_000_000), 4_000_000);
}

// Reflectance never decreases as the cosine falls toward zero.
#[test]
fn reflectance_monotone_in_cosine() {
    let ir = 150_000_000;
    let full = Dielectric::reflectance(SCALE, ir);
    let half = Dielectric::reflectance(50_000_000, ir);
    let grazing = Dielectric::reflectance(0, ir);
    assert!(full <= half);
    assert!(half <= grazing);
    assert_eq!(full, 4_000_000);
}

#[test]
fn dielectric_always_scatters_white() {
    let mut rng = seeded_rng(24);
    let die = Dielectric { ir: 150_000_000 };
    let rec = record(Material::Dielectric(die));
    let r_in = Ray { origin: v(0, SCALE, 0), direction: v(0, -SCALE, 0) };
    for _ in 0..20 {
        let (scattered, attenuation) = die.scatter(&r_in, &rec, &mut rng).unwrap();
        assert_eq!(attenuation, v(SCALE, SCALE, SCALE));
        assert_eq!(scattered.origin, rec.p);
    }
}

// Total internal reflection: leaving a dense medium at 45 degrees with
// ir = 1.5 forces the reflected direction, independent of the draw.
#[test]
fn dielectric_total_internal_reflection() {
    let mut rng = seeded_rng(25);
    let die = Dielectric { ir: 150_000_000 };
    let mut rec = record(Material::Dielectric(die));
    rec.front_face = false;
    let r_in = Ray { origin: v(-SCALE, SCALE, 0), direction: v(SCALE, -SCALE, 0) };
    for _ in 0..20 {
        let (scattered, _) = die.scatter(&r_in, &rec, &mut rng).unwrap();
        assert_eq!(scattered.direction, v(70_710_678, 70_710_678, 0));
    }
}
