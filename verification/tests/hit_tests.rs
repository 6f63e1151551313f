use raytracer::fixed::SCALE;
use raytracer::vec3::Vec3;
use raytracer::ray::Ray;
use raytracer::hittable::{Sphere, HittableList, HitRecord};
use raytracer::material::{Material, Lambertian};

fn v(x: i128, y: i128, z: i128) -> Vec3 {
    Vec3 { x, y, z }
}

fn gray() -> Material {
    Material::Lambertian(Lambertian { albedo: v(50_000_000, 50_000_000, 50_000_000) })
}

fn head_on_ray() -> Ray {
    Ray { origin: v(0, 0, 0), direction: v(0, 0, -SCALE) }
}

const T_MIN: i128 = 10_000;
const T_MAX: i128 = 1_000_000_000_000;

// A head-on hit reports the front intersection at t = 0.5 with an
// outward, front-facing unit normal, and the hit point lies on the
// sphere: |p - center|^2 equals radius^2 exactly here.
#[test]
fn sphere_head_on_hit() {
    let s = Sphere { center: v(0, 0, -SCALE), radius: 50_000_000, material: gray() };
    let rec = s.hit(&head_on_ray(), T_MIN, T_MAX).unwrap();
    assert_eq!(rec.t, 50_000_000);
    assert_eq!(rec.p, v(0, 0, -50_000_000));
    assert!(rec.front_face);
    assert_eq!(rec.normal, v(0, 0, SCALE));
    let offset = rec.p.sub(s.center);
    assert_eq!(offset.length_squared(), 25_000_000);
    assert_eq!(offset.length_squared(), raytracer::fixed::fmul(s.radius, s.radius));
}

// From inside the sphere the smaller root is behind the window, the
// larger is taken, the face is a back face, and the stored normal still
// opposes the ray direction.
#[test]
fn sphere_hit_from_inside() {
    let s = Sphere { center: v(0, 0, -SCALE), radius: 50_000_000, material: gray() };
    let r = Ray { origin: v(0, 0, -SCALE), direction: v(0, 0, -SCALE) };
    let rec = s.hit(&r, T_MIN, T_MAX).unwrap();
    assert_eq!(rec.t, 50_000_000);
    assert!(!rec.front_face);
    assert_eq!(rec.normal, v(0, 0, SCALE));
    assert!(rec.normal.dot(r.direction) <= 0);
}

#[test]
fn sphere_miss_behind() {
    let s = Sphere { center: v(0, 0, -SCALE), radius: 50_000_000, material: gray() };
    let r = Ray { origin: v(0, 0, 0), direction: v(0, 0, SCALE) };
    assert!(s.hit(&r, T_MIN, T_MAX).is_none());
}

#[test]
fn sphere_miss_sideways() {
    let s = Sphere { center: v(0, 0, -SCALE), radius: 50_000_000, material: gray() };
    let r = Ray { origin: v(0, 0, 0), direction: v(0, SCALE, 0) };
    assert!(s.hit(&r, T_MIN, T_MAX).is_none());
}

// A negative radius flips the outward normal inward (the hollow-shell
// device): the head-on hit becomes a back face with the same geometry.
#[test]
fn negative_radius_flips_normal() {
    let s = Sphere { center: v(0, 0, -SCALE), radius: -50_000_000, material: gray() };
    let rec = s.hit(&head_on_ray(), T_MIN, T_MAX).unwrap();
    assert_eq!(rec.t, 50_000_000);
    assert!(!rec.front_face);
    assert_eq!(rec.normal, v(0, 0, SCALE));
}

// The front-face flag is the sign of dot(direction, outward normal), and
// the stored normal never points along the ray.
#[test]
fn front_face_correction() {
    let out = v(0, 0, SCALE);
    let towards = Ray { origin: v(0, 0, 0), direction: v(0, 0, -SCALE) };
    let rec = HitRecord::new(v(0, 0, -50_000_000), 50_000_000, gray(), &towards, out);
    assert!(rec.front_face);
    assert_eq!(rec.normal, out);
    assert!(rec.normal.dot(towards.direction) <= 0);

    let away = Ray { origin: v(0, 0, 0), direction: v(0, 0, SCALE) };
    let rec2 = HitRecord::new(v(0, 0, -50_000_000), 50_000_000, gray(), &away, out);
    assert!(!rec2.front_face);
    assert_eq!(rec2.normal, v(0, 0, -SCALE));
    assert!(rec2.normal.dot(away.direction) <= 0);
}

// The aggregate reports the globally closest member hit, shrinking its
// window as it scans.
#[test]
fn list_closest_hit_wins() {
    let mut world = HittableList::new();
    world.add(Sphere { center: v(0, 0, -3 * SCALE), radius: 50_000_000, material: gray() });
    world.add(Sphere { center: v(0, 0, -SCALE), radius: 50_000_000, material: gray() });
    let rec = world.hit(&head_on_ray(), T_MIN, T_MAX).unwrap();
    assert_eq!(rec.t, 50_000_000);
    assert_eq!(rec.p, v(0, 0, -50_000_000));
}

#[test]
fn list_empty_reports_none() {
    let world = HittableList::new();
    assert!(world.hit(&head_on_ray(), T_MIN, T_MAX).is_none());
}

#[test]
fn list_clear_empties() {
    let mut world = HittableList::new();
    world.add(Sphere { center: v(0, 0, -SCALE), radius: 50_000_000, material: gray() });
    assert!(world.hit(&head_on_ray(), T_MIN, T_MAX).is_some());
    world.clear();
    assert!(world.hit(&head_on_ray(), T_MIN, T_MAX).is_none());
}

// The admissible window is open: a root exactly on an edge is rejected.
#[test]
fn window_edges_are_rejected() {
    let s = Sphere { center: v(0, 0, -SCALE), radius: 50_000_000, material: gray() };
    // the near root is exactly 0.5; with t_max there, no hit
    assert!(s.hit(&head_on_ray(), T_MIN, 50_000_000).is_none());
    // with t_min there, the far root at 1.5 is taken instead
    let rec = s.hit(&head_on_ray(), 50_000_000, T_MAX).unwrap();
    assert_eq!(rec.t, 150_000_000);
    assert!(!rec.front_face);
}

// Two members reporting the same root: the first-inserted one wins the
// exact tie, because the shrunken window is open at its far edge.
#[test]
fn first_member_wins_exact_tie() {
    let first = Material::Lambertian(Lambertian { albedo: v(10_000_000, 0, 0) });
    let second = Material::Lambertian(Lambertian { albedo: v(0, 10_000_000, 0) });
    let mut world = HittableList::new();
    world.add(Sphere { center: v(0, 0, -SCALE), radius: 50_000_000, material: first });
    world.add(Sphere { center: v(0, 0, -SCALE), radius: 50_000_000, material: second });
    let rec = world.hit(&head_on_ray(), T_MIN, T_MAX).unwrap();
    assert_eq!(rec.t, 50_000_000);
    assert_eq!(rec.material, first);
}
