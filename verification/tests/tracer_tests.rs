use raytracer::fixed::SCALE;
use raytracer::vec3::Vec3;
use raytracer::ray::Ray;
use raytracer::hittable::{Sphere, HittableList};
use raytracer::material::{Material, Lambertian};
use raytracer::tracer::ray_color;
use raytracer::camera::Camera;
use raytracer::color::to_rgb;
use raytracer::rng::seeded_rng;

fn v(x: i128, y: i128, z: i128) -> Vec3 {
    Vec3 { x, y, z }
}

fn head_on_ray() -> Ray {
    Ray { origin: v(0, 0, 0), direction: v(0, 0, -SCALE) }
}

// Exhausted depth is exactly black, whatever the ray or the scene.
#[test]
fn depth_zero_is_black() {
    let mut rng = seeded_rng(31);
    let mut world = HittableList::new();
    assert_eq!(ray_color(&head_on_ray(), &world, 0, &mut rng), v(0, 0, 0));
    world.add(Sphere {
        center: v(0, 0, -SCALE),
        radius: 50_000_000,
        material: Material::Lambertian(Lambertian { albedo: v(SCALE, 0, 0) }),
    });
    let sideways = Ray { origin: v(SCALE, 0, 0), direction: v(0, SCALE, 0) };
    assert_eq!(ray_color(&sideways, &world, 0, &mut rng), v(0, 0, 0));
}

// An empty scene returns the exact background gradient; straight down the
// view axis the blend parameter is one half, giving (0.75, 0.85, 1.0).
#[test]
fn empty_scene_background_gradient() {
    let mut rng = seeded_rng(32);
    let world = HittableList::new();
    let c = ray_color(&head_on_ray(), &world, 5, &mut rng);
    assert_eq!(c, v(75_000_000, 85_000_000, SCALE));
}

// Straight up the gradient is pure sky blue; straight down, pure white.
#[test]
fn background_gradient_extremes() {
    let mut rng = seeded_rng(33);
    let world = HittableList::new();
    let up = Ray { origin: v(0, 0, 0), direction: v(0, SCALE, 0) };
    assert_eq!(ray_color(&up, &world, 5, &mut rng), v(50_000_000, 70_000_000, SCALE));
    let down = Ray { origin: v(0, 0, 0), direction: v(0, -SCALE, 0) };
    assert_eq!(ray_color(&down, &world, 5, &mut rng), v(SCALE, SCALE, SCALE));
}

// A single diffuse sphere hit head-on returns a non-background color once
// bounces are allowed.
#[test]
fn single_sphere_shades_non_background() {
    let mut rng = seeded_rng(34);
    let mut world = HittableList::new();
    world.add(Sphere {
        center: v(0, 0, -SCALE),
        radius: 50_000_000,
        material: Material::Lambertian(Lambertian {
            albedo: v(50_000_000, 50_000_000, 50_000_000),
        }),
    });
    let background = v(75_000_000, 85_000_000, SCALE);
    for _ in 0..20 {
        let c = ray_color(&head_on_ray(), &world, 5, &mut rng);
        assert_ne!(c, background);
        // attenuated at least once: no channel can reach the background's
        assert!(c.x <= 50_000_000 && c.y <= 50_000_000 && c.z <= 50_000_000);
    }
}

// The canonical 90-degree camera (tangent of the half angle is one) maps
// the image center exactly onto the view axis.
#[test]
fn camera_center_ray_points_down_axis() {
    let mut rng = seeded_rng(35);
    let cam = Camera::new(
        v(0, 0, 0),
        v(0, 0, -SCALE),
        v(0, SCALE, 0),
        SCALE,
        SCALE,
        0,
        SCALE,
    );
    let r = cam.get_ray(50_000_000, 50_000_000, &mut rng);
    assert_eq!(r.origin, v(0, 0, 0));
    assert_eq!(r.direction, v(0, 0, -SCALE));
}

#[test]
fn camera_corner_rays() {
    let mut rng = seeded_rng(36);
    let cam = Camera::new(
        v(0, 0, 0),
        v(0, 0, -SCALE),
        v(0, SCALE, 0),
        SCALE,
        SCALE,
        0,
        SCALE,
    );
    let r = cam.get_ray(0, 0, &mut rng);
    assert_eq!(r.direction, v(-SCALE, -SCALE, -SCALE));
    let r2 = cam.get_ray(SCALE, SCALE, &mut rng);
    assert_eq!(r2.direction, v(SCALE, SCALE, -SCALE));
}

// Pixel conversion: averaging, gamma by square root, clamp, 0..255.
#[test]
fn pixel_conversion() {
    assert_eq!(to_rgb(&v(0, 0, 0), 1), (0, 0, 0));
    assert_eq!(to_rgb(&v(2 * SCALE, 2 * SCALE, 2 * SCALE), 2), (255, 255, 255));
    // a quarter becomes a half after gamma, then 128
    assert_eq!(to_rgb(&v(25_000_000, 0, 0), 1), (128, 0, 0));
    // negative channels are floored at black
    assert_eq!(to_rgb(&v(-SCALE, 0, 0), 1), (0, 0, 0));
}
