//! Recursive shading, quantization, and whole-image rendering.

use raytracer::camera::{Camera, ASPECT_RATIO};
use raytracer::fx::ONE;
use raytracer::image::Image;
use raytracer::material::Material;
use raytracer::ray::Ray;
use raytracer::render::{ray_color, render, translate_color};
use raytracer::rng::rng_from_seed;
use raytracer::shapes::Sphere;
use raytracer::vec3::Vector3;
use raytracer::world::World;

fn one_sphere_world() -> World {
    let mut world = World::new();
    world.push(Sphere::new(
        Vector3::new(0, 0, -3 * ONE),
        ONE,
        Material::Lambertian { albedo: Vector3::from_elem(ONE / 2) },
    ));
    world
}

#[test]
fn depth_zero_is_black() {
    // Exhausted recursion yields black whatever the scene holds.
    let world = one_sphere_world();
    let ray = Ray::from(Vector3::zeros(), Vector3::new(0, 0, -ONE), 0);
    let mut rng = rng_from_seed(1);
    assert_eq!(ray_color(ray, &world, 0, &mut rng), Vector3::zeros());
    let empty = World::new();
    assert_eq!(ray_color(ray, &empty, 0, &mut rng), Vector3::zeros());
}

#[test]
fn escaped_ray_sees_background_gradient() {
    let empty = World::new();
    let mut rng = rng_from_seed(1);
    // Straight up: the blend is pure sky blue.
    let up = Ray::from(Vector3::zeros(), Vector3::new(0, 3 * ONE, 0), 0);
    assert_eq!(ray_color(up, &empty, 8, &mut rng), Vector3::new(32768, 45875, ONE));
    // Horizontal: the halfway blend.
    let level = Ray::from(Vector3::zeros(), Vector3::new(0, 0, -7 * ONE), 0);
    assert_eq!(ray_color(level, &empty, 8, &mut rng), Vector3::new(49152, 55705, ONE));
    // Straight down: pure white.
    let down = Ray::from(Vector3::zeros(), Vector3::new(0, -ONE, 0), 0);
    assert_eq!(ray_color(down, &empty, 8, &mut rng), Vector3::new(ONE, ONE, ONE));
}

#[test]
fn mirror_corridor_terminates_at_depth() {
    // Two facing mirrors: the path can only end by running out of
    // depth, so the color is black, at any budget.
    let mirror = Material::Metal { albedo: Vector3::from_elem(ONE), fuzz: 0 };
    let mut world = World::new();
    world.push(Sphere::new(Vector3::new(0, 0, -103 * ONE), 100 * ONE, mirror));
    world.push(Sphere::new(Vector3::new(0, 0, 103 * ONE), 100 * ONE, mirror));
    let ray = Ray::from(Vector3::zeros(), Vector3::new(0, 0, -ONE), 0);
    let mut rng = rng_from_seed(3);
    assert_eq!(ray_color(ray, &world, 5, &mut rng), Vector3::zeros());
}

#[test]
fn translate_color_quantizes_exactly() {
    // One sample: full intensity clamps at 0.999 and lands on 255;
    // quarter intensity gamma-corrects to one half, then 127.
    assert_eq!(translate_color(Vector3::new(ONE, ONE / 4, 0), 1), [255, 127, 0]);
    // Oversaturated channels clamp to the same 255.
    assert_eq!(translate_color(Vector3::from_elem(40 * ONE), 1), [255, 255, 255]);
    // Averaging: four samples of full white equal one sample of it.
    assert_eq!(translate_color(Vector3::from_elem(4 * ONE), 4), [255, 255, 255]);
    assert_eq!(translate_color(Vector3::zeros(), 100), [0, 0, 0]);
}

#[test]
fn image_height_follows_aspect_ratio() {
    let img = Image::from_width(ASPECT_RATIO, 1200);
    assert_eq!(img.width, 1200);
    assert_eq!(img.height, 800);
    let square = Image::from_width(ONE, 640);
    assert_eq!(square.height, 640);
}

#[test]
fn camera_basis_for_axis_pose_is_exact() {
    let cam = Camera::new(
        Vector3::zeros(),
        Vector3::new(0, 0, -ONE),
        Vector3::new(0, ONE, 0),
        ONE,
        0,
        0,
    );
    assert_eq!(cam.u, Vector3::new(ONE, 0, 0));
    assert_eq!(cam.v, Vector3::new(0, ONE, 0));
    assert_eq!(cam.viewport.height, 2 * ONE);
    assert_eq!(cam.viewport.width, 3 * ONE);
    assert_eq!(cam.horizontal, Vector3::new(30 * ONE, 0, 0));
    assert_eq!(cam.vertical, Vector3::new(0, 20 * ONE, 0));
    assert_eq!(cam.llc(), Vector3::new(-15 * ONE, -10 * ONE, -10 * ONE));
}

#[test]
fn render_is_deterministic_for_a_seed() {
    // The same scene, camera, sample count and seed give the same
    // bytes, twice.
    let mut world = one_sphere_world();
    world.push(Sphere::new(
        Vector3::new(2 * ONE, 0, -4 * ONE),
        ONE,
        Material::Metal { albedo: Vector3::from_elem(ONE / 2), fuzz: ONE / 4 },
    ));
    world.push(Sphere::new(
        Vector3::new(-2 * ONE, 0, -4 * ONE),
        ONE,
        Material::Dielectric { ir: 3 * ONE / 2 },
    ));
    let cam = Camera::new(
        Vector3::zeros(),
        Vector3::new(0, 0, -ONE),
        Vector3::new(0, ONE, 0),
        ONE,
        0,
        ONE,
    );
    let img = Image::from_width(ASPECT_RATIO, 9);
    assert_eq!(img.height, 6);
    let first = render(&world, img, &cam, 4, 6, 0xFACE);
    let second = render(&world, img, &cam, 4, 6, 0xFACE);
    assert_eq!(first.len(), 9 * 6);
    assert_eq!(first, second);
    // A different seed samples differently somewhere.
    let third = render(&world, img, &cam, 4, 6, 0xBEEF);
    assert_ne!(first, third);
}

#[test]
fn lone_low_sphere_renders_background_on_top_row() {
    // A single huge sphere far below the camera: the top half of the
    // image sees only the background gradient. The top-row center
    // pixel must match the analytic blend for its ray within a few
    // counts (sub-pixel and lens jitter move the ray slightly).
    let mut world = World::new();
    world.push(Sphere::new(
        Vector3::new(0, -102 * ONE, 0),
        100 * ONE,
        Material::Lambertian { albedo: Vector3::from_elem(ONE / 2) },
    ));
    let cam = Camera::new(
        Vector3::zeros(),
        Vector3::new(0, 0, -ONE),
        Vector3::new(0, ONE, 0),
        ONE,
        0,
        0,
    );
    let img = Image::from_width(ASPECT_RATIO, 12);
    assert_eq!(img.height, 8);
    let buf = render(&world, img, &cam, 1, 4, 7);

    // Analytic expectation for the center of the top row, in floats,
    // taken at the middle of the pixel's jitter footprint.
    let (w, h) = (img.width as f64, img.height as f64);
    let u = (w / 2.0 + 0.5) / (w - 1.0);
    let v = (h - 1.0 + 0.5) / (h - 1.0);
    // Viewport: x spans [-15, 15], y spans [-10, 10], plane z = -10.
    let dir = (30.0 * u - 15.0, 20.0 * v - 10.0, -10.0f64);
    let len = (dir.0 * dir.0 + dir.1 * dir.1 + dir.2 * dir.2).sqrt();
    let t = 0.5 * (dir.1 / len + 1.0);
    let blend = |white: f64, blue: f64| (1.0 - t) * white + t * blue;
    let expect = [blend(1.0, 0.5), blend(1.0, 0.7), blend(1.0, 1.0)];
    let expect_bytes: Vec<i64> =
        expect.iter().map(|c| (255.999 * c.sqrt().clamp(0.0, 0.999)) as i64).collect();

    let px = buf[img.width / 2];
    for k in 0..3 {
        let got = px[k] as i64;
        assert!(
            (got - expect_bytes[k]).abs() <= 8,
            "channel {k}: got {got}, expected about {}",
            expect_bytes[k]
        );
    }

    // And the sphere does darken the bottom of the image: the bottom
    // center pixel is not the pure background for a downward ray,
    // which would be near white.
    let bottom = buf[(img.height - 1) * img.width + img.width / 2];
    assert!(bottom[2] < 230);
}
