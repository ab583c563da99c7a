//! Vector algebra, ray evaluation and sphere/scene intersection.

use raytracer::fx::ONE;
use raytracer::hittable::Hittable;
use raytracer::material::Material;
use raytracer::ray::Ray;
use raytracer::shapes::Sphere;
use raytracer::vec3::Vector3;
use raytracer::world::World;

fn lambertian_gray() -> Material {
    Material::Lambertian { albedo: Vector3::from_elem(ONE / 2) }
}

#[test]
fn vector_ops_exact() {
    let a = Vector3::new(ONE, 2 * ONE, -ONE);
    let b = Vector3::new(3 * ONE, -ONE, ONE / 2);
    assert_eq!(a.plus(b), Vector3::new(4 * ONE, ONE, -ONE / 2));
    assert_eq!(a.minus(b), Vector3::new(-2 * ONE, 3 * ONE, -3 * ONE / 2));
    assert_eq!(a.negate(), Vector3::new(-ONE, -2 * ONE, ONE));
    assert_eq!(a.elem_mul(b), Vector3::new(3 * ONE, -2 * ONE, -ONE / 2));
    assert_eq!(a.scale(2 * ONE), Vector3::new(2 * ONE, 4 * ONE, -2 * ONE));
    // 1*3 + 2*(-1) + (-1)*(1/2) = 1/2
    assert_eq!(a.dot(b), ONE / 2);
    assert_eq!(a.length_squared(), 6 * ONE);
}

#[test]
fn cross_follows_right_hand_rule() {
    let x = Vector3::new(ONE, 0, 0);
    let y = Vector3::new(0, ONE, 0);
    let z = Vector3::new(0, 0, ONE);
    assert_eq!(x.cross(y), z);
    assert_eq!(y.cross(z), x);
    assert_eq!(z.cross(x), y);
    assert_eq!(y.cross(x), z.negate());
}

#[test]
fn normalize_axis_exact() {
    let v = Vector3::new(0, 0, -5 * ONE);
    assert_eq!(v.normalize(), Vector3::new(0, 0, -ONE));
    assert_eq!(v.length(), 5 * ONE);
    assert_eq!(Vector3::zeros().normalize(), Vector3::zeros());
}

#[test]
fn near_zero_only_for_zero() {
    assert!(Vector3::zeros().near_zero());
    assert!(!Vector3::new(1, 0, 0).near_zero());
    assert!(!Vector3::new(0, 0, -1).near_zero());
}

#[test]
fn ray_at_evaluates_parametrically() {
    let r = Ray::from(Vector3::new(ONE, 0, 0), Vector3::new(0, 2 * ONE, 0), 5);
    assert_eq!(r.at(ONE / 2), Vector3::new(ONE, ONE, 0));
    assert_eq!(r.time, 5);
}

#[test]
fn sphere_hit_matches_analytic_root() {
    // Unit-direction ray toward a unit sphere three units away: the
    // closed-form nearest root is t = 2, exactly representable.
    let ray = Ray::from(Vector3::zeros(), Vector3::new(0, 0, -ONE), 0);
    let sphere = Sphere::new(Vector3::new(0, 0, -3 * ONE), ONE, lambertian_gray());
    let rec = sphere.hit(ray, 1, i64::MAX).expect("must hit");
    assert_eq!(rec.t, 2 * ONE);
    assert_eq!(rec.p, Vector3::new(0, 0, -2 * ONE));
    assert_eq!(rec.normal, Vector3::new(0, 0, ONE));
    assert!(rec.front_face);
    // The reported normal is unit length and opposes the ray.
    assert_eq!(rec.normal.length_squared(), ONE);
    assert!(ray.direction.dot(rec.normal) <= 0);
}

#[test]
fn sphere_inside_ray_uses_far_root() {
    // From the center, the near root is negative, so the far root at
    // t = 1 is reported, with the normal flipped inward.
    let ray = Ray::from(Vector3::new(0, 0, -3 * ONE), Vector3::new(0, 0, -ONE), 0);
    let sphere = Sphere::new(Vector3::new(0, 0, -3 * ONE), ONE, lambertian_gray());
    let rec = sphere.hit(ray, 1, i64::MAX).expect("must hit");
    assert_eq!(rec.t, ONE);
    assert!(!rec.front_face);
    assert_eq!(rec.normal, Vector3::new(0, 0, ONE));
}

#[test]
fn sphere_miss_returns_none() {
    // The ray line stays three units from the center; the radius is
    // one, so there is no intersection at any t.
    let ray = Ray::from(Vector3::zeros(), Vector3::new(0, 0, -ONE), 0);
    let sphere = Sphere::new(Vector3::new(3 * ONE, 0, -3 * ONE), ONE, lambertian_gray());
    assert!(sphere.hit(ray, 1, i64::MAX).is_none());
}

#[test]
fn sphere_range_clips_hits() {
    let ray = Ray::from(Vector3::zeros(), Vector3::new(0, 0, -ONE), 0);
    let sphere = Sphere::new(Vector3::new(0, 0, -3 * ONE), ONE, lambertian_gray());
    // The nearest root t = 2 is outside [1, 2), and the far root
    // t = 4 is too.
    assert!(sphere.hit(ray, 1, 2 * ONE).is_none());
    // With the window opened past the far root, the near root wins.
    let rec = sphere.hit(ray, 1, 5 * ONE).expect("must hit");
    assert_eq!(rec.t, 2 * ONE);
    // Excluding the near root by the lower bound selects the far one.
    let rec = sphere.hit(ray, 3 * ONE, 5 * ONE).expect("must hit");
    assert_eq!(rec.t, 4 * ONE);
}

#[test]
fn negative_radius_flips_normal() {
    // The hollow-sphere trick: a negative radius computes an inward
    // outward-normal, so the front-face flag inverts; orientation
    // then flips the shading normal back toward the ray.
    let ray = Ray::from(Vector3::zeros(), Vector3::new(0, 0, -ONE), 0);
    let sphere = Sphere::new(Vector3::new(0, 0, -3 * ONE), -ONE, lambertian_gray());
    let rec = sphere.hit(ray, 1, i64::MAX).expect("must hit");
    assert_eq!(rec.t, 2 * ONE);
    assert!(!rec.front_face);
    assert_eq!(rec.normal, Vector3::new(0, 0, ONE));
}

#[test]
fn world_reports_globally_nearest_hit() {
    let ray = Ray::from(Vector3::zeros(), Vector3::new(0, 0, -ONE), 0);
    let near = Sphere::new(Vector3::new(0, 0, -3 * ONE), ONE, lambertian_gray());
    let far = Sphere::new(Vector3::new(0, 0, -6 * ONE), ONE, lambertian_gray());

    let mut world_a = World::new();
    world_a.push(near);
    world_a.push(far);
    let mut world_b = World::new();
    world_b.push(far);
    world_b.push(near);

    let rec_a = world_a.hit(ray, 1, i64::MAX).expect("must hit");
    let rec_b = world_b.hit(ray, 1, i64::MAX).expect("must hit");

    // Same nearest hit in either insertion order, and it agrees with
    // the minimum over the members queried independently.
    assert_eq!(rec_a.t, 2 * ONE);
    assert_eq!(rec_b.t, rec_a.t);
    let t_near = near.hit(ray, 1, i64::MAX).unwrap().t;
    let t_far = far.hit(ray, 1, i64::MAX).unwrap().t;
    assert_eq!(rec_a.t, t_near.min(t_far));
}

#[test]
fn empty_world_never_hits() {
    let ray = Ray::from(Vector3::zeros(), Vector3::new(0, 0, -ONE), 0);
    let world = World::new();
    assert!(world.hit(ray, 1, i64::MAX).is_none());
}
