//! Material scattering: mirrors, diffuse sampling, dielectrics.

use raytracer::fx::ONE;
use raytracer::hittable::HitRecord;
use raytracer::material::Material;
use raytracer::ray::Ray;
use raytracer::rng::rng_from_seed;
use raytracer::vec3::Vector3;

fn record_at_origin(normal: Vector3, front_face: bool, mat: Material) -> HitRecord {
    HitRecord { p: Vector3::zeros(), normal, t: ONE, mat, front_face }
}

#[test]
fn reflect_axis_round_trip() {
    // Reflecting twice about an axis-aligned unit normal restores
    // the vector exactly, for arbitrary components.
    let n = Vector3::new(0, 0, ONE);
    let v = Vector3::new(12345, -777, -ONE);
    let once = v.reflect(n);
    assert_eq!(once, Vector3::new(12345, -777, ONE));
    assert_eq!(once.reflect(n), v);
}

#[test]
fn metal_zero_fuzz_is_exact_mirror() {
    let normal = Vector3::new(0, 0, ONE);
    let mat = Material::Metal { albedo: Vector3::new(ONE, ONE / 2, 0), fuzz: 0 };
    let rec = record_at_origin(normal, true, mat);
    let ray = Ray::from(Vector3::new(0, 0, 3 * ONE), Vector3::new(0, 0, -ONE), 9);
    let mut rng = rng_from_seed(7);
    let (attenuation, scattered) = mat.scatter(ray, rec, &mut rng).expect("mirror reflects");
    assert_eq!(attenuation, Vector3::new(ONE, ONE / 2, 0));
    assert_eq!(scattered.origin, rec.p);
    assert_eq!(scattered.direction, Vector3::new(0, 0, ONE));
    assert_eq!(scattered.time, 9);
}

#[test]
fn metal_absorbs_grazing_reflection() {
    // A reflection that does not leave the surface is absorbed.
    let normal = Vector3::new(0, 0, ONE);
    let mat = Material::Metal { albedo: Vector3::from_elem(ONE), fuzz: 0 };
    let rec = record_at_origin(normal, true, mat);
    // Incoming along the surface: the reflection stays in the plane,
    // its dot with the normal is zero, not positive.
    let ray = Ray::from(Vector3::new(-3 * ONE, 0, 0), Vector3::new(ONE, 0, 0), 0);
    let mut rng = rng_from_seed(7);
    assert!(mat.scatter(ray, rec, &mut rng).is_none());
}

#[test]
fn lambertian_mean_cosine_positive() {
    // Diffuse scattering favors the normal's hemisphere: over many
    // samples the average cosine against the normal is clearly
    // positive.
    let normal = Vector3::new(0, 0, ONE);
    let mat = Material::Lambertian { albedo: Vector3::from_elem(ONE / 2) };
    let rec = record_at_origin(normal, true, mat);
    let ray = Ray::from(Vector3::new(0, 0, 3 * ONE), Vector3::new(0, 0, -ONE), 0);
    let mut rng = rng_from_seed(123);
    let mut total: i128 = 0;
    let trials = 10000;
    for _ in 0..trials {
        let (attenuation, scattered) = mat.scatter(ray, rec, &mut rng).expect("always scatters");
        assert_eq!(attenuation, Vector3::from_elem(ONE / 2));
        assert_eq!(scattered.origin, rec.p);
        total += scattered.direction.normalize().dot(normal) as i128;
    }
    // Mean cosine above 0.5 (the ideal cosine-weighted mean is ~2/3).
    assert!(total / trials > (ONE / 2) as i128);
}

#[test]
fn dielectric_unit_index_passes_straight_through() {
    // With a refractive index of one the refraction ratio is one and
    // light is never bent: the scattered direction equals the unit
    // incident direction, exactly.
    let normal = Vector3::new(0, 0, ONE);
    let mat = Material::Dielectric { ir: ONE };
    let rec = record_at_origin(normal, true, mat);
    let ray = Ray::from(Vector3::new(0, 0, 3 * ONE), Vector3::new(0, 0, -5 * ONE), 0);
    let mut rng = rng_from_seed(99);
    for _ in 0..100 {
        let (attenuation, scattered) = mat.scatter(ray, rec, &mut rng).expect("always scatters");
        assert_eq!(attenuation, Vector3::from_elem(ONE));
        assert_eq!(scattered.direction, Vector3::new(0, 0, -ONE));
    }
}

#[test]
fn refract_identity_on_axis() {
    let uv = Vector3::new(0, 0, -ONE);
    let n = Vector3::new(0, 0, ONE);
    assert_eq!(uv.refract(n, ONE), uv);
    let sideways = Vector3::new(-ONE, 0, 0);
    let up = Vector3::new(0, ONE, 0);
    assert_eq!(sideways.refract(up, ONE), sideways);
}

#[test]
fn dielectric_total_internal_reflection() {
    // Leaving a dense medium at 45 degrees with index 3: the ratio
    // times the sine exceeds one, so reflection is forced, every
    // draw.
    let normal = Vector3::new(0, 0, ONE);
    let mat = Material::Dielectric { ir: 3 * ONE };
    let rec = record_at_origin(normal, false, mat);
    let ray = Ray::from(Vector3::zeros(), Vector3::new(ONE, 0, -ONE), 0);
    let expected = ray.direction.normalize().reflect(normal);
    let mut rng = rng_from_seed(5);
    for _ in 0..100 {
        let (_, scattered) = mat.scatter(ray, rec, &mut rng).expect("always scatters");
        assert_eq!(scattered.direction, expected);
    }
}

#[test]
fn random_draws_stay_in_contract_ranges() {
    // Sampling helpers hold their documented ranges, and the source
    // actually varies (a constant generator would fail this).
    let mut rng = rng_from_seed(2024);
    let mut seen_distinct = false;
    let mut last: Option<Vector3> = None;
    for _ in 0..1000 {
        let v = Vector3::random(&mut rng);
        assert!(0 <= v.x && v.x < ONE);
        assert!(0 <= v.y && v.y < ONE);
        assert!(0 <= v.z && v.z < ONE);
        if let Some(prev) = last {
            if prev != v {
                seen_distinct = true;
            }
        }
        last = Some(v);
    }
    assert!(seen_distinct);

    for _ in 0..1000 {
        let v = Vector3::random_double(-ONE, ONE, &mut rng);
        assert!(-ONE <= v.x && v.x < ONE);
        let s = Vector3::random_in_unit_sphere(&mut rng);
        let l2 = s.length_squared();
        assert!(1024 <= l2 && l2 < ONE);
        let u = Vector3::random_unit_vector(&mut rng);
        // Unit up to fixed-point rounding.
        let len = u.length();
        assert!((len - ONE).abs() < 2048, "length {len}");
        let h = Vector3::random_in_hemisphere(Vector3::new(0, 0, ONE), &mut rng);
        assert!(h.dot(Vector3::new(0, 0, ONE)) >= 0);
    }
}
