//! Materials: how a surface continues, or absorbs, an incoming ray.

use vstd::prelude::*;

verus! {

use crate::fx::{
    ONE, spec_fadd, spec_fsub, spec_fneg, spec_fmul, spec_fdiv, spec_fsqrt, fadd, fsub, fmul,
    fdiv, fsqrt, fmin, fmax,
};
use crate::hittable::HitRecord;
use crate::ray::Ray;
use crate::vec3::{Vector3, V3, LEN2_FLOOR, v_add, v_dot, v_neg, v_near_zero, v_normalize, v_reflect, v_refract, v_scale, v_zero, v_len2, v3};

#[derive(Clone, Copy)]
pub enum Material {
    Lambertian { albedo: Vector3 },
    Metal { albedo: Vector3, fuzz: i64 },
    Dielectric { ir: i64 },
}

/// A refractive index must be positive for the refraction-ratio and
/// Schlick divisions to be meaningful.
pub open spec fn mat_wf(m: Material) -> bool {
    m matches Material::Dielectric { ir } ==> ir > 0
}

/// The direction a diffuse surface scatters into, given the random
/// interior vector `v` that was drawn: the unit vector of `v` added
/// to the normal, or the bare normal when that sum degenerates.
pub open spec fn lambertian_dir(normal: V3, v: V3) -> V3 {
    let d = v_add(normal, v_normalize(v));
    if v_near_zero(d) {
        normal
    } else {
        d
    }
}

/// Cosine of the angle of incidence, capped at one.
pub open spec fn di_cos(unit_dir: V3, normal: V3) -> int {
    if v_dot(v_neg(unit_dir), normal) <= ONE {
        v_dot(v_neg(unit_dir), normal)
    } else {
        ONE as int
    }
}

/// Sine from the cosine; a negative radicand (the cosine cap was hit
/// from far out of range) is treated as zero.
pub open spec fn di_sin(cos_theta: int) -> int {
    let m = spec_fsub(ONE as int, spec_fmul(cos_theta, cos_theta));
    spec_fsqrt(if m >= 0 { m } else { 0 })
}

/// The ratio of refractive indices seen by a ray entering (from
/// vacuum) or leaving the material.
pub open spec fn refraction_ratio(ir: int, front_face: bool) -> int {
    if front_face {
        spec_fdiv(ONE as int, ir)
    } else {
        ir
    }
}

/// Schlick's approximation of reflectance.
pub open spec fn schlick(cos_theta: int, ratio: int) -> int {
    let r0 = spec_fdiv(spec_fsub(ONE as int, ratio), spec_fadd(ONE as int, ratio));
    let r0sq = spec_fmul(r0, r0);
    spec_fadd(r0sq, spec_fmul(spec_fsub(ONE as int, r0sq), pow5(spec_fsub(ONE as int, cos_theta))))
}

/// Fifth power in fixed point, associated as the implementation
/// computes it.
pub open spec fn pow5(x: int) -> int {
    let x2 = spec_fmul(x, x);
    let x4 = spec_fmul(x2, x2);
    spec_fmul(x4, x)
}

/// The direction a dielectric continues in, deterministic in the
/// drawn probability: reflect on total internal reflection or when
/// Schlick's reflectance exceeds the draw, else refract.
pub open spec fn dielectric_dir(unit: V3, normal: V3, ratio: int, pick: int) -> V3 {
    let cos_theta = di_cos(unit, normal);
    if spec_fmul(ratio, di_sin(cos_theta)) > ONE || schlick(cos_theta, ratio) > pick {
        v_reflect(unit, normal)
    } else {
        v_refract(unit, normal, ratio)
    }
}

impl Material {
    /// Whether and how the path continues at a hit: an attenuation
    /// color and the scattered ray, or absorption.
    ///
    /// The random draws keep the exact direction open, but every
    /// outcome is pinned to the drawn value: a diffuse surface always
    /// scatters from the hit point with the albedo as attenuation; a
    /// mirror scatters only above the surface, and with zero fuzz its
    /// direction is exactly the reflection; a dielectric always
    /// scatters white, choosing between the exact reflection and the
    /// exact refraction, and total internal reflection forces the
    /// former.
    #[verifier::rlimit(60)]
    pub fn scatter(&self, ray: Ray, rec: HitRecord, rng: &mut rand::rngs::StdRng) -> (res: Option<
        (Vector3, Ray),
    >)
        requires
            mat_wf(*self),
        ensures
            (self matches Material::Lambertian { albedo } ==> (res matches Some((att, sc))
                && att == albedo && sc.origin == rec.p && sc.time == ray.time && (exists|v: V3|
                0 < #[trigger] v_len2(v) && v_len2(v) < ONE && sc.direction@ == lambertian_dir(
                    rec.normal@,
                    v,
                )))),
            (self matches Material::Metal { albedo, fuzz } ==> {
                let refl = v_reflect(v_normalize(ray.direction@), rec.normal@);
                &&& (res matches Some((att, sc)) ==> att == albedo && sc.origin == rec.p
                    && sc.time == ray.time && v_dot(sc.direction@, rec.normal@) > 0)
                &&& (res matches Some((att, sc)) ==> (exists|e: V3|
                    LEN2_FLOOR <= #[trigger] v_len2(e) && v_len2(e) < ONE && sc.direction@
                        == v_add(refl, v_scale(fuzz as int, e))))
                &&& (res is None ==> (exists|e: V3|
                    LEN2_FLOOR <= #[trigger] v_len2(e) && v_len2(e) < ONE && v_dot(
                        v_add(refl, v_scale(fuzz as int, e)),
                        rec.normal@,
                    ) <= 0))
                &&& (fuzz == 0 ==> {
                    &&& (res is Some <==> v_dot(refl, rec.normal@) > 0)
                    &&& (res matches Some((att, sc)) ==> sc.direction@ == refl)
                })
            }),
            (self matches Material::Dielectric { ir } ==> {
                let unit = v_normalize(ray.direction@);
                let ratio = refraction_ratio(ir as int, rec.front_face);
                &&& (res matches Some((att, sc)) && att@ == v3(ONE as int, ONE as int, ONE as int)
                    && sc.origin == rec.p && sc.time == ray.time)
                &&& (res matches Some((att, sc)) ==> (exists|pick: int|
                    0 <= pick < ONE && sc.direction@ == #[trigger] dielectric_dir(
                        unit,
                        rec.normal@,
                        ratio,
                        pick,
                    )))
                &&& (res matches Some((att, sc)) ==> sc.direction@ == v_reflect(unit, rec.normal@)
                    || sc.direction@ == v_refract(unit, rec.normal@, ratio))
                &&& (spec_fmul(ratio, di_sin(di_cos(unit, rec.normal@))) > ONE ==> (
                res matches Some((att, sc)) && sc.direction@ == v_reflect(unit, rec.normal@)))
            }),
    {
        match *self {
            Material::Lambertian { albedo } => {
                let ruv = Vector3::random_unit_vector(rng);
                let mut scatter_dir = rec.normal.plus(ruv);
                if scatter_dir.near_zero() {
                    scatter_dir = rec.normal;
                }
                let scattered = Ray::from(rec.p, scatter_dir, ray.time);
                Some((albedo, scattered))
            },
            Material::Metal { albedo, fuzz } => {
                let reflected = ray.direction.normalize().reflect(rec.normal);
                let sample = Vector3::random_in_unit_sphere(rng);
                let fuzz_off = sample.scale(fuzz);
                let scattered = Ray::from(rec.p, reflected.plus(fuzz_off), ray.time);
                proof {
                    assert(LEN2_FLOOR <= v_len2(sample@) && v_len2(sample@) < ONE);
                    assert(scattered.direction@ == v_add(
                        reflected@,
                        v_scale(fuzz as int, sample@),
                    ));
                    if fuzz == 0 {
                        assert(fuzz_off@ == v_zero());
                        assert(scattered.direction@ == reflected@);
                    }
                }
                if scattered.direction.dot(rec.normal) > 0 {
                    Some((albedo, scattered))
                } else {
                    None
                }
            },
            Material::Dielectric { ir } => {
                let attenuation = Vector3::from_elem(ONE);
                let ratio = if rec.front_face {
                    fdiv(ONE, ir)
                } else {
                    ir
                };
                let unit_direction = ray.direction.normalize();
                let pick = next_unit_draw(rng);
                let direction = scatter_direction(unit_direction, rec.normal, ratio, pick);
                let scattered = Ray::from(rec.p, direction, ray.time);
                proof {
                    let unit = v_normalize(ray.direction@);
                    let sratio = refraction_ratio(ir as int, rec.front_face);
                    assert(ratio as int == sratio);
                    assert(0 <= (pick as int) && (pick as int) < ONE);
                    assert(scattered.direction@ == dielectric_dir(
                        unit,
                        rec.normal@,
                        sratio,
                        pick as int,
                    ));
                    assert(exists|p: int|
                        0 <= p < ONE && scattered.direction@ == #[trigger] dielectric_dir(
                            unit,
                            rec.normal@,
                            sratio,
                            p,
                        ));
                }
                Some((attenuation, scattered))
            },
        }
    }
}

/// The reflect-or-refract decision of a dielectric, taking the
/// drawn probability as an argument so its contract is exact in the
/// draw.
fn scatter_direction(unit: Vector3, normal: Vector3, ratio: i64, pick: i64) -> (dir: Vector3)
    requires
        ratio >= 0,
    ensures
        dir@ == dielectric_dir(unit@, normal@, ratio as int, pick as int),
{
    let cos_theta = fmin(unit.negate().dot(normal), ONE);
    let radicand = fmax(fsub(ONE, fmul(cos_theta, cos_theta)), 0);
    let sin_theta = fsqrt(radicand);

    let cannot_refract = fmul(ratio, sin_theta) > ONE;
    let reflectance = schlick_reflectance(cos_theta, ratio);
    if cannot_refract || reflectance > pick {
        unit.reflect(normal)
    } else {
        unit.refract(normal, ratio)
    }
}

/// Schlick's approximation, as executable fixed-point arithmetic.
fn schlick_reflectance(cos_theta: i64, ratio: i64) -> (r: i64)
    requires
        ratio >= 0,
    ensures
        r == schlick(cos_theta as int, ratio as int),
{
    let r0 = fdiv(fsub(ONE, ratio), fadd(ONE, ratio));
    let r0sq = fmul(r0, r0);
    let x = fsub(ONE, cos_theta);
    let x2 = fmul(x, x);
    let x4 = fmul(x2, x2);
    let x5 = fmul(x4, x);
    fadd(r0sq, fmul(fsub(ONE, r0sq), x5))
}

/// One uniform draw in `[0, 1)` for the reflect-or-refract choice.
fn next_unit_draw(rng: &mut rand::rngs::StdRng) -> (r: i64)
    ensures
        0 <= r < ONE,
{
    crate::rng::next_unit(rng)
}

} // verus!
