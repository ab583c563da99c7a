//! The result of an intersection test, and the capability every
//! primitive and the scene aggregate offer.

use vstd::prelude::*;

verus! {

use crate::fx::{clip, iabs, spec_fadd, spec_fmul, tdiv, lemma_tdiv_pos};
use crate::material::Material;
use crate::ray::Ray;
use crate::vec3::{Vector3, V3, v_dot, v_neg, v_zero, v3};

/// The normal a shading step sees: the outward normal if it already
/// opposes the ray, else its negation, so that it always points back
/// toward the side the ray came from.
pub open spec fn oriented_normal(dir: V3, outward: V3) -> V3 {
    if v_dot(dir, outward) < 0 {
        outward
    } else {
        v_neg(outward)
    }
}

#[derive(Clone, Copy)]
pub struct HitRecord {
    pub p: Vector3,
    pub normal: Vector3,
    pub t: i64,
    pub mat: Material,
    pub front_face: bool,
}

impl HitRecord {
    /// Orients the outward normal against the incoming ray.
    pub fn new(ray: Ray, outward_normal: Vector3, p: Vector3, t: i64, mat: Material) -> (r: Self)
        ensures
            r.p == p,
            r.t == t,
            r.mat == mat,
            r.front_face == (v_dot(ray.direction@, outward_normal@) < 0),
            r.normal@ == oriented_normal(ray.direction@, outward_normal@),
    {
        let front_face = ray.direction.dot(outward_normal) < 0;
        let normal = if front_face {
            outward_normal
        } else {
            outward_normal.negate()
        };
        Self { p, normal, t, mat, front_face }
    }

    pub fn default() -> (r: Self)
        ensures
            r.p@ == v_zero(),
            r.normal@ == v_zero(),
            r.t == 0,
            r.mat == (Material::Lambertian { albedo: Vector3 { x: 0, y: 0, z: 0 } }),
            !r.front_face,
    {
        Self {
            p: Vector3::zeros(),
            normal: Vector3::zeros(),
            t: 0,
            mat: Material::Lambertian { albedo: Vector3::zeros() },
            front_face: false,
        }
    }
}

/// Negating one factor never raises a clamped product above the
/// negation of the original product.
proof fn lemma_fmul_neg_le(a: int, b: int)
    requires
        i64::MIN <= a <= i64::MAX,
        i64::MIN < b <= i64::MAX,
    ensures
        spec_fmul(a, clip(-b)) <= -spec_fmul(a, b),
{
    assert(clip(-b) == -b);
    assert(a * (-b) == -(a * b)) by (nonlinear_arith);
    assert(tdiv(-(a * b), 65536) == -tdiv(a * b, 65536));
}

/// The oriented normal never has a positive dot product with the ray
/// direction, as long as no component of the outward normal sits at
/// the far saturation edge.
pub proof fn lemma_oriented_normal_opposes(dir: V3, outward: V3)
    requires
        i64::MIN <= dir.x <= i64::MAX,
        i64::MIN <= dir.y <= i64::MAX,
        i64::MIN <= dir.z <= i64::MAX,
        i64::MIN < outward.x <= i64::MAX,
        i64::MIN < outward.y <= i64::MAX,
        i64::MIN < outward.z <= i64::MAX,
    ensures
        v_dot(dir, oriented_normal(dir, outward)) <= 0,
{
    if v_dot(dir, outward) < 0 {
    } else {
        lemma_fmul_neg_le(dir.x, outward.x);
        lemma_fmul_neg_le(dir.y, outward.y);
        lemma_fmul_neg_le(dir.z, outward.z);
    }
}

/// What every primitive and the scene itself answer: the nearest
/// intersection with a parametric distance in `[t_min, t_max)`, if
/// any.
pub trait Hittable {
    fn hit(&self, ray: Ray, t_min: i64, t_max: i64) -> (res: Option<HitRecord>)
        ensures
            res matches Some(rec) ==> t_min <= rec.t < t_max,
    ;
}

} // verus!
