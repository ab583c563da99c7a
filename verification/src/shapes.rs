//! The sphere primitive and its closed-form ray intersection.

use vstd::prelude::*;

verus! {

use crate::fx::{
    ONE, clip, tdiv, spec_fadd, spec_fsub, spec_fneg, spec_fmul, spec_fdiv, spec_fsqrt, fadd,
    fsub, fneg, fmul, fdiv, fsqrt, lemma_isqrt, lemma_tdiv_is_ordered,
};
use crate::hittable::{HitRecord, Hittable, oriented_normal};
use crate::material::Material;
use crate::ray::{Ray, ray_at};
use crate::vec3::{Vector3, V3, v_dot, v_len2, v_sub, v_div_scalar, lemma_len2_nonneg};

/// A sphere: center, signed radius (a negative radius flips every
/// outward normal inward, the hollow-sphere trick), and material.
#[derive(Clone, Copy)]
pub struct Sphere {
    pub center: Vector3,
    pub radius: i64,
    pub mat: Material,
}

/// Offset from the sphere's center to the ray's origin.
pub open spec fn hit_oc(s: Sphere, r: Ray) -> V3 {
    v_sub(r.origin@, s.center@)
}

/// The quadratic's leading coefficient: the direction's squared
/// length.
pub open spec fn hit_a(r: Ray) -> int {
    v_len2(r.direction@)
}

/// Half the quadratic's linear coefficient.
pub open spec fn hit_half_b(s: Sphere, r: Ray) -> int {
    v_dot(hit_oc(s, r), r.direction@)
}

/// The quadratic's constant coefficient.
pub open spec fn hit_c(s: Sphere, r: Ray) -> int {
    spec_fsub(v_len2(hit_oc(s, r)), spec_fmul(s.radius as int, s.radius as int))
}

/// The discriminant `half_b^2 - a c`; negative means the ray's line
/// misses the sphere.
pub open spec fn hit_disc(s: Sphere, r: Ray) -> int {
    spec_fsub(
        spec_fmul(hit_half_b(s, r), hit_half_b(s, r)),
        spec_fmul(hit_a(r), hit_c(s, r)),
    )
}

pub open spec fn hit_sqrt_disc(s: Sphere, r: Ray) -> int {
    spec_fsqrt(hit_disc(s, r))
}

/// The smaller quadratic root, nearest along the ray.
pub open spec fn hit_root1(s: Sphere, r: Ray) -> int {
    spec_fdiv(spec_fsub(spec_fneg(hit_half_b(s, r)), hit_sqrt_disc(s, r)), hit_a(r))
}

/// The larger quadratic root, tried only when the smaller is out of
/// range (a ray starting inside the sphere).
pub open spec fn hit_root2(s: Sphere, r: Ray) -> int {
    spec_fdiv(spec_fadd(spec_fneg(hit_half_b(s, r)), hit_sqrt_disc(s, r)), hit_a(r))
}

/// The parametric distance a sphere intersection reports: the
/// nearest root within `[t_min, t_max)`, or none. A degenerate ray
/// direction or a radius of zero yields no intersection.
pub open spec fn sphere_hit_t(s: Sphere, r: Ray, t_min: int, t_max: int) -> Option<int> {
    if hit_a(r) == 0 || s.radius == 0 || hit_disc(s, r) < 0 {
        Option::None
    } else if t_min <= hit_root1(s, r) < t_max {
        Option::Some(hit_root1(s, r))
    } else if t_min <= hit_root2(s, r) < t_max {
        Option::Some(hit_root2(s, r))
    } else {
        Option::None
    }
}

/// The full contract of a sphere intersection: whether it hits, and
/// every field of the record it reports.
pub open spec fn is_sphere_hit(
    s: Sphere,
    r: Ray,
    t_min: int,
    t_max: int,
    res: Option<HitRecord>,
) -> bool {
    match sphere_hit_t(s, r, t_min, t_max) {
        Option::None => res is None,
        Option::Some(t) => {
            let outward = v_div_scalar(v_sub(ray_at(r, t), s.center@), s.radius as int);
            &&& res matches Some(rec)
            &&& rec.t == t
            &&& rec.p@ == ray_at(r, t)
            &&& rec.normal@ == oriented_normal(r.direction@, outward)
            &&& rec.front_face == (v_dot(r.direction@, outward) < 0)
            &&& rec.mat == s.mat
        },
    }
}

/// A reported intersection faces the ray: the record's normal never
/// has a positive dot product with the ray direction, as long as no
/// component of the outward normal sits at the far saturation edge.
pub proof fn lemma_hit_normal_opposes_ray(
    s: Sphere,
    r: Ray,
    t_min: int,
    t_max: int,
    rec: HitRecord,
)
    requires
        is_sphere_hit(s, r, t_min, t_max, Some(rec)),
        ({
            let outward = v_div_scalar(
                v_sub(ray_at(r, rec.t as int), s.center@),
                s.radius as int,
            );
            outward.x > i64::MIN && outward.y > i64::MIN && outward.z > i64::MIN
        }),
    ensures
        v_dot(r.direction@, rec.normal@) <= 0,
{
    let outward = v_div_scalar(v_sub(ray_at(r, rec.t as int), s.center@), s.radius as int);
    crate::hittable::lemma_oriented_normal_opposes(r.direction@, outward);
}

/// The smaller root never exceeds the larger.
pub proof fn lemma_root_order(s: Sphere, r: Ray)
    requires
        hit_a(r) > 0,
        hit_disc(s, r) >= 0,
    ensures
        hit_root1(s, r) <= hit_root2(s, r),
{
    lemma_isqrt(hit_disc(s, r) * (ONE as int));
    let sd = hit_sqrt_disc(s, r);
    let nh = spec_fneg(hit_half_b(s, r));
    let x1 = spec_fsub(nh, sd);
    let x2 = spec_fadd(nh, sd);
    assert(x1 <= x2);
    assert(x1 * 65536 <= x2 * 65536) by (nonlinear_arith)
        requires
            x1 <= x2,
    ;
    lemma_tdiv_is_ordered(x1 * 65536, x2 * 65536, hit_a(r));
}

/// Shrinking the far end of the search range only discards
/// intersections at or beyond the new end: a hit found under the
/// tighter range is the hit under the wider one, and a miss under
/// the tighter range means any hit under the wider one lies at or
/// past the tighter end.
pub proof fn lemma_hit_shrink(s: Sphere, r: Ray, t_min: int, hi1: int, hi2: int)
    requires
        hi2 <= hi1,
    ensures
        sphere_hit_t(s, r, t_min, hi2) matches Some(t) ==> sphere_hit_t(s, r, t_min, hi1)
            == Some(t),
        sphere_hit_t(s, r, t_min, hi2) is None ==> (sphere_hit_t(s, r, t_min, hi1) matches Some(t)
            ==> t >= hi2),
{
    if hit_a(r) == 0 || s.radius == 0 || hit_disc(s, r) < 0 {
    } else {
        lemma_len2_nonneg(r.direction@);
        lemma_root_order(s, r);
    }
}

impl Sphere {
    pub fn new(center: Vector3, radius: i64, mat: Material) -> (s: Self)
        ensures
            s.center == center,
            s.radius == radius,
            s.mat == mat,
    {
        Self { center, radius, mat }
    }
}

impl Hittable for Sphere {
    /// Closed-form quadratic intersection, preferring the nearer
    /// root.
    fn hit(&self, ray: Ray, t_min: i64, t_max: i64) -> (res: Option<HitRecord>)
        ensures
            is_sphere_hit(*self, ray, t_min as int, t_max as int, res),
            hit_disc(*self, ray) < 0 ==> res is None,
    {
        let oc = ray.origin.minus(self.center);
        let a = ray.direction.length_squared();
        let half_b = oc.dot(ray.direction);
        let c = fsub(oc.length_squared(), fmul(self.radius, self.radius));

        let discriminant = fsub(fmul(half_b, half_b), fmul(a, c));
        if a == 0 || self.radius == 0 || discriminant < 0 {
            return None;
        }

        let sqrt_disc = fsqrt(discriminant);

        let mut root = fdiv(fsub(fneg(half_b), sqrt_disc), a);
        if !(t_min <= root && root < t_max) {
            root = fdiv(fadd(fneg(half_b), sqrt_disc), a);
            if !(t_min <= root && root < t_max) {
                return None;
            }
        }

        let p = ray.at(root);
        let outward_normal = p.minus(self.center).div_scalar(self.radius);

        Some(HitRecord::new(ray, outward_normal, p, root, self.mat))
    }
}

} // verus!
