//! The camera: maps normalized viewport coordinates to world-space
//! rays, with a lens jitter for depth of field and a random exposure
//! time per cast.

use vstd::prelude::*;

verus! {

use crate::fx::{ONE, spec_fadd, spec_fsub, spec_fmul, spec_fdiv, fadd, fsub, fmul};
use crate::ray::Ray;
use crate::rng::next_unit;
use crate::fx::iabs;
use crate::vec3::{
    Vector3, V3, LEN2_FLOOR, v_add, v_sub, v_scale, v_cross, v_normalize, v_len2, v_zero, v3,
    lemma_ball_component, lemma_scale_in_radius,
};

/// Width over height of the image, as a fixed-point scalar (3 / 2).
pub const ASPECT_RATIO: i64 = 98304;

/// Diameter of the lens disk (a tenth of a world unit).
pub const APERTURE: i64 = 6554;

/// Distance of the plane in perfect focus.
pub const FOCUS_DISTANCE: i64 = 655360;

/// Two, as a fixed-point scalar.
pub const TWO: i64 = 131072;

pub struct Viewport {
    pub width: i64,
    pub height: i64,
}

pub struct Camera {
    pub origin: Vector3,
    pub viewport: Viewport,
    pub horizontal: Vector3,
    pub vertical: Vector3,
    pub u: Vector3,
    pub v: Vector3,
    pub lower_left_corner: Vector3,
    pub lens_radius: i64,
    pub focus_distance: i64,
    pub exposure_start: i64,
    pub exposure_end: i64,
}

/// The basis vector pointing from the target back to the camera.
pub open spec fn cam_w(look_from: V3, look_at: V3) -> V3 {
    v_normalize(v_sub(look_from, look_at))
}

/// The basis vector pointing to the camera's right.
pub open spec fn cam_u(look_from: V3, look_at: V3, vup: V3) -> V3 {
    v_normalize(v_cross(vup, cam_w(look_from, look_at)))
}

/// The basis vector pointing up in the camera's frame.
pub open spec fn cam_v(look_from: V3, look_at: V3, vup: V3) -> V3 {
    v_cross(cam_w(look_from, look_at), cam_u(look_from, look_at, vup))
}

pub open spec fn cam_viewport_height(tan_half_fov: int) -> int {
    spec_fadd(tan_half_fov, tan_half_fov)
}

pub open spec fn cam_viewport_width(tan_half_fov: int) -> int {
    spec_fmul(ASPECT_RATIO as int, cam_viewport_height(tan_half_fov))
}

/// The lens offset of one cast: the jitter vector scaled into the
/// camera's right/up basis.
pub open spec fn cam_offset(c: Camera, rd: V3) -> V3 {
    v_add(v_scale(rd.x, c.u@), v_scale(rd.y, c.v@))
}

/// The direction of the ray through viewport coordinates `(uc, vc)`
/// from a lens offset of `off`: it still aims at the focus-plane
/// target.
pub open spec fn cam_dir(c: Camera, uc: int, vc: int, off: V3) -> V3 {
    v_sub(
        v_sub(
            v_add(
                v_add(c.lower_left_corner@, v_scale(uc, c.horizontal@)),
                v_scale(vc, c.vertical@),
            ),
            c.origin@,
        ),
        off,
    )
}

/// What a well-formed camera guarantees its casts.
pub open spec fn cam_wf(c: Camera) -> bool {
    &&& c.exposure_start <= c.exposure_end
    &&& c.exposure_end - c.exposure_start <= i64::MAX
    &&& c.lens_radius >= 0
}

/// A ray this camera could cast through viewport coordinates
/// `(u, v)`: for some lens jitter drawn in the unit ball, the origin
/// is offset within the lens (each basis offset bounded by the lens
/// radius) and the direction still aims at the focus-plane target.
pub open spec fn cast_from(c: Camera, u: int, v: int, r: Ray) -> bool {
    exists|j: V3|
        LEN2_FLOOR <= #[trigger] v_len2(j) && v_len2(j) < ONE && {
            let rd = v_scale(c.lens_radius as int, j);
            let off = cam_offset(c, rd);
            &&& iabs(rd.x) <= c.lens_radius
            &&& iabs(rd.y) <= c.lens_radius
            &&& r.origin@ == v_add(c.origin@, off)
            &&& r.direction@ == cam_dir(c, u, v, off)
        }
}

impl Camera {
    /// Builds the orthonormal basis and viewport from the camera
    /// pose. `tan_half_fov` is the tangent of half the vertical
    /// field of view, which sizes the viewport.
    pub fn new(
        look_from: Vector3,
        look_at: Vector3,
        vup: Vector3,
        tan_half_fov: i64,
        exposure_start: i64,
        exposure_end: i64,
    ) -> (c: Camera)
        requires
            exposure_start <= exposure_end,
            exposure_end - exposure_start <= i64::MAX,
        ensures
            cam_wf(c),
            c.origin == look_from,
            c.viewport.height == cam_viewport_height(tan_half_fov as int),
            c.viewport.width == cam_viewport_width(tan_half_fov as int),
            c.u@ == cam_u(look_from@, look_at@, vup@),
            c.v@ == cam_v(look_from@, look_at@, vup@),
            c.horizontal@ == v_scale(
                spec_fmul(FOCUS_DISTANCE as int, cam_viewport_width(tan_half_fov as int)),
                cam_u(look_from@, look_at@, vup@),
            ),
            c.vertical@ == v_scale(
                spec_fmul(FOCUS_DISTANCE as int, cam_viewport_height(tan_half_fov as int)),
                cam_v(look_from@, look_at@, vup@),
            ),
            c.lower_left_corner@ == v_sub(
                v_sub(
                    v_sub(look_from@, v_div2(c.horizontal@)),
                    v_div2(c.vertical@),
                ),
                v_scale(FOCUS_DISTANCE as int, cam_w(look_from@, look_at@)),
            ),
            c.lens_radius == APERTURE / 2,
            c.focus_distance == FOCUS_DISTANCE,
            c.exposure_start == exposure_start,
            c.exposure_end == exposure_end,
    {
        let height = fadd(tan_half_fov, tan_half_fov);
        let width = fmul(ASPECT_RATIO, height);
        let viewport = Viewport { height, width };

        let w = look_from.minus(look_at).normalize();
        let u = vup.cross(w).normalize();
        let v = w.cross(u);

        let origin = look_from;
        let horizontal = u.scale(fmul(FOCUS_DISTANCE, width));
        let vertical = v.scale(fmul(FOCUS_DISTANCE, height));
        let lower_left_corner = origin
            .minus(horizontal.div_scalar(TWO))
            .minus(vertical.div_scalar(TWO))
            .minus(w.scale(FOCUS_DISTANCE));

        Camera {
            origin,
            viewport,
            horizontal,
            vertical,
            u,
            v,
            lower_left_corner,
            lens_radius: APERTURE / 2,
            focus_distance: FOCUS_DISTANCE,
            exposure_start,
            exposure_end,
        }
    }

    pub fn llc(&self) -> (r: Vector3)
        ensures
            r == self.lower_left_corner,
    {
        self.lower_left_corner
    }

    /// One cast through viewport coordinates `(u, v)`: the origin is
    /// jittered within the lens, the direction still aims at the
    /// focus-plane target, and the time is drawn from the exposure
    /// interval. With a zero lens radius the cast is deterministic
    /// in origin and direction.
    pub fn cast_ray(&self, u: i64, v: i64, rng: &mut rand::rngs::StdRng) -> (r: Ray)
        requires
            cam_wf(*self),
        ensures
            cast_from(*self, u as int, v as int, r),
            self.exposure_start <= r.time <= self.exposure_end,
            self.exposure_start < self.exposure_end ==> r.time < self.exposure_end,
            self.lens_radius == 0 ==> r.origin@ == v_add(self.origin@, cam_offset(*self, v_zero()))
                && r.direction@ == cam_dir(*self, u as int, v as int, cam_offset(*self, v_zero())),
    {
        let jitter = Vector3::random_in_unit_sphere(rng);
        let rd = jitter.scale(self.lens_radius);
        let offset = self.u.scale(rd.x).plus(self.v.scale(rd.y));
        let dir = self
            .lower_left_corner
            .plus(self.horizontal.scale(u))
            .plus(self.vertical.scale(v))
            .minus(self.origin)
            .minus(offset);
        let time = draw_time(self.exposure_start, self.exposure_end, rng);
        proof {
            let j = jitter@;
            assert(LEN2_FLOOR <= v_len2(j) && v_len2(j) < ONE);
            assert(rd@ == v_scale(self.lens_radius as int, j));
            lemma_ball_component(j);
            lemma_scale_in_radius(self.lens_radius as int, j.x);
            lemma_scale_in_radius(self.lens_radius as int, j.y);
            if self.lens_radius == 0 {
                assert(rd@ == v_zero());
            }
        }
        Ray::from(self.origin.plus(offset), dir, time)
    }
}

/// Divide each component by two (a fixed-point two).
pub open spec fn v_div2(a: V3) -> V3 {
    V3 {
        x: spec_fdiv(a.x, TWO as int),
        y: spec_fdiv(a.y, TWO as int),
        z: spec_fdiv(a.z, TWO as int),
    }
}

/// A time drawn uniformly from the exposure interval, strictly
/// before its end whenever the interval is nonempty.
fn draw_time(start: i64, end: i64, rng: &mut rand::rngs::StdRng) -> (t: i64)
    requires
        start <= end,
        end - start <= i64::MAX,
    ensures
        start <= t <= end,
        start < end ==> t < end,
{
    let u = next_unit(rng);
    let span = fsub(end, start);
    let off = fmul(u, span);
    proof {
        crate::fx::lemma_unit_scale_strict(u as int, span as int);
    }
    fadd(start, off)
}

} // verus!
