//! Three-component vectors over fixed-point scalars.
//!
//! One type serves as position, direction, normal and RGB color. The
//! mathematical model of a vector is [`V3`], a triple of unbounded
//! integers; every executable operation's contract states the exact
//! model value it produces.

use vstd::prelude::*;

verus! {

use crate::fx::{
    ONE, clip, iabs, tdiv, spec_fadd, spec_fsub, spec_fneg, spec_fmul, spec_fdiv, spec_fsqrt,
    fadd, fsub, fneg, fmul, fdiv, fsqrt, fmin, lemma_tdiv_pos, lemma_isqrt,
};
use crate::rng::next_unit;

/// A vector of fixed-point scalars.
#[derive(Clone, Copy, PartialEq, Eq, Structural, Debug)]
pub struct Vector3 {
    pub x: i64,
    pub y: i64,
    pub z: i64,
}

/// The model of a vector: its three raw fixed-point ticks as
/// unbounded integers.
pub struct V3 {
    pub x: int,
    pub y: int,
    pub z: int,
}

impl View for Vector3 {
    type V = V3;

    open spec fn view(&self) -> V3 {
        V3 { x: self.x as int, y: self.y as int, z: self.z as int }
    }
}

pub open spec fn v3(x: int, y: int, z: int) -> V3 {
    V3 { x: x, y: y, z: z }
}

pub open spec fn v_zero() -> V3 {
    V3 { x: 0, y: 0, z: 0 }
}

pub open spec fn v_add(a: V3, b: V3) -> V3 {
    V3 { x: spec_fadd(a.x, b.x), y: spec_fadd(a.y, b.y), z: spec_fadd(a.z, b.z) }
}

pub open spec fn v_sub(a: V3, b: V3) -> V3 {
    V3 { x: spec_fsub(a.x, b.x), y: spec_fsub(a.y, b.y), z: spec_fsub(a.z, b.z) }
}

pub open spec fn v_neg(a: V3) -> V3 {
    V3 { x: spec_fneg(a.x), y: spec_fneg(a.y), z: spec_fneg(a.z) }
}

/// Component-wise product, as used for color attenuation.
pub open spec fn v_elem_mul(a: V3, b: V3) -> V3 {
    V3 { x: spec_fmul(a.x, b.x), y: spec_fmul(a.y, b.y), z: spec_fmul(a.z, b.z) }
}

/// Scalar times vector.
pub open spec fn v_scale(k: int, a: V3) -> V3 {
    V3 { x: spec_fmul(k, a.x), y: spec_fmul(k, a.y), z: spec_fmul(k, a.z) }
}

/// Vector divided by a nonzero scalar.
pub open spec fn v_div_scalar(a: V3, k: int) -> V3
    recommends
        k != 0,
{
    V3 { x: spec_fdiv(a.x, k), y: spec_fdiv(a.y, k), z: spec_fdiv(a.z, k) }
}

/// Cross product, each component product rescaled on its own.
pub open spec fn v_cross(a: V3, b: V3) -> V3 {
    V3 {
        x: spec_fsub(spec_fmul(a.y, b.z), spec_fmul(a.z, b.y)),
        y: spec_fsub(spec_fmul(a.z, b.x), spec_fmul(a.x, b.z)),
        z: spec_fsub(spec_fmul(a.x, b.y), spec_fmul(a.y, b.x)),
    }
}

/// Dot product: each component product is rescaled on its own, then
/// the three terms are summed.
pub open spec fn v_dot(a: V3, b: V3) -> int {
    spec_fadd(spec_fadd(spec_fmul(a.x, b.x), spec_fmul(a.y, b.y)), spec_fmul(a.z, b.z))
}

pub open spec fn v_len2(a: V3) -> int {
    v_dot(a, a)
}

pub open spec fn v_len(a: V3) -> int {
    spec_fsqrt(v_len2(a))
}

/// The zero vector is the only one every component of which is
/// smaller than the representable epsilon.
pub open spec fn v_near_zero(a: V3) -> bool {
    iabs(a.x) < EPSILON && iabs(a.y) < EPSILON && iabs(a.z) < EPSILON
}

/// `v - 2 (v . n) n`, the mirror image of `v` about the plane with
/// normal `n`.
pub open spec fn v_reflect(v: V3, n: V3) -> V3 {
    v_sub(v, v_scale(spec_fadd(v_dot(v, n), v_dot(v, n)), n))
}

pub open spec fn v_normalize(a: V3) -> V3 {
    if v_len(a) == 0 {
        v_zero()
    } else {
        v_div_scalar(a, v_len(a))
    }
}

/// Snell refraction of the unit direction `uv` at a surface with unit
/// normal `n`, for the given ratio of refractive indices.
pub open spec fn v_refract(uv: V3, n: V3, ratio: int) -> V3 {
    let cos_theta = if v_dot(v_neg(uv), n) <= ONE {
        v_dot(v_neg(uv), n)
    } else {
        ONE as int
    };
    let perp = v_scale(ratio, v_add(uv, v_scale(cos_theta, n)));
    let par_len = spec_fsqrt(clip(iabs(spec_fsub(ONE as int, v_len2(perp)))));
    v_add(perp, v_scale(spec_fneg(par_len), n))
}

/// Below this threshold a fixed-point component is treated as zero.
pub const EPSILON: i64 = 1;

/// The smallest squared length a random interior sample may have
/// (1/64 of a world unit, squared): below it, a sample's direction
/// is dominated by quantization error.
pub const LEN2_FLOOR: i64 = 1024;

/// The unscaled integer dot product of two raw component triples.
pub open spec fn raw_dot(a: V3, b: V3) -> int {
    a.x * b.x + a.y * b.y + a.z * b.z
}

/// The fixed-point sum of a sequence of colors, accumulated left to
/// right as the sampling loop does.
pub open spec fn v_sum(cs: Seq<V3>) -> V3
    decreases cs.len(),
{
    if cs.len() == 0 {
        v_zero()
    } else {
        v_add(v_sum(cs.drop_last()), cs.last())
    }
}

/// Appending one color adds it to the sum.
pub proof fn lemma_v_sum_push(cs: Seq<V3>, x: V3)
    ensures
        v_sum(cs.push(x)) == v_add(v_sum(cs), x),
{
    assert(cs.push(x).drop_last() =~= cs);
    assert(cs.push(x).last() == x);
}

/// A vector strictly inside the unit ball has every component
/// strictly below one.
pub proof fn lemma_ball_component(j: V3)
    requires
        v_len2(j) < 65536,
    ensures
        iabs(j.x) < 65536,
        iabs(j.y) < 65536,
        iabs(j.z) < 65536,
{
    assert(j.x * j.x >= 0 && j.y * j.y >= 0 && j.z * j.z >= 0) by (nonlinear_arith);
    lemma_tdiv_pos(j.x * j.x, 65536);
    lemma_tdiv_pos(j.y * j.y, 65536);
    lemma_tdiv_pos(j.z * j.z, 65536);
    vstd::arithmetic::div_mod::lemma_fundamental_div_mod(j.x * j.x, 65536);
    vstd::arithmetic::div_mod::lemma_fundamental_div_mod(j.y * j.y, 65536);
    vstd::arithmetic::div_mod::lemma_fundamental_div_mod(j.z * j.z, 65536);
    vstd::arithmetic::div_mod::lemma_mod_division_less_than_divisor(j.x * j.x, 65536);
    vstd::arithmetic::div_mod::lemma_mod_division_less_than_divisor(j.y * j.y, 65536);
    vstd::arithmetic::div_mod::lemma_mod_division_less_than_divisor(j.z * j.z, 65536);
    assert(j.x * j.x < 65536 * 65536 && j.y * j.y < 65536 * 65536 && j.z * j.z < 65536 * 65536);
    assert(iabs(j.x) < 65536 && iabs(j.y) < 65536 && iabs(j.z) < 65536) by (nonlinear_arith)
        requires
            j.x * j.x < 65536 * 65536,
            j.y * j.y < 65536 * 65536,
            j.z * j.z < 65536 * 65536,
    ;
}

/// Scaling a component strictly below one by a nonnegative factor
/// never exceeds the factor.
pub proof fn lemma_scale_in_radius(k: int, x: int)
    requires
        0 <= k <= i64::MAX,
        iabs(x) < 65536,
    ensures
        iabs(spec_fmul(k, x)) <= k,
{
    assert(iabs(k * x) <= k * 65535) by (nonlinear_arith)
        requires
            0 <= k,
            iabs(x) <= 65535,
    ;
    lemma_tdiv_pos(iabs(k * x), 65536);
    crate::fx::lemma_tdiv_is_ordered(iabs(k * x), k * 65535, 65536);
    assert(k * 65535 <= 65536 * k) by (nonlinear_arith)
        requires
            k >= 0,
    ;
    crate::fx::lemma_tdiv_is_ordered(k * 65535, 65536 * k, 65536);
    vstd::arithmetic::div_mod::lemma_div_multiples_vanish(k, 65536);
    assert(tdiv(65536 * k, 65536) == k);
}

/// A product that comes out even is rescaled without loss.
proof fn lemma_fmul_exact(a: int, b: int)
    requires
        (a * b) % 65536 == 0,
        iabs((a * b) / 65536) <= i64::MAX,
    ensures
        spec_fmul(a, b) == (a * b) / 65536,
{
    crate::fx::lemma_tdiv_exact(a * b, 65536);
}

/// Mirroring a vector twice about the same unit normal gives the
/// vector back. The hypotheses ask that the scalar lie within one
/// unit, that the normal have unit length exactly, and that every
/// rescaling involved come out even, so no fixed-point truncation
/// occurs; an axis-aligned unit normal satisfies all of them for
/// every `v`.
pub proof fn lemma_reflect_involutive(v: V3, n: V3)
    requires
        iabs(v.x) <= 65536 && iabs(v.y) <= 65536 && iabs(v.z) <= 65536,
        iabs(n.x) <= 65536 && iabs(n.y) <= 65536 && iabs(n.z) <= 65536,
        raw_dot(n, n) == 65536 * 65536,
        (v.x * n.x) % 65536 == 0 && (v.y * n.y) % 65536 == 0 && (v.z * n.z) % 65536 == 0,
        (2 * (raw_dot(v, n) / 65536) * n.x) % 65536 == 0,
        (2 * (raw_dot(v, n) / 65536) * n.y) % 65536 == 0,
        (2 * (raw_dot(v, n) / 65536) * n.z) % 65536 == 0,
        ((2 * (raw_dot(v, n) / 65536) * n.x / 65536) * n.x) % 65536 == 0,
        ((2 * (raw_dot(v, n) / 65536) * n.y / 65536) * n.y) % 65536 == 0,
        ((2 * (raw_dot(v, n) / 65536) * n.z / 65536) * n.z) % 65536 == 0,
    ensures
        v_reflect(v_reflect(v, n), n) == v,
{
    let s: int = 65536;
    let raw = raw_dot(v, n);
    let d = raw / s;

    assert(iabs(v.x * n.x) <= s * s && iabs(v.y * n.y) <= s * s && iabs(v.z * n.z) <= s * s)
        by (nonlinear_arith)
        requires
            iabs(v.x) <= 65536 && iabs(v.y) <= 65536 && iabs(v.z) <= 65536,
            iabs(n.x) <= 65536 && iabs(n.y) <= 65536 && iabs(n.z) <= 65536,
            s == 65536,
    ;
    let tx = (v.x * n.x) / s;
    let ty = (v.y * n.y) / s;
    let tz = (v.z * n.z) / s;
    lemma_fmul_exact(v.x, n.x);
    lemma_fmul_exact(v.y, n.y);
    lemma_fmul_exact(v.z, n.z);
    crate::fx::lemma_tdiv_exact(v.x * n.x, s);
    crate::fx::lemma_tdiv_exact(v.y * n.y, s);
    crate::fx::lemma_tdiv_exact(v.z * n.z, s);
    assert(s * (tx + ty + tz) == raw) by (nonlinear_arith)
        requires
            s * tx == v.x * n.x,
            s * ty == v.y * n.y,
            s * tz == v.z * n.z,
            raw == v.x * n.x + v.y * n.y + v.z * n.z,
    ;
    assert(raw % s == 0) by {
        vstd::arithmetic::div_mod::lemma_mod_multiples_basic(tx + ty + tz, s);
        assert(s * (tx + ty + tz) == (tx + ty + tz) * s) by (nonlinear_arith);
    }
    crate::fx::lemma_tdiv_exact(raw, s);
    assert(s * d == raw);
    assert(tx + ty + tz == d) by (nonlinear_arith)
        requires
            s * (tx + ty + tz) == raw,
            s * d == raw,
            s == 65536,
    ;
    assert(iabs(tx) <= s && iabs(ty) <= s && iabs(tz) <= s);
    assert(v_dot(v, n) == d);
    assert(iabs(d) <= 3 * s);

    // The scaled normal that is subtracted once per reflection.
    let wx = (2 * d * n.x) / s;
    let wy = (2 * d * n.y) / s;
    let wz = (2 * d * n.z) / s;
    assert(iabs(2 * d * n.x) <= 6 * s * s && iabs(2 * d * n.y) <= 6 * s * s && iabs(2 * d * n.z)
        <= 6 * s * s) by (nonlinear_arith)
        requires
            iabs(d) <= 3 * s,
            iabs(n.x) <= s && iabs(n.y) <= s && iabs(n.z) <= s,
            s == 65536,
    ;
    crate::fx::lemma_tdiv_exact(2 * d * n.x, s);
    crate::fx::lemma_tdiv_exact(2 * d * n.y, s);
    crate::fx::lemma_tdiv_exact(2 * d * n.z, s);
    assert(iabs(wx) <= 6 * s && iabs(wy) <= 6 * s && iabs(wz) <= 6 * s) by (nonlinear_arith)
        requires
            s * wx == 2 * d * n.x,
            s * wy == 2 * d * n.y,
            s * wz == 2 * d * n.z,
            iabs(2 * d * n.x) <= 6 * s * s,
            iabs(2 * d * n.y) <= 6 * s * s,
            iabs(2 * d * n.z) <= 6 * s * s,
            s == 65536,
    ;
    assert(spec_fadd(d, d) == 2 * d);
    assert(spec_fmul(2 * d, n.x) == wx && spec_fmul(2 * d, n.y) == wy && spec_fmul(2 * d, n.z)
        == wz) by {
        lemma_fmul_exact(2 * d, n.x);
        lemma_fmul_exact(2 * d, n.y);
        lemma_fmul_exact(2 * d, n.z);
    }
    let r = v_reflect(v, n);
    assert(r.x == v.x - wx && r.y == v.y - wy && r.z == v.z - wz);

    // The reflected vector's dot with the normal is the exact
    // negation of the first dot.
    assert((wx * n.x) % s == 0 && (wy * n.y) % s == 0 && (wz * n.z) % s == 0);
    let ux = (wx * n.x) / s;
    let uy = (wy * n.y) / s;
    let uz = (wz * n.z) / s;
    crate::fx::lemma_tdiv_exact(wx * n.x, s);
    crate::fx::lemma_tdiv_exact(wy * n.y, s);
    crate::fx::lemma_tdiv_exact(wz * n.z, s);
    assert(s * s * ux == 2 * d * (n.x * n.x)) by (nonlinear_arith)
        requires
            s * ux == wx * n.x,
            s * wx == 2 * d * n.x,
    ;
    assert(s * s * uy == 2 * d * (n.y * n.y)) by (nonlinear_arith)
        requires
            s * uy == wy * n.y,
            s * wy == 2 * d * n.y,
    ;
    assert(s * s * uz == 2 * d * (n.z * n.z)) by (nonlinear_arith)
        requires
            s * uz == wz * n.z,
            s * wz == 2 * d * n.z,
    ;
    assert(s * s * (ux + uy + uz) == 2 * d * raw_dot(n, n)) by (nonlinear_arith)
        requires
            s * s * ux == 2 * d * (n.x * n.x),
            s * s * uy == 2 * d * (n.y * n.y),
            s * s * uz == 2 * d * (n.z * n.z),
            raw_dot(n, n) == n.x * n.x + n.y * n.y + n.z * n.z,
    ;
    assert(ux + uy + uz == 2 * d) by (nonlinear_arith)
        requires
            s * s * (ux + uy + uz) == 2 * d * (s * s),
            s == 65536,
    ;
    assert(iabs(wx * n.x) <= 6 * s * s * s) by (nonlinear_arith)
        requires
            iabs(wx) <= 6 * s,
            iabs(n.x) <= s,
            s == 65536,
    ;
    assert(iabs(wy * n.y) <= 6 * s * s * s && iabs(wz * n.z) <= 6 * s * s * s)
        by (nonlinear_arith)
        requires
            iabs(wy) <= 6 * s,
            iabs(wz) <= 6 * s,
            iabs(n.y) <= s,
            iabs(n.z) <= s,
            s == 65536,
    ;
    assert(iabs(ux) <= 6 * s * s && iabs(uy) <= 6 * s * s && iabs(uz) <= 6 * s * s)
        by (nonlinear_arith)
        requires
            s * ux == wx * n.x,
            s * uy == wy * n.y,
            s * uz == wz * n.z,
            iabs(wx * n.x) <= 6 * s * s * s,
            iabs(wy * n.y) <= 6 * s * s * s,
            iabs(wz * n.z) <= 6 * s * s * s,
            s == 65536,
    ;
    assert((r.x * n.x) % s == 0 && (r.y * n.y) % s == 0 && (r.z * n.z) % s == 0) by {
        assert(r.x * n.x == v.x * n.x - wx * n.x && r.y * n.y == v.y * n.y - wy * n.y && r.z * n.z
            == v.z * n.z - wz * n.z) by (nonlinear_arith)
            requires
                r.x == v.x - wx && r.y == v.y - wy && r.z == v.z - wz,
        ;
        vstd::arithmetic::div_mod::lemma_mod_multiples_basic(tx - ux, s);
        vstd::arithmetic::div_mod::lemma_mod_multiples_basic(ty - uy, s);
        vstd::arithmetic::div_mod::lemma_mod_multiples_basic(tz - uz, s);
        assert((tx - ux) * s == v.x * n.x - wx * n.x && (ty - uy) * s == v.y * n.y - wy * n.y && (
        tz - uz) * s == v.z * n.z - wz * n.z) by (nonlinear_arith)
            requires
                s * tx == v.x * n.x,
                s * ty == v.y * n.y,
                s * tz == v.z * n.z,
                s * ux == wx * n.x,
                s * uy == wy * n.y,
                s * uz == wz * n.z,
        ;
    }
    crate::fx::lemma_tdiv_exact(r.x * n.x, s);
    crate::fx::lemma_tdiv_exact(r.y * n.y, s);
    crate::fx::lemma_tdiv_exact(r.z * n.z, s);
    assert((r.x * n.x) / s == tx - ux && (r.y * n.y) / s == ty - uy && (r.z * n.z) / s == tz - uz)
        by (nonlinear_arith)
        requires
            s * ((r.x * n.x) / s) == r.x * n.x,
            s * ((r.y * n.y) / s) == r.y * n.y,
            s * ((r.z * n.z) / s) == r.z * n.z,
            s * tx == v.x * n.x,
            s * ty == v.y * n.y,
            s * tz == v.z * n.z,
            s * ux == wx * n.x,
            s * uy == wy * n.y,
            s * uz == wz * n.z,
            r.x == v.x - wx && r.y == v.y - wy && r.z == v.z - wz,
            s == 65536,
    ;
    assert(spec_fmul(r.x, n.x) == tx - ux && spec_fmul(r.y, n.y) == ty - uy && spec_fmul(r.z, n.z)
        == tz - uz) by {
        lemma_fmul_exact(r.x, n.x);
        lemma_fmul_exact(r.y, n.y);
        lemma_fmul_exact(r.z, n.z);
    }
    assert(v_dot(r, n) == (tx - ux) + (ty - uy) + (tz - uz));
    assert(v_dot(r, n) == -d);

    // Subtracting the same scaled normal, now negated, restores `v`.
    assert(spec_fadd(-d, -d) == -2 * d);
    assert((-2 * d * n.x) % s == 0 && (-2 * d * n.y) % s == 0 && (-2 * d * n.z) % s == 0) by {
        vstd::arithmetic::div_mod::lemma_mod_multiples_basic(-wx, s);
        vstd::arithmetic::div_mod::lemma_mod_multiples_basic(-wy, s);
        vstd::arithmetic::div_mod::lemma_mod_multiples_basic(-wz, s);
        assert((-wx) * s == -2 * d * n.x && (-wy) * s == -2 * d * n.y && (-wz) * s == -2 * d
            * n.z) by (nonlinear_arith)
            requires
                s * wx == 2 * d * n.x,
                s * wy == 2 * d * n.y,
                s * wz == 2 * d * n.z,
        ;
    }
    crate::fx::lemma_tdiv_exact(-2 * d * n.x, s);
    crate::fx::lemma_tdiv_exact(-2 * d * n.y, s);
    crate::fx::lemma_tdiv_exact(-2 * d * n.z, s);
    assert((-2 * d * n.x) / s == -wx && (-2 * d * n.y) / s == -wy && (-2 * d * n.z) / s == -wz)
        by (nonlinear_arith)
        requires
            s * ((-2 * d * n.x) / s) == -2 * d * n.x,
            s * ((-2 * d * n.y) / s) == -2 * d * n.y,
            s * ((-2 * d * n.z) / s) == -2 * d * n.z,
            s * wx == 2 * d * n.x,
            s * wy == 2 * d * n.y,
            s * wz == 2 * d * n.z,
            s == 65536,
    ;
    assert(spec_fmul(-2 * d, n.x) == -wx && spec_fmul(-2 * d, n.y) == -wy && spec_fmul(-2 * d, n.z)
        == -wz) by {
        lemma_fmul_exact(-2 * d, n.x);
        lemma_fmul_exact(-2 * d, n.y);
        lemma_fmul_exact(-2 * d, n.z);
    }
    let r2 = v_reflect(r, n);
    assert(r2.x == v.x && r2.y == v.y && r2.z == v.z);
    assert(r2 == v);
}

/// Each component product is nonnegative, so a squared length is.
pub proof fn lemma_len2_nonneg(a: V3)
    ensures
        v_len2(a) >= 0,
{
    assert(a.x * a.x >= 0 && a.y * a.y >= 0 && a.z * a.z >= 0) by (nonlinear_arith);
    lemma_tdiv_pos(a.x * a.x, ONE as int);
    lemma_tdiv_pos(a.y * a.y, ONE as int);
    lemma_tdiv_pos(a.z * a.z, ONE as int);
}

/// A unit refraction ratio bends nothing: refracting a unit
/// direction at a unit normal with ratio one returns the direction
/// unchanged. The hypotheses ask that both vectors have unit length
/// exactly, that the incidence cosine lie in `[0, 1]`, and that
/// every rescaling involved come out even, so no fixed-point
/// truncation occurs; axis-aligned unit vectors satisfy all of them.
pub proof fn lemma_refract_identity(uv: V3, n: V3)
    requires
        iabs(uv.x) <= 65536 && iabs(uv.y) <= 65536 && iabs(uv.z) <= 65536,
        iabs(n.x) <= 65536 && iabs(n.y) <= 65536 && iabs(n.z) <= 65536,
        raw_dot(uv, uv) == 65536 * 65536,
        raw_dot(n, n) == 65536 * 65536,
        (uv.x * n.x) % 65536 == 0 && (uv.y * n.y) % 65536 == 0 && (uv.z * n.z) % 65536 == 0,
        -65536 <= raw_dot(uv, n) / 65536 <= 0,
        ((raw_dot(uv, n) / 65536) * n.x) % 65536 == 0,
        ((raw_dot(uv, n) / 65536) * n.y) % 65536 == 0,
        ((raw_dot(uv, n) / 65536) * n.z) % 65536 == 0,
        ({
            let d = raw_dot(uv, n) / 65536;
            let px = uv.x - (d * n.x) / 65536;
            let py = uv.y - (d * n.y) / 65536;
            let pz = uv.z - (d * n.z) / 65536;
            (px * px) % 65536 == 0 && (py * py) % 65536 == 0 && (pz * pz) % 65536 == 0 && (d * d)
                % 65536 == 0
        }),
    ensures
        v_refract(uv, n, 65536) == uv,
{
    let s: int = 65536;
    let raw = raw_dot(uv, n);
    let d = raw / s;

    // The fixed-point dot of `uv` and `n` is exactly `d`.
    assert(iabs(uv.x * n.x) <= s * s && iabs(uv.y * n.y) <= s * s && iabs(uv.z * n.z) <= s * s)
        by (nonlinear_arith)
        requires
            iabs(uv.x) <= 65536 && iabs(uv.y) <= 65536 && iabs(uv.z) <= 65536,
            iabs(n.x) <= 65536 && iabs(n.y) <= 65536 && iabs(n.z) <= 65536,
            s == 65536,
    ;
    let tx = (uv.x * n.x) / s;
    let ty = (uv.y * n.y) / s;
    let tz = (uv.z * n.z) / s;
    crate::fx::lemma_tdiv_exact(uv.x * n.x, s);
    crate::fx::lemma_tdiv_exact(uv.y * n.y, s);
    crate::fx::lemma_tdiv_exact(uv.z * n.z, s);
    assert(s * (tx + ty + tz) == raw) by (nonlinear_arith)
        requires
            s * tx == uv.x * n.x,
            s * ty == uv.y * n.y,
            s * tz == uv.z * n.z,
            raw == uv.x * n.x + uv.y * n.y + uv.z * n.z,
    ;
    assert(raw % s == 0) by {
        vstd::arithmetic::div_mod::lemma_mod_multiples_basic(tx + ty + tz, s);
        assert(s * (tx + ty + tz) == (tx + ty + tz) * s) by (nonlinear_arith);
    }
    crate::fx::lemma_tdiv_exact(raw, s);
    assert(tx + ty + tz == d);

    // The cosine the refraction uses is exactly `-d`.
    assert((-uv.x) * n.x == -(uv.x * n.x) && (-uv.y) * n.y == -(uv.y * n.y) && (-uv.z) * n.z == -(
    uv.z * n.z)) by (nonlinear_arith);
    assert((-(uv.x * n.x)) % s == 0 && (-(uv.y * n.y)) % s == 0 && (-(uv.z * n.z)) % s == 0) by {
        vstd::arithmetic::div_mod::lemma_mod_multiples_basic(-tx, s);
        vstd::arithmetic::div_mod::lemma_mod_multiples_basic(-ty, s);
        vstd::arithmetic::div_mod::lemma_mod_multiples_basic(-tz, s);
        assert((-tx) * s == -(uv.x * n.x) && (-ty) * s == -(uv.y * n.y) && (-tz) * s == -(uv.z
            * n.z)) by (nonlinear_arith)
            requires
                s * tx == uv.x * n.x,
                s * ty == uv.y * n.y,
                s * tz == uv.z * n.z,
        ;
    }
    crate::fx::lemma_tdiv_exact(-(uv.x * n.x), s);
    crate::fx::lemma_tdiv_exact(-(uv.y * n.y), s);
    crate::fx::lemma_tdiv_exact(-(uv.z * n.z), s);
    assert((-(uv.x * n.x)) / s == -tx && (-(uv.y * n.y)) / s == -ty && (-(uv.z * n.z)) / s == -tz)
        by (nonlinear_arith)
        requires
            s * ((-(uv.x * n.x)) / s) == -(uv.x * n.x),
            s * ((-(uv.y * n.y)) / s) == -(uv.y * n.y),
            s * ((-(uv.z * n.z)) / s) == -(uv.z * n.z),
            s * tx == uv.x * n.x,
            s * ty == uv.y * n.y,
            s * tz == uv.z * n.z,
            s == 65536,
    ;
    assert(v_dot(v_neg(uv), n) == -d);
    let cos = -d;

    // The scaled normal added before and subtracted after.
    let kx = (d * n.x) / s;
    let ky = (d * n.y) / s;
    let kz = (d * n.z) / s;
    assert(iabs(d * n.x) <= s * s && iabs(d * n.y) <= s * s && iabs(d * n.z) <= s * s)
        by (nonlinear_arith)
        requires
            -s <= d <= 0,
            iabs(n.x) <= s && iabs(n.y) <= s && iabs(n.z) <= s,
            s == 65536,
    ;
    crate::fx::lemma_tdiv_exact(d * n.x, s);
    crate::fx::lemma_tdiv_exact(d * n.y, s);
    crate::fx::lemma_tdiv_exact(d * n.z, s);
    assert(iabs(kx) <= s && iabs(ky) <= s && iabs(kz) <= s) by (nonlinear_arith)
        requires
            s * kx == d * n.x,
            s * ky == d * n.y,
            s * kz == d * n.z,
            iabs(d * n.x) <= s * s,
            iabs(d * n.y) <= s * s,
            iabs(d * n.z) <= s * s,
            s == 65536,
    ;
    assert((cos * n.x) % s == 0 && (cos * n.y) % s == 0 && (cos * n.z) % s == 0) by {
        vstd::arithmetic::div_mod::lemma_mod_multiples_basic(-kx, s);
        vstd::arithmetic::div_mod::lemma_mod_multiples_basic(-ky, s);
        vstd::arithmetic::div_mod::lemma_mod_multiples_basic(-kz, s);
        assert((-kx) * s == cos * n.x && (-ky) * s == cos * n.y && (-kz) * s == cos * n.z)
            by (nonlinear_arith)
            requires
                s * kx == d * n.x,
                s * ky == d * n.y,
                s * kz == d * n.z,
                cos == -d,
        ;
    }
    crate::fx::lemma_tdiv_exact(cos * n.x, s);
    crate::fx::lemma_tdiv_exact(cos * n.y, s);
    crate::fx::lemma_tdiv_exact(cos * n.z, s);
    assert((cos * n.x) / s == -kx && (cos * n.y) / s == -ky && (cos * n.z) / s == -kz)
        by (nonlinear_arith)
        requires
            s * ((cos * n.x) / s) == cos * n.x,
            s * ((cos * n.y) / s) == cos * n.y,
            s * ((cos * n.z) / s) == cos * n.z,
            s * kx == d * n.x,
            s * ky == d * n.y,
            s * kz == d * n.z,
            cos == -d,
            s == 65536,
    ;
    assert(spec_fmul(cos, n.x) == -kx && spec_fmul(cos, n.y) == -ky && spec_fmul(cos, n.z) == -kz);

    // Scaling the perpendicular part by a ratio of one changes
    // nothing.
    let px = uv.x - kx;
    let py = uv.y - ky;
    let pz = uv.z - kz;
    let inner = v_add(uv, v_scale(cos, n));
    assert(inner.x == px && inner.y == py && inner.z == pz);
    assert((s * px) % s == 0 && (s * py) % s == 0 && (s * pz) % s == 0) by {
        vstd::arithmetic::div_mod::lemma_mod_multiples_basic(px, s);
        vstd::arithmetic::div_mod::lemma_mod_multiples_basic(py, s);
        vstd::arithmetic::div_mod::lemma_mod_multiples_basic(pz, s);
        assert(px * s == s * px && py * s == s * py && pz * s == s * pz) by (nonlinear_arith);
    }
    crate::fx::lemma_tdiv_exact(s * px, s);
    crate::fx::lemma_tdiv_exact(s * py, s);
    crate::fx::lemma_tdiv_exact(s * pz, s);
    assert((s * px) / s == px && (s * py) / s == py && (s * pz) / s == pz) by (nonlinear_arith)
        requires
            s * ((s * px) / s) == s * px,
            s * ((s * py) / s) == s * py,
            s * ((s * pz) / s) == s * pz,
            s == 65536,
    ;
    let perp = v_scale(65536, inner);
    assert(perp.x == px && perp.y == py && perp.z == pz);

    // The squared length of the perpendicular part is one minus the
    // squared cosine, exactly.
    let qx = (px * px) / s;
    let qy = (py * py) / s;
    let qz = (pz * pz) / s;
    assert(iabs(px * px) <= 4 * s * s && iabs(py * py) <= 4 * s * s && iabs(pz * pz) <= 4 * s * s)
        by (nonlinear_arith)
        requires
            iabs(px) <= 2 * s && iabs(py) <= 2 * s && iabs(pz) <= 2 * s,
            s == 65536,
    ;
    crate::fx::lemma_tdiv_exact(px * px, s);
    crate::fx::lemma_tdiv_exact(py * py, s);
    crate::fx::lemma_tdiv_exact(pz * pz, s);
    let e = (d * d) / s;
    crate::fx::lemma_tdiv_exact(d * d, s);
    assert(d * d >= 0 && e >= 0) by (nonlinear_arith)
        requires
            s * e == d * d,
            s == 65536,
    ;
    assert(e <= s) by (nonlinear_arith)
        requires
            s * e == d * d,
            -s <= d <= 0,
            s == 65536,
    ;
    // Sum of the three squared components of `perp`.
    assert(px * px == uv.x * uv.x - 2 * (uv.x * kx) + kx * kx && py * py == uv.y * uv.y - 2 * (uv.y
        * ky) + ky * ky && pz * pz == uv.z * uv.z - 2 * (uv.z * kz) + kz * kz)
        by (nonlinear_arith)
        requires
            px == uv.x - kx && py == uv.y - ky && pz == uv.z - kz,
    ;
    assert(s * (uv.x * kx) == d * (uv.x * n.x)) by (nonlinear_arith)
        requires
            s * kx == d * n.x,
    ;
    assert(s * (uv.y * ky) == d * (uv.y * n.y)) by (nonlinear_arith)
        requires
            s * ky == d * n.y,
    ;
    assert(s * (uv.z * kz) == d * (uv.z * n.z)) by (nonlinear_arith)
        requires
            s * kz == d * n.z,
    ;
    assert(s * (uv.x * kx + uv.y * ky + uv.z * kz) == d * raw) by (nonlinear_arith)
        requires
            s * (uv.x * kx) == d * (uv.x * n.x),
            s * (uv.y * ky) == d * (uv.y * n.y),
            s * (uv.z * kz) == d * (uv.z * n.z),
            raw == uv.x * n.x + uv.y * n.y + uv.z * n.z,
    ;
    assert(s * (uv.x * kx + uv.y * ky + uv.z * kz) == s * (d * d)) by (nonlinear_arith)
        requires
            s * (uv.x * kx + uv.y * ky + uv.z * kz) == d * raw,
            raw == s * d,
    ;
    assert(uv.x * kx + uv.y * ky + uv.z * kz == d * d);
    assert(s * s * (kx * kx) == d * d * (n.x * n.x)) by (nonlinear_arith)
        requires
            s * kx == d * n.x,
    ;
    assert(s * s * (ky * ky) == d * d * (n.y * n.y)) by (nonlinear_arith)
        requires
            s * ky == d * n.y,
    ;
    assert(s * s * (kz * kz) == d * d * (n.z * n.z)) by (nonlinear_arith)
        requires
            s * kz == d * n.z,
    ;
    assert(s * s * (kx * kx + ky * ky + kz * kz) == d * d * raw_dot(n, n)) by (nonlinear_arith)
        requires
            s * s * (kx * kx) == d * d * (n.x * n.x),
            s * s * (ky * ky) == d * d * (n.y * n.y),
            s * s * (kz * kz) == d * d * (n.z * n.z),
            raw_dot(n, n) == n.x * n.x + n.y * n.y + n.z * n.z,
    ;
    assert(kx * kx + ky * ky + kz * kz == d * d) by (nonlinear_arith)
        requires
            s * s * (kx * kx + ky * ky + kz * kz) == d * d * (s * s),
            s == 65536,
    ;
    assert(px * px + py * py + pz * pz == s * s - d * d);
    assert(s * (qx + qy + qz) == s * s - s * e) by (nonlinear_arith)
        requires
            s * qx == px * px,
            s * qy == py * py,
            s * qz == pz * pz,
            px * px + py * py + pz * pz == s * s - d * d,
            s * e == d * d,
    ;
    assert(qx + qy + qz == s - e);
    assert(qx >= 0 && qy >= 0 && qz >= 0 && qx <= 4 * s && qy <= 4 * s && qz <= 4 * s)
        by (nonlinear_arith)
        requires
            s * qx == px * px,
            s * qy == py * py,
            s * qz == pz * pz,
            iabs(px * px) <= 4 * s * s,
            iabs(py * py) <= 4 * s * s,
            iabs(pz * pz) <= 4 * s * s,
            s == 65536,
    ;
    assert(v_len2(perp) == s - e);

    // The parallel magnitude the square root recovers is exactly the
    // cosine, so the two normal contributions cancel.
    assert(spec_fsub(ONE as int, v_len2(perp)) == e);
    assert(clip(iabs(e)) == e);
    assert(e * s == d * d) by (nonlinear_arith)
        requires
            s * e == d * d,
    ;
    crate::fx::lemma_isqrt(e * s);
    assert(cos * cos == d * d && (cos + 1) * (cos + 1) > d * d) by (nonlinear_arith)
        requires
            cos == -d,
            d <= 0,
    ;
    crate::fx::lemma_isqrt_unique(d * d, crate::fx::isqrt(e * s), cos);
    assert(spec_fsqrt(e) == cos);
    assert(spec_fneg(cos) == d);
    assert(spec_fmul(d, n.x) == kx && spec_fmul(d, n.y) == ky && spec_fmul(d, n.z) == kz);
    let out = v_refract(uv, n, 65536);
    assert(out.x == px + kx && out.y == py + ky && out.z == pz + kz);
    assert(out == uv);
}

impl Vector3 {
    pub fn new(x: i64, y: i64, z: i64) -> (r: Self)
        ensures
            r@ == v3(x as int, y as int, z as int),
    {
        Self { x, y, z }
    }

    pub fn from_elem(e: i64) -> (r: Self)
        ensures
            r@ == v3(e as int, e as int, e as int),
    {
        Self { x: e, y: e, z: e }
    }

    pub fn zeros() -> (r: Self)
        ensures
            r@ == v_zero(),
    {
        Self::from_elem(0)
    }

    pub fn plus(self, other: Self) -> (r: Self)
        ensures
            r@ == v_add(self@, other@),
    {
        Self { x: fadd(self.x, other.x), y: fadd(self.y, other.y), z: fadd(self.z, other.z) }
    }

    pub fn minus(self, other: Self) -> (r: Self)
        ensures
            r@ == v_sub(self@, other@),
    {
        Self { x: fsub(self.x, other.x), y: fsub(self.y, other.y), z: fsub(self.z, other.z) }
    }

    pub fn negate(self) -> (r: Self)
        ensures
            r@ == v_neg(self@),
    {
        Self { x: fneg(self.x), y: fneg(self.y), z: fneg(self.z) }
    }

    pub fn elem_mul(self, other: Self) -> (r: Self)
        ensures
            r@ == v_elem_mul(self@, other@),
    {
        Self { x: fmul(self.x, other.x), y: fmul(self.y, other.y), z: fmul(self.z, other.z) }
    }

    pub fn scale(self, k: i64) -> (r: Self)
        ensures
            r@ == v_scale(k as int, self@),
    {
        Self { x: fmul(k, self.x), y: fmul(k, self.y), z: fmul(k, self.z) }
    }

    pub fn div_scalar(self, k: i64) -> (r: Self)
        requires
            k != 0,
        ensures
            r@ == v_div_scalar(self@, k as int),
    {
        Self { x: fdiv(self.x, k), y: fdiv(self.y, k), z: fdiv(self.z, k) }
    }

    pub fn dot(self, other: Self) -> (r: i64)
        ensures
            r == v_dot(self@, other@),
    {
        fadd(fadd(fmul(self.x, other.x), fmul(self.y, other.y)), fmul(self.z, other.z))
    }

    pub fn length_squared(&self) -> (r: i64)
        ensures
            r == v_len2(self@),
            r >= 0,
    {
        proof {
            lemma_len2_nonneg(self@);
        }
        self.dot(*self)
    }

    pub fn length(&self) -> (r: i64)
        ensures
            r == v_len(self@),
            r >= 0,
    {
        let l2 = self.length_squared();
        fsqrt(l2)
    }

    pub fn cross(self, other: Self) -> (r: Self)
        ensures
            r@ == v_cross(self@, other@),
    {
        Self {
            x: fsub(fmul(self.y, other.z), fmul(self.z, other.y)),
            y: fsub(fmul(self.z, other.x), fmul(self.x, other.z)),
            z: fsub(fmul(self.x, other.y), fmul(self.y, other.x)),
        }
    }

    /// Divide by the fixed-point length; the zero vector maps to
    /// itself. The result has unit length only up to quantization:
    /// for well-scaled inputs (squared length well above
    /// [`LEN2_FLOOR`]) the error is a few ticks, but a near-quantum
    /// input can normalize with large relative error, since its
    /// squared length itself carries almost no bits.
    pub fn normalize(self) -> (r: Self)
        ensures
            r@ == v_normalize(self@),
    {
        let l = self.length();
        if l == 0 {
            Self::zeros()
        } else {
            self.div_scalar(l)
        }
    }

    /// All three components below the epsilon threshold, each axis
    /// treated alike.
    pub fn near_zero(&self) -> (r: bool)
        ensures
            r == v_near_zero(self@),
    {
        -EPSILON < self.x && self.x < EPSILON && -EPSILON < self.y && self.y < EPSILON
            && -EPSILON < self.z && self.z < EPSILON
    }

    pub fn reflect(self, other: Self) -> (r: Self)
        ensures
            r@ == v_reflect(self@, other@),
    {
        let d = self.dot(other);
        self.minus(other.scale(fadd(d, d)))
    }

    /// Refraction by the ratio of refractive indices, for a unit
    /// incident direction and unit normal.
    pub fn refract(self, n: Self, ratio: i64) -> (r: Self)
        ensures
            r@ == v_refract(self@, n@, ratio as int),
    {
        let cos_theta = fmin(self.negate().dot(n), ONE);
        let perp = self.plus(n.scale(cos_theta)).scale(ratio);
        let m = fsub(ONE, perp.length_squared());
        let m_abs = crate::fx::fabs(m);
        let par_len = fsqrt(m_abs);
        perp.plus(n.scale(fneg(par_len)))
    }

    /// Each component drawn uniformly from `[0, 1)`.
    pub fn random(rng: &mut rand::rngs::StdRng) -> (r: Self)
        ensures
            0 <= r@.x < ONE,
            0 <= r@.y < ONE,
            0 <= r@.z < ONE,
    {
        let x = next_unit(rng);
        let y = next_unit(rng);
        let z = next_unit(rng);
        Self { x, y, z }
    }

    /// Each component drawn uniformly from `[lo, hi)` (the upper end
    /// is reached only when the interval is empty).
    pub fn random_double(lo: i64, hi: i64, rng: &mut rand::rngs::StdRng) -> (r: Self)
        requires
            lo <= hi,
            hi - lo <= i64::MAX,
        ensures
            lo <= r@.x <= hi,
            lo <= r@.y <= hi,
            lo <= r@.z <= hi,
            lo < hi ==> r@.x < hi && r@.y < hi && r@.z < hi,
    {
        let x = random_component(lo, hi, rng);
        let y = random_component(lo, hi, rng);
        let z = random_component(lo, hi, rng);
        Self { x, y, z }
    }

    /// Rejection-sample a vector strictly inside the unit sphere; the
    /// draw is also kept above a small squared-length floor, so the
    /// result is never quantization noise and can always be
    /// normalized. After a bounded number of failed tries an
    /// arbitrary fixed interior vector is used instead.
    pub fn random_in_unit_sphere(rng: &mut rand::rngs::StdRng) -> (r: Self)
        ensures
            LEN2_FLOOR <= v_len2(r@) < ONE,
    {
        let mut tries: u32 = 0;
        while tries < 64
            invariant
                tries <= 64,
            decreases 64 - tries,
        {
            let v = Self::random_double(-ONE, ONE, rng);
            let l2 = v.length_squared();
            if LEN2_FLOOR <= l2 && l2 < ONE {
                return v;
            }
            tries = tries + 1;
        }
        let fallback = Self::new(32768, 0, 0);
        proof {
            assert(1073741824int / 65536 == 16384);
            assert(v_len2(fallback@) == 16384);
        }
        fallback
    }

    /// A random interior vector, flipped if needed so that it leaves
    /// the surface: its dot product with the normal is nonnegative
    /// unless negation saturated.
    pub fn random_in_hemisphere(normal: Self, rng: &mut rand::rngs::StdRng) -> (r: Self)
        ensures
            exists|v: V3|
                LEN2_FLOOR <= #[trigger] v_len2(v) && v_len2(v) < ONE && (if v_dot(v, normal@)
                    > 0 {
                    r@ == v
                } else {
                    r@ == v_neg(v)
                }),
    {
        let in_unit_sphere = Self::random_in_unit_sphere(rng);
        let d = in_unit_sphere.dot(normal);
        let res = if d > 0 {
            in_unit_sphere
        } else {
            in_unit_sphere.negate()
        };
        proof {
            let w = in_unit_sphere@;
            if v_dot(w, normal@) > 0 {
                assert(LEN2_FLOOR <= v_len2(w) < ONE && res@ == w);
            } else {
                assert(LEN2_FLOOR <= v_len2(w) < ONE && res@ == v_neg(w));
            }
        }
        res
    }

    /// A random direction of unit length, up to fixed-point rounding.
    pub fn random_unit_vector(rng: &mut rand::rngs::StdRng) -> (r: Self)
        ensures
            exists|v: V3|
                LEN2_FLOOR <= #[trigger] v_len2(v) && v_len2(v) < ONE && r@ == v_normalize(v),
    {
        let v = Self::random_in_unit_sphere(rng);
        v.normalize()
    }
}

/// One uniform draw scaled into `[lo, hi]`.
fn random_component(lo: i64, hi: i64, rng: &mut rand::rngs::StdRng) -> (r: i64)
    requires
        lo <= hi,
        hi - lo <= i64::MAX,
    ensures
        lo <= r <= hi,
        lo < hi ==> r < hi,
{
    let u = next_unit(rng);
    let span = fsub(hi, lo);
    assert(span == hi - lo);
    let off = fmul(u, span);
    proof {
        crate::fx::lemma_unit_scale_strict(u as int, span as int);
        assert(lo <= lo + off <= hi);
    }
    fadd(lo, off)
}

} // verus!
