//! Signed 64-bit fixed-point scalars at scale `2^16`.
//!
//! A scalar `a: i64` stands for the rational `a / 65536`. Every
//! operation is total: results that would leave the `i64` range are
//! clamped to it, and each operation's contract states the exact
//! integer it returns, via [`clip`] and the truncating division
//! [`tdiv`].

use vstd::prelude::*;

verus! {

use vstd::arithmetic::div_mod::lemma_fundamental_div_mod;
use vstd::arithmetic::div_mod::lemma_div_pos_is_pos;
use vstd::arithmetic::div_mod::lemma_div_is_ordered;
use vstd::arithmetic::div_mod::lemma_div_nonincreasing;

/// The fixed-point unit: this many raw ticks stand for the value one.
pub const ONE: i64 = 65536;

/// Magnitude of an integer.
pub open spec fn iabs(a: int) -> int {
    if a < 0 {
        -a
    } else {
        a
    }
}

/// Saturation to the `i64` range.
pub open spec fn clip(x: int) -> int {
    if x > i64::MAX {
        i64::MAX as int
    } else if x < i64::MIN {
        i64::MIN as int
    } else {
        x
    }
}

/// Division rounding toward zero, as the machine performs it.
pub open spec fn tdiv(a: int, b: int) -> int
    recommends
        b != 0,
{
    if (a < 0) == (b < 0) {
        iabs(a) / iabs(b)
    } else {
        -(iabs(a) / iabs(b))
    }
}

/// Fixed-point addition, clamped.
pub open spec fn spec_fadd(a: int, b: int) -> int {
    clip(a + b)
}

/// Fixed-point subtraction, clamped.
pub open spec fn spec_fsub(a: int, b: int) -> int {
    clip(a - b)
}

/// Fixed-point negation, clamped.
pub open spec fn spec_fneg(a: int) -> int {
    clip(-a)
}

/// Fixed-point multiplication: exact product, rescaled by a
/// truncating division, then clamped.
pub open spec fn spec_fmul(a: int, b: int) -> int {
    clip(tdiv(a * b, ONE as int))
}

/// Fixed-point division: the dividend is raised by the scale first,
/// so the quotient is again a fixed-point scalar.
pub open spec fn spec_fdiv(a: int, b: int) -> int
    recommends
        b != 0,
{
    clip(tdiv(a * (ONE as int), b))
}

/// The integer square root: the unique `r >= 0` with
/// `r * r <= n < (r + 1) * (r + 1)`.
pub open spec fn isqrt(n: int) -> int
    recommends
        n >= 0,
{
    choose|r: int| 0 <= r && #[trigger] (r * r) <= n && n < (r + 1) * (r + 1)
}

/// Fixed-point square root: `sqrt(a / 65536) * 65536 == sqrt(a * 65536)`.
pub open spec fn spec_fsqrt(a: int) -> int
    recommends
        a >= 0,
{
    isqrt(a * (ONE as int))
}

/// An integer square root exists for every `n >= 0`.
pub proof fn lemma_isqrt_exists(n: int)
    requires
        n >= 0,
    ensures
        exists|r: int| 0 <= r && #[trigger] (r * r) <= n && n < (r + 1) * (r + 1),
    decreases n,
{
    if n == 0 {
        let r0: int = 0;
        assert(0 <= r0 && r0 * r0 <= n && n < (r0 + 1) * (r0 + 1)) by (nonlinear_arith)
            requires
                n == 0,
                r0 == 0,
        ;
    } else {
        lemma_isqrt_exists(n - 1);
        let r = choose|r: int| 0 <= r && #[trigger] (r * r) <= n - 1 && n - 1 < (r + 1) * (r + 1);
        if (r + 1) * (r + 1) <= n {
            // then (r + 1) * (r + 1) == n, and r + 1 is the root of n
            assert(n < (r + 2) * (r + 2)) by (nonlinear_arith)
                requires
                    n - 1 < (r + 1) * (r + 1),
                    (r + 1) * (r + 1) <= n,
                    r >= 0,
            ;
            assert(0 <= r + 1 && (r + 1) * (r + 1) <= n && n < ((r + 1) + 1) * ((r + 1) + 1));
        } else {
            assert(0 <= r && r * r <= n && n < (r + 1) * (r + 1));
        }
    }
}

/// The integer square root is unique.
pub proof fn lemma_isqrt_unique(n: int, r1: int, r2: int)
    requires
        0 <= r1,
        r1 * r1 <= n,
        n < (r1 + 1) * (r1 + 1),
        0 <= r2,
        r2 * r2 <= n,
        n < (r2 + 1) * (r2 + 1),
    ensures
        r1 == r2,
{
    assert(r1 == r2) by (nonlinear_arith)
        requires
            0 <= r1,
            r1 * r1 <= n,
            n < (r1 + 1) * (r1 + 1),
            0 <= r2,
            r2 * r2 <= n,
            n < (r2 + 1) * (r2 + 1),
    ;
}

/// Characterizes [`isqrt`] for nonnegative arguments.
pub proof fn lemma_isqrt(n: int)
    requires
        n >= 0,
    ensures
        0 <= isqrt(n),
        isqrt(n) * isqrt(n) <= n,
        n < (isqrt(n) + 1) * (isqrt(n) + 1),
{
    lemma_isqrt_exists(n);
}

/// Truncating division of a nonnegative value by a positive one
/// stays within `[0, a]`.
pub proof fn lemma_tdiv_pos(a: int, b: int)
    requires
        a >= 0,
        b > 0,
    ensures
        0 <= tdiv(a, b) <= a,
{
    lemma_div_pos_is_pos(a, b);
    lemma_div_nonincreasing(a, b);
}

/// Truncating division by a positive divisor is monotone in the
/// dividend.
pub proof fn lemma_tdiv_is_ordered(a1: int, a2: int, b: int)
    requires
        a1 <= a2,
        b > 0,
    ensures
        tdiv(a1, b) <= tdiv(a2, b),
{
    if a1 >= 0 {
        lemma_div_is_ordered(a1, a2, b);
    } else if a2 < 0 {
        lemma_div_is_ordered(-a2, -a1, b);
    } else {
        lemma_div_pos_is_pos(-a1, b);
        lemma_div_pos_is_pos(a2, b);
    }
}

/// Scaling a span by a unit draw in `[0, 1)` lands strictly inside
/// a nonempty span, and never leaves `[0, span]`.
pub proof fn lemma_unit_scale_strict(u: int, span: int)
    requires
        0 <= u < 65536,
        0 <= span,
    ensures
        0 <= tdiv(u * span, 65536) <= span,
        span > 0 ==> tdiv(u * span, 65536) < span,
{
    assert(0 <= u * span <= 65535 * span) by (nonlinear_arith)
        requires
            0 <= u <= 65535,
            0 <= span,
    ;
    lemma_tdiv_pos(u * span, 65536);
    lemma_tdiv_is_ordered(u * span, 65535 * span, 65536);
    if span > 0 {
        assert(65535 * span == (span - 1) * 65536 + (65536 - span)) by (nonlinear_arith);
        if span <= 65536 {
            vstd::arithmetic::div_mod::lemma_fundamental_div_mod_converse(
                65535 * span,
                65536,
                span - 1,
                65536 - span,
            );
            assert(tdiv(65535 * span, 65536) == span - 1);
        } else {
            assert(65535 * span <= 65536 * span - 65536) by (nonlinear_arith)
                requires
                    span >= 65536,
            ;
            assert(65536 * span - 65536 == (span - 1) * 65536 + 0) by (nonlinear_arith);
            vstd::arithmetic::div_mod::lemma_fundamental_div_mod_converse(
                65536 * span - 65536,
                65536,
                span - 1,
                0,
            );
            lemma_tdiv_is_ordered(65535 * span, 65536 * span - 65536, 65536);
            lemma_div_pos_is_pos(65535 * span, 65536);
        }
    } else {
        assert(tdiv(0, 65536) == 0);
    }
}

/// When a division comes out even, truncation, Euclidean division
/// and exact division agree.
pub proof fn lemma_tdiv_exact(a: int, b: int)
    requires
        b > 0,
        a % b == 0,
    ensures
        tdiv(a, b) == a / b,
        b * (a / b) == a,
{
    lemma_fundamental_div_mod(a, b);
    if a < 0 {
        let q = a / b;
        assert((-a) == (-q) * b + 0) by (nonlinear_arith)
            requires
                a == b * q,
        ;
        vstd::arithmetic::div_mod::lemma_fundamental_div_mod_converse(-a, b, -q, 0);
    }
}

/// Saturate a wide intermediate value back to `i64`.
pub fn clip_i128(w: i128) -> (r: i64)
    ensures
        r == clip(w as int),
{
    if w > i64::MAX as i128 {
        i64::MAX
    } else if w < i64::MIN as i128 {
        i64::MIN
    } else {
        w as i64
    }
}

/// Truncating division on wide intermediates.
pub fn tdiv_i128(a: i128, b: i128) -> (r: i128)
    requires
        b != 0,
        a > i128::MIN,
        b > i128::MIN,
    ensures
        r == tdiv(a as int, b as int),
{
    let neg: bool = (a < 0) != (b < 0);
    let ma: u128 = if a < 0 {
        (-a) as u128
    } else {
        a as u128
    };
    let mb: u128 = if b < 0 {
        (-b) as u128
    } else {
        b as u128
    };
    assert(ma == iabs(a as int) && mb == iabs(b as int));
    let q: u128 = ma / mb;
    proof {
        lemma_div_nonincreasing(ma as int, mb as int);
        lemma_div_pos_is_pos(ma as int, mb as int);
    }
    if neg {
        -(q as i128)
    } else {
        q as i128
    }
}

/// Fixed-point addition.
pub fn fadd(a: i64, b: i64) -> (r: i64)
    ensures
        r == spec_fadd(a as int, b as int),
{
    clip_i128(a as i128 + b as i128)
}

/// Fixed-point subtraction.
pub fn fsub(a: i64, b: i64) -> (r: i64)
    ensures
        r == spec_fsub(a as int, b as int),
{
    clip_i128(a as i128 - b as i128)
}

/// Fixed-point negation.
pub fn fneg(a: i64) -> (r: i64)
    ensures
        r == spec_fneg(a as int),
{
    clip_i128(-(a as i128))
}

/// Fixed-point multiplication.
pub fn fmul(a: i64, b: i64) -> (r: i64)
    ensures
        r == spec_fmul(a as int, b as int),
{
    proof {
        assert(i128::MIN < (a as int) * (b as int) <= i128::MAX) by (nonlinear_arith)
            requires
                i64::MIN <= a <= i64::MAX,
                i64::MIN <= b <= i64::MAX,
        ;
    }
    let w: i128 = (a as i128) * (b as i128);
    let q: i128 = tdiv_i128(w, ONE as i128);
    clip_i128(q)
}

/// Fixed-point division.
pub fn fdiv(a: i64, b: i64) -> (r: i64)
    requires
        b != 0,
    ensures
        r == spec_fdiv(a as int, b as int),
{
    proof {
        assert(i128::MIN < (a as int) * 65536 <= i128::MAX) by (nonlinear_arith)
            requires
                i64::MIN <= a <= i64::MAX,
        ;
    }
    let w: i128 = (a as i128) * (ONE as i128);
    let q: i128 = tdiv_i128(w, b as i128);
    clip_i128(q)
}

/// Integer square root of an arbitrary 128-bit value, by bisection.
pub fn isqrt_u128(n: u128) -> (r: u128)
    ensures
        r == isqrt(n as int),
        r * r <= n,
        n < (r + 1) * (r + 1),
{
    let mut lo: u128 = 0;
    let mut hi: u128 = 0x1_0000_0000_0000_0000;
    proof {
        assert((u128::MAX as int) < 0x1_0000_0000_0000_0000 * 0x1_0000_0000_0000_0000);
    }
    while lo + 1 < hi
        invariant
            lo < hi <= 0x1_0000_0000_0000_0000,
            lo * lo <= n,
            (n as int) < hi * hi,
        decreases hi - lo,
    {
        let mid: u128 = lo + (hi - lo) / 2;
        assert(lo < mid < hi);
        assert(mid * mid <= u128::MAX) by (nonlinear_arith)
            requires
                0 < mid <= 0xFFFF_FFFF_FFFF_FFFFu128,
                u128::MAX == 0xFFFF_FFFF_FFFF_FFFF_FFFF_FFFF_FFFF_FFFFu128,
        ;
        if mid * mid <= n {
            lo = mid;
        } else {
            hi = mid;
        }
    }
    proof {
        lemma_isqrt_exists(n as int);
        lemma_isqrt_unique(n as int, lo as int, isqrt(n as int));
    }
    lo
}

/// Fixed-point square root of a nonnegative scalar.
pub fn fsqrt(a: i64) -> (r: i64)
    requires
        a >= 0,
    ensures
        r == spec_fsqrt(a as int),
        r >= 0,
        r * r <= a * (ONE as int),
        a * (ONE as int) < (r + 1) * (r + 1),
{
    proof {
        assert((a as int) * 65536 <= 0x7FFF_FFFF_FFFF_FFFF * 65536) by (nonlinear_arith)
            requires
                0 <= a <= 0x7FFF_FFFF_FFFF_FFFF,
        ;
    }
    let n: u128 = (a as u128) * (ONE as u128);
    let s: u128 = isqrt_u128(n);
    assert(s <= 0x100_0000_0000u128) by (nonlinear_arith)
        requires
            s * s <= n,
            n <= 0x7FFF_FFFF_FFFF_FFFF * 65536,
    ;
    s as i64
}

/// Divide a fixed-point scalar by a plain positive integer count
/// (an average over that many samples).
pub fn fdiv_int(a: i64, n: i64) -> (r: i64)
    requires
        n > 0,
    ensures
        r == tdiv(a as int, n as int),
{
    let q: i128 = tdiv_i128(a as i128, n as i128);
    proof {
        lemma_tdiv_pos(iabs(a as int), n as int);
    }
    q as i64
}

/// Fixed-point absolute value.
pub fn fabs(a: i64) -> (r: i64)
    ensures
        r == clip(iabs(a as int)),
{
    if a < 0 {
        fneg(a)
    } else {
        a
    }
}

/// The smaller of two scalars.
pub fn fmin(a: i64, b: i64) -> (r: i64)
    ensures
        r == if a <= b { a as int } else { b as int },
{
    if a <= b {
        a
    } else {
        b
    }
}

/// The larger of two scalars.
pub fn fmax(a: i64, b: i64) -> (r: i64)
    ensures
        r == if a >= b { a as int } else { b as int },
{
    if a >= b {
        a
    } else {
        b
    }
}

/// Clamp a scalar into `[lo, hi]`.
pub fn fclamp(x: i64, lo: i64, hi: i64) -> (r: i64)
    requires
        lo <= hi,
    ensures
        r == if x < lo { lo as int } else if x > hi { hi as int } else { x as int },
{
    if x < lo {
        lo
    } else if x > hi {
        hi
    } else {
        x
    }
}

} // verus!
