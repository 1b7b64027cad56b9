//! Saturating fixed-point scalars.
//!
//! A scalar is an `i64` holding `SCALE` ticks per world unit. Every operation
//! clamps its result into `[-FX_MAX, FX_MAX]`, so no computation overflows and
//! no function here panics. `FX_INF` (strictly above `FX_MAX`) is reserved as
//! the "no intersection" sentinel for ray parameters.

use vstd::arithmetic::div_mod::{
    lemma_div_is_ordered, lemma_div_multiples_vanish, lemma_div_nonincreasing,
    lemma_div_pos_is_pos,
};
use vstd::prelude::*;

verus! {

/// Number of fixed-point ticks per world unit.
pub const SCALE: i64 = 1000;

/// Saturation bound of every fixed-point operation.
pub const FX_MAX: i64 = 20_000_000_000_000;

/// Sentinel ray parameter meaning "no intersection"; compares greater than
/// every saturated scalar.
pub const FX_INF: i64 = i64::MAX;

/// Smallest positive ray parameter used for shadow and reflection rays
/// (0.001 world units), guarding against self-intersection.
pub const T_EPS: i64 = 1;

/// Fully opaque alpha channel (255 in fixed point).
pub const ALPHA_OPAQUE: i64 = 255 * SCALE;

/// Absolute value.
pub open spec fn abs_i(a: int) -> int {
    if a < 0 {
        -a
    } else {
        a
    }
}

/// Truncated (round-toward-zero) division, total: 0 when the divisor is 0.
/// This is the rounding rule of all fixed-point divisions in this crate.
pub open spec fn sdiv(a: int, b: int) -> int {
    if b == 0 {
        0
    } else if (a >= 0) == (b >= 0) {
        abs_i(a) / abs_i(b)
    } else {
        -(abs_i(a) / abs_i(b))
    }
}

/// Saturation into `[-FX_MAX, FX_MAX]`.
pub open spec fn fx_clamped(x: int) -> int {
    if x > FX_MAX {
        FX_MAX as int
    } else if x < -FX_MAX {
        -FX_MAX as int
    } else {
        x
    }
}

/// A scalar is in range when saturation leaves it unchanged.
pub open spec fn fx_ok(x: int) -> bool {
    -FX_MAX <= x <= FX_MAX
}

pub open spec fn fx_add_s(a: int, b: int) -> int {
    fx_clamped(a + b)
}

pub open spec fn fx_sub_s(a: int, b: int) -> int {
    fx_clamped(a - b)
}

pub open spec fn fx_neg_s(a: int) -> int {
    fx_clamped(-a)
}

pub open spec fn fx_mul_s(a: int, b: int) -> int {
    fx_clamped(sdiv(a * b, SCALE as int))
}

pub open spec fn fx_div_s(a: int, b: int) -> int {
    if b == 0 {
        0
    } else {
        fx_clamped(sdiv(a * (SCALE as int), b))
    }
}

/// Linear interpolation `a + (b - a) * t` with `t` in `[0, SCALE]`,
/// evaluated as `(a * (SCALE - t) + b * t) / SCALE` in one rounding step.
pub open spec fn fx_lerp_s(a: int, b: int, t: int) -> int {
    fx_clamped(sdiv(a * (SCALE - t) + b * t, SCALE as int))
}

/// Integer square root (floor of the real square root) of a nonnegative
/// integer; 0 below 1.
pub open spec fn sqrt_floor(n: int) -> int
    decreases n,
{
    if n <= 0 {
        0
    } else {
        let r = sqrt_floor(n - 1);
        if (r + 1) * (r + 1) <= n {
            r + 1
        } else {
            r
        }
    }
}

/// Fixed-point square root: `sqrt(x / SCALE) * SCALE == sqrt(x * SCALE)`;
/// 0 for nonpositive arguments.
pub open spec fn fx_sqrt_s(x: int) -> int {
    if x <= 0 {
        0
    } else {
        sqrt_floor(x * (SCALE as int))
    }
}

/// Fixed-point power with a plain integer exponent; exponents at or below 0
/// give 1.0 (`SCALE`).
pub open spec fn fx_pow_s(b: int, e: int) -> int
    decreases e,
{
    if e <= 0 {
        SCALE as int
    } else {
        fx_mul_s(b, fx_pow_s(b, e - 1))
    }
}

/// `sqrt_floor(n)` squares to at most `n`, and is the largest such integer.
pub proof fn lemma_sqrt_floor_props(n: int)
    requires
        n >= 0,
    ensures
        sqrt_floor(n) >= 0,
        sqrt_floor(n) * sqrt_floor(n) <= n,
        n < (sqrt_floor(n) + 1) * (sqrt_floor(n) + 1),
    decreases n,
{
    if n == 0 {
    } else {
        lemma_sqrt_floor_props(n - 1);
        let r = sqrt_floor(n - 1);
        if (r + 1) * (r + 1) <= n {
            assert((r + 1 + 1) * (r + 1 + 1) > n) by (nonlinear_arith)
                requires
                    r >= 0,
                    n - 1 < (r + 1) * (r + 1),
            ;
        }
    }
}

/// The two bracketing inequalities pin the integer square root down.
pub proof fn lemma_sqrt_floor_unique(n: int, q: int)
    requires
        n >= 0,
        q >= 0,
        q * q <= n,
        n < (q + 1) * (q + 1),
    ensures
        q == sqrt_floor(n),
{
    lemma_sqrt_floor_props(n);
    let s = sqrt_floor(n);
    if q < s {
        assert((q + 1) * (q + 1) <= s * s) by (nonlinear_arith)
            requires
                0 <= q,
                q + 1 <= s,
        ;
    }
    if s < q {
        assert((s + 1) * (s + 1) <= q * q) by (nonlinear_arith)
            requires
                0 <= s,
                s + 1 <= q,
        ;
    }
}

/// Truncated division maps an interval of multiples of `d` into the interval
/// of their quotients.
pub proof fn lemma_sdiv_between(lo: int, x: int, hi: int, d: int)
    requires
        d > 0,
        lo * d <= x,
        x <= hi * d,
    ensures
        lo <= sdiv(x, d),
        sdiv(x, d) <= hi,
{
    if x >= 0 {
        assert(sdiv(x, d) == x / d);
        lemma_div_multiples_vanish(lo, d);
        lemma_div_multiples_vanish(hi, d);
        assert(d * lo == lo * d) by (nonlinear_arith);
        assert(d * hi == hi * d) by (nonlinear_arith);
        lemma_div_is_ordered(lo * d, x, d);
        lemma_div_is_ordered(x, hi * d, d);
    } else {
        assert(sdiv(x, d) == -((-x) / d));
        lemma_div_multiples_vanish(-lo, d);
        lemma_div_multiples_vanish(-hi, d);
        assert(d * (-lo) == -(lo * d)) by (nonlinear_arith);
        assert(d * (-hi) == -(hi * d)) by (nonlinear_arith);
        lemma_div_is_ordered(-(hi * d), -x, d);
        lemma_div_is_ordered(-x, -(lo * d), d);
    }
}

/// Truncated division of nonnegative values is nonnegative.
pub proof fn lemma_sdiv_nonneg(a: int, b: int)
    requires
        a >= 0,
        b >= 0,
    ensures
        sdiv(a, b) >= 0,
{
    if b != 0 {
        lemma_div_pos_is_pos(a, b);
    }
}

/// Fixed-point product of nonnegative scalars is nonnegative.
pub proof fn lemma_fx_mul_nonneg(a: int, b: int)
    requires
        a >= 0,
        b >= 0,
    ensures
        fx_mul_s(a, b) >= 0,
{
    assert(a * b >= 0) by (nonlinear_arith)
        requires
            a >= 0,
            b >= 0,
    ;
    lemma_sdiv_nonneg(a * b, SCALE as int);
}

/// Fixed-point quotient of nonnegative scalars is nonnegative.
pub proof fn lemma_fx_div_nonneg(a: int, b: int)
    requires
        a >= 0,
        b >= 0,
    ensures
        fx_div_s(a, b) >= 0,
{
    if b != 0 {
        lemma_sdiv_nonneg(a * (SCALE as int), b);
    }
}

/// Fixed-point power of a nonnegative base is nonnegative.
pub proof fn lemma_fx_pow_nonneg(b: int, e: int)
    requires
        b >= 0,
    ensures
        fx_pow_s(b, e) >= 0,
    decreases e,
{
    if e > 0 {
        lemma_fx_pow_nonneg(b, e - 1);
        lemma_fx_mul_nonneg(b, fx_pow_s(b, e - 1));
    }
}

/// The fixed-point square root is nonnegative on every argument.
pub proof fn lemma_fx_sqrt_nonneg(x: int)
    ensures
        fx_sqrt_s(x) >= 0,
{
    if x > 0 {
        lemma_sqrt_floor_props(x * (SCALE as int));
    }
}

/// Division is exact on a multiple of the divisor.
pub proof fn lemma_sdiv_exact(m: int, d: int)
    requires
        d > 0,
    ensures
        sdiv(m * d, d) == m,
{
    if m >= 0 {
        assert(m * d >= 0) by (nonlinear_arith)
            requires
                m >= 0,
                d > 0,
        ;
        lemma_div_multiples_vanish(m, d);
        assert(d * m == m * d) by (nonlinear_arith);
    } else {
        assert(m * d < 0) by (nonlinear_arith)
            requires
                m < 0,
                d > 0,
        ;
        lemma_div_multiples_vanish(-m, d);
        assert(d * (-m) == -(m * d)) by (nonlinear_arith);
    }
}

pub(crate) fn clamp_to_fx(x: i128) -> (r: i64)
    ensures
        r as int == fx_clamped(x as int),
        fx_ok(r as int),
{
    if x > (FX_MAX as i128) {
        FX_MAX
    } else if x < -(FX_MAX as i128) {
        -FX_MAX
    } else {
        x as i64
    }
}

pub(crate) fn sdiv128(a: i128, b: i128) -> (r: i128)
    requires
        b != 0,
        a > i128::MIN,
        b > i128::MIN,
    ensures
        r as int == sdiv(a as int, b as int),
{
    let an: u128 = if a >= 0 {
        a as u128
    } else {
        (-a) as u128
    };
    let bn: u128 = if b >= 0 {
        b as u128
    } else {
        (-b) as u128
    };
    let q: u128 = an / bn;
    proof {
        assert(an as int == abs_i(a as int));
        assert(bn as int == abs_i(b as int));
        lemma_div_nonincreasing(an as int, bn as int);
        assert(q as int == abs_i(a as int) / abs_i(b as int));
    }
    if (a >= 0) == (b >= 0) {
        q as i128
    } else {
        -(q as i128)
    }
}

fn mul_wide(a: i64, b: i64) -> (r: i128)
    ensures
        r as int == (a as int) * (b as int),
        -0x4000_0000_0000_0000_0000_0000_0000_0000 <= r as int
            <= 0x4000_0000_0000_0000_0000_0000_0000_0000,
{
    proof {
        assert((a as int) * (b as int) <= 0x4000_0000_0000_0000_0000_0000_0000_0000
            && (a as int) * (b as int) >= -0x4000_0000_0000_0000_0000_0000_0000_0000)
            by (nonlinear_arith)
            requires
                -0x8000_0000_0000_0000 <= a as int <= 0x7fff_ffff_ffff_ffff,
                -0x8000_0000_0000_0000 <= b as int <= 0x7fff_ffff_ffff_ffff,
        ;
    }
    (a as i128) * (b as i128)
}

/// Saturating addition.
pub fn fx_add(a: i64, b: i64) -> (r: i64)
    ensures
        r as int == fx_add_s(a as int, b as int),
        fx_ok(r as int),
{
    clamp_to_fx((a as i128) + (b as i128))
}

/// Saturating subtraction.
pub fn fx_sub(a: i64, b: i64) -> (r: i64)
    ensures
        r as int == fx_sub_s(a as int, b as int),
        fx_ok(r as int),
{
    clamp_to_fx((a as i128) - (b as i128))
}

/// Saturating negation.
pub fn fx_neg(a: i64) -> (r: i64)
    ensures
        r as int == fx_neg_s(a as int),
        fx_ok(r as int),
{
    clamp_to_fx(-(a as i128))
}

/// Saturating fixed-point multiplication: `(a * b) / SCALE`.
pub fn fx_mul(a: i64, b: i64) -> (r: i64)
    ensures
        r as int == fx_mul_s(a as int, b as int),
        fx_ok(r as int),
{
    let p: i128 = mul_wide(a, b);
    let q: i128 = sdiv128(p, SCALE as i128);
    clamp_to_fx(q)
}

/// Saturating fixed-point division: `(a * SCALE) / b`; 0 when `b` is 0.
pub fn fx_div(a: i64, b: i64) -> (r: i64)
    ensures
        r as int == fx_div_s(a as int, b as int),
        fx_ok(r as int),
{
    if b == 0 {
        0
    } else {
        let p: i128 = mul_wide(a, SCALE);
        let q: i128 = sdiv128(p, b as i128);
        clamp_to_fx(q)
    }
}

/// Saturating linear interpolation; `t` must lie in `[0, SCALE]`.
pub fn fx_lerp(a: i64, b: i64, t: i64) -> (r: i64)
    requires
        fx_ok(a as int),
        fx_ok(b as int),
        0 <= t <= SCALE,
    ensures
        r as int == fx_lerp_s(a as int, b as int, t as int),
        fx_ok(r as int),
{
    let u: i64 = SCALE - t;
    let pa: i128 = mul_wide(a, u);
    let pb: i128 = mul_wide(b, t);
    proof {
        assert(abs_i((a as int) * (u as int)) <= 20_000_000_000_000_000
            && abs_i((b as int) * (t as int)) <= 20_000_000_000_000_000) by (nonlinear_arith)
            requires
                -20_000_000_000_000 <= a as int <= 20_000_000_000_000,
                -20_000_000_000_000 <= b as int <= 20_000_000_000_000,
                0 <= u as int <= 1000,
                0 <= t as int <= 1000,
        ;
    }
    let p: i128 = pa + pb;
    let q: i128 = sdiv128(p, SCALE as i128);
    clamp_to_fx(q)
}

fn isqrt_u128(n: u128) -> (r: u128)
    ensures
        (r as int) * (r as int) <= n as int,
        (n as int) < (r as int + 1) * (r as int + 1),
{
    let mut lo: u128 = 0;
    let mut hi: u128 = 0x1_0000_0000_0000_0000;
    proof {
        assert(0x1_0000_0000_0000_0000 * 0x1_0000_0000_0000_0000
            == 0x1_0000_0000_0000_0000_0000_0000_0000_0000int) by (nonlinear_arith);
    }
    while lo + 1 < hi
        invariant
            lo < hi <= 0x1_0000_0000_0000_0000,
            (lo as int) * (lo as int) <= n as int,
            (n as int) < (hi as int) * (hi as int),
        decreases hi - lo,
    {
        let mid: u128 = lo + (hi - lo) / 2;
        proof {
            assert(lo < mid < hi);
            assert((mid as int) * (mid as int)
                < 0x1_0000_0000_0000_0000 * 0x1_0000_0000_0000_0000) by (nonlinear_arith)
                requires
                    0 <= (mid as int) < 0x1_0000_0000_0000_0000,
            ;
        }
        if mid * mid <= n {
            lo = mid;
        } else {
            hi = mid;
        }
    }
    proof {
        assert(hi == lo + 1);
    }
    lo
}

/// Fixed-point square root; 0 for nonpositive arguments.
pub fn fx_sqrt(x: i64) -> (r: i64)
    ensures
        r as int == fx_sqrt_s(x as int),
        fx_ok(r as int),
        r >= 0,
{
    if x <= 0 {
        0
    } else {
        let p: i128 = mul_wide(x, SCALE);
        proof {
            assert(1000 <= (x as int) * (SCALE as int) <= 0x7fff_ffff_ffff_ffff * 1000)
                by (nonlinear_arith)
                requires
                    1 <= x as int <= 0x7fff_ffff_ffff_ffff,
                    SCALE as int == 1000,
            ;
        }
        let n: u128 = p as u128;
        let r: u128 = isqrt_u128(n);
        proof {
            lemma_sqrt_floor_unique(n as int, r as int);
            assert((r as int) <= 100_000_000_000) by (nonlinear_arith)
                requires
                    0 <= r as int,
                    (r as int) * (r as int) <= n as int,
                    n as int <= 0x7fff_ffff_ffff_ffff * 1000,
            ;
        }
        r as i64
    }
}

/// Fixed-point power with natural exponent, by left-to-right multiplication.
pub fn fx_pow(b: i64, e: u32) -> (r: i64)
    ensures
        r as int == fx_pow_s(b as int, e as int),
        fx_ok(r as int),
{
    let mut acc: i64 = SCALE;
    let mut i: u32 = 0;
    while i < e
        invariant
            0 <= i <= e,
            acc as int == fx_pow_s(b as int, i as int),
            fx_ok(acc as int),
        decreases e - i,
    {
        acc = fx_mul(b, acc);
        i = i + 1;
    }
    acc
}

/// Interpolation with a weight in `[0, SCALE]` never leaves the interval
/// spanned by its endpoints.
pub proof fn lemma_fx_lerp_between(a: int, b: int, t: int)
    requires
        fx_ok(a),
        fx_ok(b),
        0 <= t <= SCALE,
        a <= b,
    ensures
        a <= fx_lerp_s(a, b, t),
        fx_lerp_s(a, b, t) <= b,
{
    let n = a * (SCALE - t) + b * t;
    assert(a * (SCALE as int) <= n && n <= b * (SCALE as int)) by (nonlinear_arith)
        requires
            a <= b,
            0 <= t <= SCALE as int,
            n == a * (SCALE - t) + b * t,
    ;
    lemma_sdiv_between(a, n, b, SCALE as int);
}

/// Interpolation at the endpoints of the weight range is exact: weight 0
/// returns the first argument, weight `SCALE` the second.
pub proof fn lemma_fx_lerp_ends(a: int, b: int)
    requires
        fx_ok(a),
        fx_ok(b),
    ensures
        fx_lerp_s(a, b, 0) == a,
        fx_lerp_s(a, b, SCALE as int) == b,
{
    lemma_sdiv_between(a, a * (SCALE as int), a, SCALE as int);
    assert(a * (SCALE - 0) + b * 0 == a * (SCALE as int)) by (nonlinear_arith);
    lemma_sdiv_between(b, b * (SCALE as int), b, SCALE as int);
    assert(a * (SCALE - SCALE) + b * (SCALE as int) == b * (SCALE as int)) by (nonlinear_arith);
}

} // verus!
