//! Pairs of fixed-point numbers: a point in the plane, or a frame of stereo
//! sound. Each coordinate counts in millionths.

use crate::maths::{lemma_scaled_division, ONE};
use vstd::prelude::*;

verus! {

pub type Vec2 = (i64, i64);

/// `x` over [`ONE`], rounded towards zero: a value and its negative come
/// out as each other's negative.
pub open spec fn toward_zero(x: int) -> int {
    if x >= 0 {
        x / (ONE as int)
    } else {
        -((-x) / (ONE as int))
    }
}

/// `x`, or the end of the 64-bit range that it lies beyond.
pub open spec fn saturated(x: int) -> i64 {
    if x > i64::MAX {
        i64::MAX
    } else if x < i64::MIN {
        i64::MIN
    } else {
        x as i64
    }
}

/// One coordinate on the way from `a` to `b`, a fraction `alpha` of one
/// along. An `alpha` above [`ONE`] counts as [`ONE`].
pub open spec fn spec_between(a: i64, b: i64, alpha: u32) -> int {
    let m: int = if alpha > ONE { ONE as int } else { alpha as int };
    toward_zero(a * (ONE - m) + b * m)
}

/// The point a fraction `alpha` of the way from `a` to `b`.
pub open spec fn spec_lerp(a: Vec2, b: Vec2, alpha: u32) -> Vec2 {
    (spec_between(a.0, b.0, alpha) as i64, spec_between(a.1, b.1, alpha) as i64)
}

/// The sum, coordinate by coordinate; a sum beyond the 64-bit range stops at
/// its end.
pub open spec fn spec_add(a: Vec2, b: Vec2) -> Vec2 {
    (saturated(a.0 + b.0), saturated(a.1 + b.1))
}

/// `v` times the fraction `s`; a product beyond the 64-bit range stops at its
/// end.
pub open spec fn spec_scale(v: Vec2, s: u32) -> Vec2 {
    (saturated(toward_zero(v.0 * s)), saturated(toward_zero(v.1 * s)))
}

/// A value between two multiples of [`ONE`] has its quotient between the
/// factors, and the quotient times [`ONE`] is no further from zero than
/// the value.
pub proof fn lemma_toward_zero(x: int, low: int, high: int)
    ensures
        low * ONE <= x && low <= 0 ==> low <= toward_zero(x),
        low * ONE <= x && x >= 0 ==> low <= toward_zero(x),
        x <= high * ONE && high >= 0 ==> toward_zero(x) <= high,
        x <= high * ONE && x <= 0 ==> toward_zero(x) <= high,
        x >= 0 ==> 0 <= toward_zero(x) * ONE <= x,
        x <= 0 ==> x <= toward_zero(x) * ONE <= 0,
{
    let one: int = ONE as int;
    if x >= 0 {
        let q = x / one;
        vstd::arithmetic::div_mod::lemma_fundamental_div_mod(x, one);
        assert(0 <= q * one <= x) by (nonlinear_arith)
            requires
                x == one * q + x % one,
                0 <= x % one < one,
                x >= 0,
                one == 1_000_000,
        ;
        lemma_scaled_division(low, x, high);
    } else {
        let q = (-x) / one;
        vstd::arithmetic::div_mod::lemma_fundamental_div_mod(-x, one);
        assert(0 <= q * one <= -x) by (nonlinear_arith)
            requires
                -x == one * q + (-x) % one,
                0 <= (-x) % one < one,
                x < 0,
                one == 1_000_000,
        ;
        assert((-q) * one == -(q * one)) by (nonlinear_arith);
        assert((-high) * one == -(high * one)) by (nonlinear_arith);
        assert((-low) * one == -(low * one)) by (nonlinear_arith);
        lemma_scaled_division(-high, -x, -low);
    }
}

/// A coordinate on the way from `a` to `b` lies between the two, and at
/// either end of the way it is the end.
pub proof fn lemma_between(a: i64, b: i64, alpha: u32)
    ensures
        a <= b ==> a <= spec_between(a, b, alpha) <= b,
        b <= a ==> b <= spec_between(a, b, alpha) <= a,
        alpha == 0 ==> spec_between(a, b, alpha) == a,
        alpha >= ONE ==> spec_between(a, b, alpha) == b,
{
    let one: int = ONE as int;
    let m: int = if alpha > ONE { one } else { alpha as int };
    let sum: int = a * (one - m) + b * m;
    assert(a <= b ==> a * one <= sum <= b * one) by (nonlinear_arith)
        requires
            0 <= m <= one,
            sum == a * (one - m) + b * m,
    ;
    assert(b <= a ==> b * one <= sum <= a * one) by (nonlinear_arith)
        requires
            0 <= m <= one,
            sum == a * (one - m) + b * m,
    ;
    assert(m == 0 ==> sum == a * one) by (nonlinear_arith)
        requires
            sum == a * (one - m) + b * m,
    ;
    assert(m == one ==> sum == b * one) by (nonlinear_arith)
        requires
            sum == a * (one - m) + b * m,
    ;
    let low: int = if a <= b { a as int } else { b as int };
    let high: int = if a <= b { b as int } else { a as int };
    lemma_toward_zero(sum, low, high);
    assert(sum >= 0 || low <= 0) by (nonlinear_arith)
        requires
            low * one <= sum,
            one == 1_000_000,
    ;
    assert(sum <= 0 || high >= 0) by (nonlinear_arith)
        requires
            sum <= high * one,
            one == 1_000_000,
    ;
    if m == 0 {
        lemma_toward_zero(sum, a as int, a as int);
    }
    if m == one {
        lemma_toward_zero(sum, b as int, b as int);
    }
}

/// Whether `v` is no further than `radius` from the origin.
pub open spec fn within_radius(v: Vec2, radius: int) -> bool {
    v.0 * v.0 + v.1 * v.1 <= radius * radius
}

/// A number that is no further from zero than another has the smaller
/// square.
proof fn lemma_square_ordered(near: int, far: int)
    requires
        0 <= near <= far || far <= near <= 0,
    ensures
        near * near <= far * far,
{
    assert(near * near <= far * far) by (nonlinear_arith)
        requires
            0 <= near <= far || far <= near <= 0,
    ;
}

/// The square of a weighted sum, multiplied out.
proof fn lemma_weighted_square(a: int, b: int, w: int, m: int)
    ensures
        (a * w + b * m) * (a * w + b * m) == (w * w) * (a * a) + (m * m) * (b * b) + 2 * ((w * m)
            * (a * b)),
{
    let p: int = a * w;
    let q: int = b * m;
    assert((p + q) * (p + q) == p * p + q * q + 2 * (p * q)) by (nonlinear_arith);
    assert(p * p == (w * w) * (a * a)) by (nonlinear_arith)
        requires
            p == a * w,
    ;
    assert(q * q == (m * m) * (b * b)) by (nonlinear_arith)
        requires
            q == b * m,
    ;
    assert(p * q == (w * m) * (a * b)) by (nonlinear_arith)
        requires
            p == a * w,
            q == b * m,
    ;
}

/// A disc is convex: every point on the way between two points of a disc
/// round the origin is in the disc too. Rounding towards zero keeps it so.
pub proof fn lemma_lerp_within_radius(a: Vec2, b: Vec2, alpha: u32, radius: int)
    requires
        within_radius(a, radius),
        within_radius(b, radius),
    ensures
        within_radius(spec_lerp(a, b, alpha), radius),
{
    let one: int = ONE as int;
    let m: int = if alpha > ONE { one } else { alpha as int };
    let w: int = one - m;
    let (a0, a1) = (a.0 as int, a.1 as int);
    let (b0, b1) = (b.0 as int, b.1 as int);
    let nx: int = a0 * w + b0 * m;
    let ny: int = a1 * w + b1 * m;
    let x: int = toward_zero(nx);
    let y: int = toward_zero(ny);
    lemma_between(a.0, b.0, alpha);
    lemma_between(a.1, b.1, alpha);
    assert(spec_lerp(a, b, alpha) == (x as i64, y as i64));
    assert(x as i64 == x && y as i64 == y);

    lemma_toward_zero(nx, 0, 0);
    lemma_toward_zero(ny, 0, 0);
    lemma_square_ordered(x * one, nx);
    lemma_square_ordered(y * one, ny);

    let rr: int = radius * radius;
    let aa: int = a0 * a0 + a1 * a1;
    let bb: int = b0 * b0 + b1 * b1;
    let dot: int = a0 * b0 + a1 * b1;
    assert(2 * dot <= aa + bb) by (nonlinear_arith)
        requires
            aa == a0 * a0 + a1 * a1,
            bb == b0 * b0 + b1 * b1,
            dot == a0 * b0 + a1 * b1,
    ;
    let ww: int = w * w;
    let mm: int = m * m;
    let wm: int = w * m;
    assert(ww >= 0 && mm >= 0 && wm >= 0 && ww + 2 * wm + mm == one * one) by (nonlinear_arith)
        requires
            ww == w * w,
            mm == m * m,
            wm == w * m,
            w == one - m,
            0 <= m <= one,
    ;
    lemma_weighted_square(a0, b0, w, m);
    lemma_weighted_square(a1, b1, w, m);
    assert(ww * aa == ww * (a0 * a0) + ww * (a1 * a1)) by (nonlinear_arith)
        requires
            aa == a0 * a0 + a1 * a1,
    ;
    assert(mm * bb == mm * (b0 * b0) + mm * (b1 * b1)) by (nonlinear_arith)
        requires
            bb == b0 * b0 + b1 * b1,
    ;
    assert(2 * wm * dot == 2 * (wm * (a0 * b0)) + 2 * (wm * (a1 * b1))) by (nonlinear_arith)
        requires
            dot == a0 * b0 + a1 * b1,
    ;
    assert(nx * nx + ny * ny == ww * aa + mm * bb + 2 * wm * dot);
    assert(ww * aa + mm * bb + 2 * wm * dot <= (ww + 2 * wm + mm) * rr) by (nonlinear_arith)
        requires
            ww >= 0,
            mm >= 0,
            wm >= 0,
            aa <= rr,
            bb <= rr,
            2 * dot <= aa + bb,
    ;
    assert(one * one * (x * x + y * y) == (x * one) * (x * one) + (y * one) * (y * one))
        by (nonlinear_arith);
    assert(x * x + y * y <= rr) by (nonlinear_arith)
        requires
            one * one * (x * x + y * y) <= one * one * rr,
            one == 1_000_000,
    ;
}

/// `x` over [`ONE`], rounded towards zero.
fn over_one(x: i128) -> (q: i128)
    requires
        -0x4000_0000_0000_0000_0000_0000_0000_0000 < x < 0x4000_0000_0000_0000_0000_0000_0000_0000,
    ensures
        q == toward_zero(x as int),
{
    if x >= 0 {
        ((x as u128) / (ONE as u128)) as i128
    } else {
        -((((-x) as u128) / (ONE as u128)) as i128)
    }
}

/// `x`, kept within the 64-bit range.
fn saturate(x: i128) -> (y: i64)
    ensures
        y == saturated(x as int),
{
    if x > i64::MAX as i128 {
        i64::MAX
    } else if x < i64::MIN as i128 {
        i64::MIN
    } else {
        x as i64
    }
}

/// One coordinate of [`lerp`].
fn between(a: i64, b: i64, alpha: u32) -> (c: i64)
    ensures
        c == spec_between(a, b, alpha),
{
    let m: i128 = if alpha > ONE { ONE as i128 } else { alpha as i128 };
    let one: i128 = ONE as i128;
    proof {
        lemma_between(a, b, alpha);
        assert(-0x8000_0000_0000_0000 * 1_000_000 <= a * (one - m) <= 0x8000_0000_0000_0000
            * 1_000_000) by (nonlinear_arith)
            requires
                0 <= m <= one,
                one == 1_000_000,
                -0x8000_0000_0000_0000 <= a <= 0x8000_0000_0000_0000,
        ;
        assert(-0x8000_0000_0000_0000 * 1_000_000 <= b * m <= 0x8000_0000_0000_0000 * 1_000_000)
            by (nonlinear_arith)
            requires
                0 <= m <= one,
                one == 1_000_000,
                -0x8000_0000_0000_0000 <= b <= 0x8000_0000_0000_0000,
        ;
    }
    let sum: i128 = (a as i128) * (one - m) + (b as i128) * m;
    over_one(sum) as i64
}

/// The point a fraction `alpha` of the way from `a` to `b`: `a` at zero,
/// `b` at one.
pub fn lerp(a: Vec2, b: Vec2, alpha: u32) -> (c: Vec2)
    ensures
        c == spec_lerp(a, b, alpha),
{
    (between(a.0, b.0, alpha), between(a.1, b.1, alpha))
}

/// The sum of two pairs.
pub fn add(a: Vec2, b: Vec2) -> (c: Vec2)
    ensures
        c == spec_add(a, b),
{
    (saturate((a.0 as i128) + (b.0 as i128)), saturate((a.1 as i128) + (b.1 as i128)))
}

/// One coordinate of [`scale`].
fn scaled(v: i64, s: u32) -> (c: i64)
    ensures
        c == saturated(toward_zero(v * s)),
{
    proof {
        assert(-0x8000_0000_0000_0000 * 0x1_0000_0000 <= v * s <= 0x8000_0000_0000_0000
            * 0x1_0000_0000) by (nonlinear_arith)
            requires
                0 <= s <= 0x1_0000_0000,
                -0x8000_0000_0000_0000 <= v <= 0x8000_0000_0000_0000,
        ;
    }
    saturate(over_one((v as i128) * (s as i128)))
}

/// `v` times the fraction `s` of one.
pub fn scale(v: Vec2, s: u32) -> (c: Vec2)
    ensures
        c == spec_scale(v, s),
{
    (scaled(v.0, s), scaled(v.1, s))
}

} // verus!
