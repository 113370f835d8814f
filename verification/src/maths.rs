//! Fixed-point fractions of one, and interpolation between them.

use vstd::prelude::*;

verus! {

/// The fraction one. Levels, progress and phases count in millionths.
pub const ONE: u32 = 1_000_000;

/// `y0 * (1 - mu) + y1 * mu` for a fraction `mu` of one, rounded down.
/// A `mu` above [`ONE`] counts as [`ONE`].
pub open spec fn spec_lerp(y0: u32, y1: u32, mu: u32) -> int {
    let m: int = if mu > ONE { ONE as int } else { mu as int };
    (y0 * (ONE - m) + y1 * m) / (ONE as int)
}

/// An interpolated value lies between its two ends.
pub proof fn lemma_lerp_between(y0: u32, y1: u32, mu: u32)
    ensures
        y0 <= y1 ==> y0 <= spec_lerp(y0, y1, mu) <= y1,
        y1 <= y0 ==> y1 <= spec_lerp(y0, y1, mu) <= y0,
        mu == 0 ==> spec_lerp(y0, y1, mu) == y0,
        mu >= ONE ==> spec_lerp(y0, y1, mu) == y1,
{
    let m: int = if mu > ONE { ONE as int } else { mu as int };
    let sum: int = y0 * (ONE - m) + y1 * m;
    let one: int = ONE as int;
    assert(y0 <= y1 ==> y0 * one <= sum <= y1 * one) by (nonlinear_arith)
        requires
            0 <= m <= one,
            sum == y0 * (one - m) + y1 * m,
            0 <= y0,
            0 <= y1,
    ;
    assert(y1 <= y0 ==> y1 * one <= sum <= y0 * one) by (nonlinear_arith)
        requires
            0 <= m <= one,
            sum == y0 * (one - m) + y1 * m,
            0 <= y0,
            0 <= y1,
    ;
    lemma_scaled_division(y0 as int, sum, y1 as int);
    lemma_scaled_division(y1 as int, sum, y0 as int);
    assert(m == 0 ==> sum == y0 * one) by (nonlinear_arith)
        requires
            sum == y0 * (one - m) + y1 * m,
    ;
    assert(m == one ==> sum == y1 * one) by (nonlinear_arith)
        requires
            sum == y0 * (one - m) + y1 * m,
    ;
}

/// A sum between two multiples of [`ONE`] has its quotient between the factors.
pub proof fn lemma_scaled_division(low: int, sum: int, high: int)
    ensures
        low * ONE <= sum ==> low <= sum / (ONE as int),
        sum <= high * ONE ==> sum / (ONE as int) <= high,
{
    let one: int = ONE as int;
    let q: int = sum / one;
    assert(sum == one * q + sum % one && 0 <= sum % one < one) by {
        vstd::arithmetic::div_mod::lemma_fundamental_div_mod(sum, one);
    }
    assert(low * one <= sum ==> low <= q) by (nonlinear_arith)
        requires
            sum == one * q + sum % one,
            0 <= sum % one < one,
            one == 1_000_000,
    ;
    assert(sum <= high * one ==> q <= high) by (nonlinear_arith)
        requires
            sum == one * q + sum % one,
            0 <= sum % one < one,
            one == 1_000_000,
    ;
}

/// More progress moves the result towards `y1`, never back.
pub proof fn lemma_lerp_monotonic(y0: u32, y1: u32, mu_a: u32, mu_b: u32)
    requires
        mu_a <= mu_b,
    ensures
        y0 <= y1 ==> spec_lerp(y0, y1, mu_a) <= spec_lerp(y0, y1, mu_b),
        y1 <= y0 ==> spec_lerp(y0, y1, mu_a) >= spec_lerp(y0, y1, mu_b),
{
    let one: int = ONE as int;
    let a: int = if mu_a > ONE { one } else { mu_a as int };
    let b: int = if mu_b > ONE { one } else { mu_b as int };
    let sum_a: int = y0 * (one - a) + y1 * a;
    let sum_b: int = y0 * (one - b) + y1 * b;
    assert(y0 <= y1 ==> sum_a <= sum_b) by (nonlinear_arith)
        requires
            a <= b,
            sum_a == y0 * (one - a) + y1 * a,
            sum_b == y0 * (one - b) + y1 * b,
    ;
    assert(y1 <= y0 ==> sum_a >= sum_b) by (nonlinear_arith)
        requires
            a <= b,
            sum_a == y0 * (one - a) + y1 * a,
            sum_b == y0 * (one - b) + y1 * b,
    ;
    if sum_a <= sum_b {
        vstd::arithmetic::div_mod::lemma_div_is_ordered(sum_a, sum_b, one);
    }
    if sum_b <= sum_a {
        vstd::arithmetic::div_mod::lemma_div_is_ordered(sum_b, sum_a, one);
    }
}

/// Linear interpolation from `y0` to `y1` by the fraction `mu`.
pub fn lerp(y0: u32, y1: u32, mu: u32) -> (y: u32)
    ensures
        y == spec_lerp(y0, y1, mu),
{
    let m: u64 = if mu > ONE { ONE as u64 } else { mu as u64 };
    let one: u64 = ONE as u64;
    proof {
        lemma_lerp_between(y0, y1, mu);
        assert(y0 * (one - m) + y1 * m <= 0xffff_ffff * one) by (nonlinear_arith)
            requires
                0 <= m <= one,
                0 <= y0 <= 0xffff_ffff,
                0 <= y1 <= 0xffff_ffff,
        ;
        assert(0 <= y0 * (one - m) <= 0xffff_ffff * one) by (nonlinear_arith)
            requires
                0 <= m <= one,
                0 <= y0 <= 0xffff_ffff,
        ;
        assert(0 <= y1 * m <= 0xffff_ffff * one) by (nonlinear_arith)
            requires
                0 <= m <= one,
                0 <= y1 <= 0xffff_ffff,
        ;
    }
    let sum: u64 = (y0 as u64) * (one - m) + (y1 as u64) * m;
    (sum / one) as u32
}

} // verus!
