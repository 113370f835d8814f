//! Decimal fixed-point numbers.

use vstd::arithmetic::power::{lemma_pow0, lemma_pow_increases, pow};
use vstd::prelude::*;

verus! {

/// Most decimal places whose scale still fits in 32 bits.
pub const MAX_POINTS: u32 = 9;

/// A number with `POINTS` decimal places, held as a count of units of
/// `10^-POINTS`: `value / scale`, where `scale` is `10^POINTS`.
#[derive(Clone, Copy, Debug, PartialEq, Eq)]
pub struct FixedPoint<const POINTS: u32> {
    value: u32,
    scale: u32,
}

/// Ten to the power of `points`.
pub open spec fn spec_scale(points: u32) -> int {
    pow(10, points as nat)
}

/// Scales grow with the number of places; the largest that is used is a
/// thousand million.
pub proof fn lemma_scale_bounds(points: u32)
    requires
        points <= MAX_POINTS,
    ensures
        1 <= spec_scale(points) <= 1_000_000_000,
{
    lemma_pow0(10);
    lemma_pow_increases(10, 0, points as nat);
    lemma_pow_increases(10, points as nat, 9);
    assert(pow(10, 9) == 1_000_000_000) by {
        reveal_with_fuel(pow, 10);
    }
}

impl<const POINTS: u32> FixedPoint<POINTS> {
    /// The count of units, in contracts.
    pub closed spec fn spec_value(&self) -> u32 {
        self.value
    }

    /// The scale the number carries: `10^POINTS` in every number made here.
    pub closed spec fn wf(&self) -> bool {
        self.scale == spec_scale(POINTS)
    }

    /// The number of `units` units: `units / 10^POINTS`.
    pub fn from_u32(units: u32) -> (number: Self)
        requires
            POINTS <= MAX_POINTS,
        ensures
            number.spec_value() == units,
            number.wf(),
    {
        Self { value: units, scale: Self::scale_u32() }
    }

    /// The count of units.
    #[verifier::when_used_as_spec(spec_value)]
    pub fn get_u32(&self) -> (value: u32)
        ensures
            value == self.spec_value(),
    {
        self.value
    }

    /// Units in one: `10^POINTS`.
    pub fn scale_u32() -> (scale: u32)
        requires
            POINTS <= MAX_POINTS,
        ensures
            scale == spec_scale(POINTS),
    {
        let mut scale: u32 = 1;
        let mut done: u32 = 0;
        proof {
            lemma_pow0(10);
        }
        while done < POINTS
            invariant
                done <= POINTS <= MAX_POINTS,
                scale == pow(10, done as nat),
            decreases POINTS - done,
        {
            proof {
                lemma_scale_bounds((done + 1) as u32);
                vstd::arithmetic::power::lemma_pow1(10);
                vstd::arithmetic::power::lemma_pow_adds(10, done as nat, 1);
            }
            scale = scale * 10;
            done = done + 1;
        }
        scale
    }
}

} // verus!
