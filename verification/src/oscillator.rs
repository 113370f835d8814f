//! The integer side of the oscillator: where in its cycle a voice stands, and
//! where on the outline of a polygon that is.

use crate::maths::ONE;
use crate::util::SampleTimer;
use crate::vec2::{lemma_between, lemma_lerp_within_radius, toward_zero, within_radius, Vec2};
use vstd::prelude::*;

verus! {

/// Frequencies are given in thousandths of a hertz.
pub const MILLIHERTZ: u32 = 1000;

/// Samples in one cycle at `freq`, rounded down and never under one.
pub open spec fn spec_period(freq: u32, rate: u32) -> int
    recommends
        freq > 0,
{
    let whole = rate * MILLIHERTZ / (freq as int);
    if whole == 0 {
        1
    } else {
        whole
    }
}

/// Where in its cycle an oscillator at `freq` stands at `sample`, as a
/// fraction of [`ONE`]: the samples into the current cycle, times the
/// frequency, over the rate. The count is folded into one cycle first, so the
/// result keeps its precision however long the clock has run. A frequency or
/// a rate of zero gives a phase of zero.
pub open spec fn spec_phase(freq: u32, sample: u64, rate: u32) -> int {
    if freq == 0 || rate == 0 {
        0
    } else {
        (sample as int % spec_period(freq, rate)) * freq * ONE / (rate * MILLIHERTZ)
    }
}

/// A phase is a fraction of one, and short of one.
pub proof fn lemma_phase_bounds(freq: u32, sample: u64, rate: u32)
    ensures
        0 <= spec_phase(freq, sample, rate) < ONE,
        freq > 0 ==> 1 <= spec_period(freq, rate) <= rate * MILLIHERTZ + 1,
        freq > 0 && rate > 0 ==> 0 <= (sample as int % spec_period(freq, rate)) * freq < rate
            * MILLIHERTZ,
{
    if freq > 0 {
        let scaled: int = rate * MILLIHERTZ;
        let f: int = freq as int;
        let whole: int = scaled / f;
        let period = spec_period(freq, rate);
        vstd::arithmetic::div_mod::lemma_fundamental_div_mod(scaled, f);
        vstd::arithmetic::div_mod::lemma_div_pos_is_pos(scaled, f);
        assert(whole * f <= scaled && whole <= scaled) by (nonlinear_arith)
            requires
                scaled == f * whole + scaled % f,
                0 <= scaled % f,
                f >= 1,
                whole >= 0,
        ;
        if rate > 0 {
            let within: int = sample as int % period;
            assert(0 <= within * f < scaled) by (nonlinear_arith)
                requires
                    0 <= within < period,
                    period == 1 && scaled >= 1 || period * f <= scaled,
                    f >= 1,
            ;
            let one: int = ONE as int;
            assert(0 <= within * f * one < scaled * one) by (nonlinear_arith)
                requires
                    0 <= within * f < scaled,
                    one == 1_000_000,
            ;
            vstd::arithmetic::div_mod::lemma_div_pos_is_pos(within * f * one, scaled);
            vstd::arithmetic::div_mod::lemma_div_by_multiple_is_strongly_ordered(
                within * f * one,
                scaled * one,
                one,
                scaled,
            );
            vstd::arithmetic::div_mod::lemma_div_multiples_vanish(one, scaled);
            assert(scaled * one == one * scaled) by (nonlinear_arith);
        }
    }
}

/// The phase repeats with every cycle: a whole period later it is the same.
pub proof fn lemma_phase_repeats(freq: u32, sample: u64, rate: u32)
    requires
        freq > 0,
        sample + spec_period(freq, rate) <= u64::MAX,
    ensures
        spec_phase(freq, (sample + spec_period(freq, rate)) as u64, rate) == spec_phase(
            freq,
            sample,
            rate,
        ),
{
    lemma_phase_bounds(freq, sample, rate);
    let period = spec_period(freq, rate);
    vstd::arithmetic::div_mod::lemma_mod_add_multiples_vanish(sample as int, period);
}

/// The phase of an oscillator at `freq` thousandths of a hertz, by the clock
/// `counter`.
pub fn phase(freq: u32, counter: &SampleTimer) -> (p: u32)
    ensures
        p == spec_phase(freq, counter.sample(), counter.samplerate()),
        p < ONE,
{
    let rate: u32 = counter.samplerate();
    if freq == 0 || rate == 0 {
        return 0;
    }
    proof {
        lemma_phase_bounds(freq, counter.sample(), rate);
    }
    let scaled: u64 = (rate as u64) * (MILLIHERTZ as u64);
    let whole: u64 = scaled / (freq as u64);
    let period: u64 = if whole == 0 { 1 } else { whole };
    let within: u64 = counter.sample() % period;
    let turns: u64 = within * (freq as u64);
    proof {
        assert(turns * ONE <= 0xffff_ffff * 1000 * 1_000_000) by (nonlinear_arith)
            requires
                0 <= turns < 0xffff_ffff * 1000,
        ;
    }
    ((turns as u128) * (ONE as u128) / (scaled as u128)) as u32
}

/// A place on the outline of a polygon: `progress`, a fraction of [`ONE`],
/// of the way from corner number `corner` to the next.
#[derive(Clone, Copy, Debug, PartialEq, Eq)]
pub struct Edge {
    pub corner: u32,
    pub progress: u32,
}

/// Both counts are in millionths, so their product is in units of this.
pub const ONE_SQUARED: u64 = 1_000_000_000_000;

/// Where the phase `p` falls on a polygon of `corners` corners, a count in
/// millionths that need not be whole: `p` over the step from one corner to
/// the next, split into the corners passed and the rest.
pub open spec fn spec_polygon_edge(corners: u32, p: u32) -> Edge {
    Edge {
        corner: (corners * p / (ONE_SQUARED as int)) as u32,
        progress: (corners * p % (ONE_SQUARED as int) / (ONE as int)) as u32,
    }
}

/// The progress along an edge is short of one, and a phase of zero is the
/// first corner itself.
pub proof fn lemma_polygon_edge(corners: u32, p: u32)
    ensures
        corners * p / (ONE_SQUARED as int) <= 0xffff_ffff,
        0 <= corners * p % (ONE_SQUARED as int) / (ONE as int) < ONE,
        spec_polygon_edge(corners, p).progress < ONE,
        p == 0 ==> spec_polygon_edge(corners, p) == (Edge { corner: 0, progress: 0 }),
{
    let product: int = corners * p;
    let square: int = ONE_SQUARED as int;
    let one: int = ONE as int;
    assert(0 <= product <= 0xffff_ffff * 0xffff_ffff) by (nonlinear_arith)
        requires
            product == corners * p,
            0 <= corners <= 0xffff_ffff,
            0 <= p <= 0xffff_ffff,
    ;
    vstd::arithmetic::div_mod::lemma_fundamental_div_mod(product, square);
    let corner: int = product / square;
    let rest: int = product % square;
    assert(0 <= corner <= 0xffff_ffff) by (nonlinear_arith)
        requires
            product == square * corner + rest,
            0 <= rest < square,
            0 <= product <= 0xffff_ffff * 0xffff_ffff,
            square == 1_000_000_000_000,
    ;
    vstd::arithmetic::div_mod::lemma_fundamental_div_mod(rest, one);
    let progress: int = rest / one;
    assert(0 <= progress < one) by (nonlinear_arith)
        requires
            rest == one * progress + rest % one,
            0 <= rest % one < one,
            0 <= rest < square,
            square == one * one,
            one == 1_000_000,
    ;
    assert(p == 0 ==> product == 0) by (nonlinear_arith)
        requires
            product == corners * p,
    ;
}

/// With a whole number `n` of corners a phase short of one falls on one of
/// the polygon's `n` edges: the edge found starts at a corner below `n`, so
/// that its far end is at most corner `n`, which is the first corner again.
pub proof fn lemma_polygon_edge_whole(n: u32, p: u32)
    requires
        p < ONE,
        n * ONE <= 0xffff_ffff,
    ensures
        spec_polygon_edge((n * ONE) as u32, p).corner < n || n == 0,
{
    let corners: int = n * ONE;
    lemma_polygon_edge(corners as u32, p);
    let product: int = corners * p;
    let square: int = ONE_SQUARED as int;
    let one: int = ONE as int;
    vstd::arithmetic::div_mod::lemma_fundamental_div_mod(product, square);
    let corner: int = product / square;
    let rest: int = product % square;
    assert(corner < n || n == 0) by (nonlinear_arith)
        requires
            product == corners * p,
            corners == n * one,
            0 <= p < one,
            product == square * corner + rest,
            0 <= rest < square,
            square == one * one,
            one == 1_000_000,
            0 <= n,
    ;
}

/// On a polygon with a whole number `n` of corners the outline is all but
/// closed at the last phase short of one: the point is on the last edge, `n`
/// millionths short of its far end, which is the first corner again.
pub proof fn lemma_polygon_edge_closes(n: u32)
    requires
        1 <= n,
        n * ONE <= 0xffff_ffff,
    ensures
        spec_polygon_edge((n * ONE) as u32, (ONE - 1) as u32) == (Edge {
            corner: (n - 1) as u32,
            progress: (ONE - n) as u32,
        }),
{
    let one: int = ONE as int;
    let square: int = ONE_SQUARED as int;
    let product: int = (n * ONE) * (ONE - 1);
    let rest: int = one * (one - n);
    assert(product == square * (n - 1) + rest) by (nonlinear_arith)
        requires
            product == (n * one) * (one - 1),
            rest == one * (one - n),
            square == one * one,
    ;
    assert(0 <= rest < square) by (nonlinear_arith)
        requires
            rest == one * (one - n),
            square == one * one,
            1 <= n <= 4294,
            one == 1_000_000,
    ;
    vstd::arithmetic::div_mod::lemma_fundamental_div_mod_converse(product, square, n - 1, rest);
    vstd::arithmetic::div_mod::lemma_div_multiples_vanish(one - n, one);
    assert(rest == one * (one - n));
    assert((one - n) * one == rest) by (nonlinear_arith)
        requires
            rest == one * (one - n),
    ;
}

/// Finds the edge of the polygon that the phase `p` falls on.
pub fn polygon_edge(corners: u32, p: u32) -> (edge: Edge)
    ensures
        edge == spec_polygon_edge(corners, p),
        edge.progress < ONE,
{
    proof {
        lemma_polygon_edge(corners, p);
        assert(0 <= corners * p <= 0xffff_ffff * 0xffff_ffff) by (nonlinear_arith)
            requires
                0 <= corners <= 0xffff_ffff,
                0 <= p <= 0xffff_ffff,
        ;
    }
    let product: u64 = (corners as u64) * (p as u64);
    Edge {
        corner: (product / ONE_SQUARED) as u32,
        progress: (product % ONE_SQUARED / (ONE as u64)) as u32,
    }
}

/// Where corner number `corner` of a polygon of `corners` corners, a count in
/// millionths, lies on the circle: the fraction of a turn, in millionths and
/// rounded down. Corner zero is at zero, and each further corner a step
/// of one over the number of corners on; whole turns are dropped, for the
/// circle is the same after each. A polygon without corners has them all at
/// zero.
pub open spec fn spec_corner_phase(corners: u32, corner: u32) -> int {
    if corners == 0 {
        0
    } else {
        (corner * ONE_SQUARED / (corners as int)) % (ONE as int)
    }
}

/// The first corner is where the turn starts, and on a polygon with a whole
/// number `n` of corners, corner `n` is the first corner again. So the
/// outline closes where the phase wraps from one to zero.
pub proof fn lemma_corner_phase_wraps(n: u32, corners: u32)
    requires
        n >= 1,
        corners == n * ONE,
    ensures
        spec_corner_phase(corners, 0) == 0,
        spec_corner_phase(corners, n) == 0,
{
    let one: int = ONE as int;
    assert(n * ONE_SQUARED == one * (n * one)) by (nonlinear_arith)
        requires
            ONE_SQUARED == one * one,
    ;
    vstd::arithmetic::div_mod::lemma_div_multiples_vanish(one, n * one);
    assert(0 * (ONE_SQUARED as int) == 0);
}

/// The place of a corner on the circle, as a fraction of a turn.
pub fn corner_phase(corners: u32, corner: u32) -> (turn: u32)
    ensures
        turn == spec_corner_phase(corners, corner),
        turn < ONE,
{
    if corners == 0 {
        return 0;
    }
    proof {
        let product: int = corner * ONE_SQUARED;
        assert(0 <= product <= 0xffff_ffff * 1_000_000_000_000) by (nonlinear_arith)
            requires
                product == corner * ONE_SQUARED,
                ONE_SQUARED == 1_000_000_000_000,
                0 <= corner <= 0xffff_ffff,
        ;
    }
    let turns: u128 = (corner as u128) * (ONE_SQUARED as u128) / (corners as u128);
    (turns % (ONE as u128)) as u32
}

/// The point of the polygon's outline on `edge`, given where the edge's two
/// corners are: the edge's progress of the way from `from`, the corner the
/// edge starts at, to `to`, the next.
pub open spec fn spec_polygon(edge: Edge, from: Vec2, to: Vec2) -> Vec2 {
    crate::vec2::spec_lerp(from, to, edge.progress)
}

/// With its corners on the unit circle, or anywhere within it, the polygon
/// stays within the unit circle at every phase.
pub proof fn lemma_polygon_within_unit_circle(corners: u32, p: u32, from: Vec2, to: Vec2)
    requires
        within_radius(from, ONE as int),
        within_radius(to, ONE as int),
    ensures
        within_radius(spec_polygon(spec_polygon_edge(corners, p), from, to), ONE as int),
{
    lemma_lerp_within_radius(from, to, spec_polygon_edge(corners, p).progress, ONE as int);
}

/// At phase zero the polygon is at its first corner, whatever its number
/// of corners.
pub proof fn lemma_polygon_starts_at_first_corner(corners: u32, from: Vec2, to: Vec2)
    ensures
        spec_polygon_edge(corners, 0).corner == 0,
        spec_polygon(spec_polygon_edge(corners, 0), from, to) == from,
{
    lemma_polygon_edge(corners, 0);
    lemma_between(from.0, to.0, 0);
    lemma_between(from.1, to.1, 0);
}

/// The polygon waveform: a point on the outline of the polygon.
pub fn polygon(edge: Edge, from: Vec2, to: Vec2) -> (point: Vec2)
    ensures
        point == spec_polygon(edge, from, to),
{
    crate::vec2::lerp(from, to, edge.progress)
}

/// The number of corners, in millionths, once the modulation has moved it:
/// `sine`, the modulating wave in millionths, times the depth `amount` is
/// added to `corners`, and the sum stays within what 32 bits hold.
pub open spec fn spec_modulate(corners: u32, sine: i64, amount: u32) -> int {
    let moved = corners + toward_zero(sine * amount);
    if moved < 0 {
        0
    } else if moved > u32::MAX {
        u32::MAX as int
    } else {
        moved
    }
}

/// Moves the number of corners by the modulating wave.
pub fn modulate(corners: u32, sine: i64, amount: u32) -> (moved: u32)
    ensures
        moved == spec_modulate(corners, sine, amount),
{
    let swing: i64 = crate::vec2::scale((sine, 0), amount).0;
    proof {
        let exact = toward_zero(sine * amount);
        let (low, high) = (i64::MIN as int, i64::MAX as int);
        if exact > high {
            assert(swing == high);
            assert(corners + exact > u32::MAX);
        }
        if exact < low {
            assert(swing == low);
            assert(corners + exact < 0);
        }
    }
    let moved: i128 = (corners as i128) + (swing as i128);
    if moved < 0 {
        0
    } else if moved > u32::MAX as i128 {
        u32::MAX
    } else {
        moved as u32
    }
}

} // verus!
