//! The sample clock: the only notion of time inside the audio callback.

use crate::maths::ONE;
use vstd::prelude::*;

verus! {

/// Nanoseconds in a second: durations are given in nanoseconds.
pub const NANOS_PER_SECOND: u64 = 1_000_000_000;

/// Start sample of something that never started. Time measured from it never ends.
pub const NEVER: u64 = 0xffff_ffff_ffff_ffff;

/// A count of samples played so far, at a fixed number of samples per second.
#[derive(Clone, Copy, Debug, PartialEq, Eq)]
pub struct SampleTimer {
    sample: u64,
    samplerate: u32,
}

/// Samples between `start` and `now`: [`NEVER`] when `start` is [`NEVER`],
/// zero when `start` still lies ahead.
pub open spec fn elapsed_samples(now: u64, start: u64) -> u64 {
    if start == NEVER {
        NEVER
    } else if start > now {
        0
    } else {
        (now - start) as u64
    }
}

/// How much of a duration is over, as a fraction of [`ONE`], once `elapsed`
/// samples have gone by at `rate` samples per second: the seconds elapsed,
/// less `delay_ns`, over `duration_ns`, kept between zero and one and
/// rounded down. Both sides are compared in units of a sample-nanosecond, so
/// nothing is divided before the end. At no samples elapsed nothing is over,
/// and after [`NEVER`] everything is.
pub open spec fn spec_progress(elapsed: u64, rate: u32, delay_ns: u64, duration_ns: u64) -> int {
    let ticks: int = elapsed * NANOS_PER_SECOND;
    let start: int = rate * delay_ns;
    let span: int = rate * duration_ns;
    if elapsed == NEVER {
        ONE as int
    } else if ticks <= start {
        0
    } else if ticks - start >= span {
        ONE as int
    } else {
        (ticks - start) * ONE / span
    }
}

/// Progress is a fraction of one.
pub proof fn lemma_progress_bounds(elapsed: u64, rate: u32, delay_ns: u64, duration_ns: u64)
    ensures
        0 <= spec_progress(elapsed, rate, delay_ns, duration_ns) <= ONE,
{
    let ticks: int = elapsed * NANOS_PER_SECOND;
    let start: int = rate * delay_ns;
    let span: int = rate * duration_ns;
    if elapsed != NEVER && ticks > start && ticks - start < span {
        let gone: int = ticks - start;
        let one: int = ONE as int;
        assert(0 <= gone * one <= span * one) by (nonlinear_arith)
            requires
                0 < gone < span,
                one == 1_000_000,
        ;
        vstd::arithmetic::div_mod::lemma_div_is_ordered(0, gone * one, span);
        vstd::arithmetic::div_mod::lemma_div_is_ordered(gone * one, span * one, span);
        vstd::arithmetic::div_mod::lemma_div_multiples_vanish(one, span);
        assert(span * one == one * span) by (nonlinear_arith);
    }
}

/// Progress never goes back as samples go by.
pub proof fn lemma_progress_monotonic(
    earlier: u64,
    later: u64,
    rate: u32,
    delay_ns: u64,
    duration_ns: u64,
)
    requires
        earlier <= later,
    ensures
        spec_progress(earlier, rate, delay_ns, duration_ns) <= spec_progress(
            later,
            rate,
            delay_ns,
            duration_ns,
        ),
{
    lemma_progress_bounds(earlier, rate, delay_ns, duration_ns);
    lemma_progress_bounds(later, rate, delay_ns, duration_ns);
    let nanos: int = NANOS_PER_SECOND as int;
    let ticks_a: int = earlier * nanos;
    let ticks_b: int = later * nanos;
    let start: int = rate * delay_ns;
    let span: int = rate * duration_ns;
    let one: int = ONE as int;
    assert(ticks_a <= ticks_b) by (nonlinear_arith)
        requires
            earlier <= later,
            ticks_a == earlier * nanos,
            ticks_b == later * nanos,
            nanos == 1_000_000_000,
    ;
    if later != NEVER && ticks_a > start && ticks_b - start < span {
        let gone_a: int = ticks_a - start;
        let gone_b: int = ticks_b - start;
        assert(gone_a * one <= gone_b * one) by (nonlinear_arith)
            requires
                gone_a <= gone_b,
                one == 1_000_000,
        ;
        vstd::arithmetic::div_mod::lemma_div_is_ordered(gone_a * one, gone_b * one, span);
    }
}

/// What a [`SampleTimer`] holds, for contracts.
pub struct TimerView {
    pub sample: u64,
    pub samplerate: u32,
}

impl TimerView {
    /// The count stays below [`NEVER`], so that no start sample taken from a
    /// timer is mistaken for "never started".
    pub open spec fn wf(self) -> bool {
        self.sample < NEVER
    }
}

impl View for SampleTimer {
    type V = TimerView;

    closed spec fn view(&self) -> TimerView {
        TimerView { sample: self.sample, samplerate: self.samplerate }
    }
}

impl SampleTimer {
    /// The count, in contracts.
    pub open spec fn spec_sample(&self) -> u64 {
        self@.sample
    }

    /// Samples per second, in contracts.
    pub open spec fn spec_samplerate(&self) -> u32 {
        self@.samplerate
    }

    /// The count is a valid one: see [`TimerView::wf`].
    pub open spec fn wf(&self) -> bool {
        self@.wf()
    }

    /// A clock at sample zero.
    pub fn new(samplerate: u32) -> (timer: Self)
        ensures
            timer@ == (TimerView { sample: 0, samplerate }),
            timer.wf(),
    {
        Self { sample: 0, samplerate }
    }

    /// Advances the clock by `amt` samples.
    pub fn inc(&mut self, amt: u64)
        requires
            old(self).spec_sample() + amt < NEVER,
        ensures
            final(self)@ == (TimerView { sample: (old(self)@.sample + amt) as u64, ..old(self)@ }),
            final(self).wf(),
    {
        self.sample = self.sample + amt;
    }

    /// Sets the count back to zero. The rate stays.
    pub fn reset(&mut self)
        ensures
            final(self)@ == (TimerView { sample: 0, ..old(self)@ }),
            final(self).wf(),
    {
        self.sample = 0;
    }

    /// Samples elapsed since `sample_in_past`; divided by the rate they are
    /// seconds. A start of [`NEVER`] gives [`NEVER`]: longer than any duration.
    pub fn time_since(&self, sample_in_past: u64) -> (elapsed: u64)
        ensures
            elapsed == elapsed_samples(self.spec_sample(), sample_in_past),
    {
        if sample_in_past == NEVER {
            NEVER
        } else if sample_in_past > self.sample {
            0
        } else {
            self.sample - sample_in_past
        }
    }

    /// The fraction of `duration_ns` that is over, `delay_ns` after the
    /// sample `since`.
    pub fn progress(&self, since: u64, delay_ns: u64, duration_ns: u64) -> (done: u32)
        ensures
            done == spec_progress(
                elapsed_samples(self.spec_sample(), since),
                self.spec_samplerate(),
                delay_ns,
                duration_ns,
            ),
            done <= ONE,
    {
        let elapsed: u64 = self.time_since(since);
        proof {
            lemma_progress_bounds(elapsed, self.samplerate, delay_ns, duration_ns);
        }
        if elapsed == NEVER {
            return ONE;
        }
        proof {
            let nanos: int = NANOS_PER_SECOND as int;
            assert(0 <= elapsed * nanos <= 0xffff_ffff_ffff_ffff * 1_000_000_000)
                by (nonlinear_arith)
                requires
                    0 <= elapsed <= 0xffff_ffff_ffff_ffff,
                    nanos == 1_000_000_000,
            ;
            assert(0 <= self.samplerate * delay_ns <= 0xffff_ffff * 0xffff_ffff_ffff_ffff)
                by (nonlinear_arith)
                requires
                    0 <= self.samplerate <= 0xffff_ffff,
                    0 <= delay_ns <= 0xffff_ffff_ffff_ffff,
            ;
            assert(0 <= self.samplerate * duration_ns <= 0xffff_ffff * 0xffff_ffff_ffff_ffff)
                by (nonlinear_arith)
                requires
                    0 <= self.samplerate <= 0xffff_ffff,
                    0 <= duration_ns <= 0xffff_ffff_ffff_ffff,
            ;
        }
        let ticks: u128 = (elapsed as u128) * (NANOS_PER_SECOND as u128);
        let start: u128 = (self.samplerate as u128) * (delay_ns as u128);
        let span: u128 = (self.samplerate as u128) * (duration_ns as u128);
        if ticks <= start {
            0
        } else if ticks - start >= span {
            ONE
        } else {
            let gone: u128 = ticks - start;
            proof {
                let one: int = ONE as int;
                assert(0 <= gone * one <= 0xffff_ffff_ffff_ffff * 1_000_000_000 * 1_000_000)
                    by (nonlinear_arith)
                    requires
                        0 <= gone <= 0xffff_ffff_ffff_ffff * 1_000_000_000,
                        one == 1_000_000,
                ;
            }
            (gone * (ONE as u128) / span) as u32
        }
    }

    /// Samples counted so far.
    #[verifier::when_used_as_spec(spec_sample)]
    pub fn sample(&self) -> (count: u64)
        ensures
            count == self.spec_sample(),
    {
        self.sample
    }

    /// Samples per second.
    #[verifier::when_used_as_spec(spec_samplerate)]
    pub fn samplerate(&self) -> (rate: u32)
        ensures
            rate == self.spec_samplerate(),
    {
        self.samplerate
    }
}

} // verus!
