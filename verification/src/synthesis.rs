//! The envelope, and the voice that it shapes.

use crate::maths::{lemma_lerp_between, lemma_lerp_monotonic, lerp, spec_lerp, ONE};
use crate::util::{
    elapsed_samples, lemma_progress_bounds, lemma_progress_monotonic, spec_progress, SampleTimer,
    TimerView, NANOS_PER_SECOND, NEVER,
};
use vstd::prelude::*;

verus! {

/// Where an envelope stands. `Held` and `Released` carry the level that was
/// sounding when the state was entered, and the sample at which it was.
#[derive(Clone, Copy, Debug, PartialEq, Eq)]
pub enum EnvelopeState {
    Held(u32, u64),
    Released(u32, u64),
    Bypass,
    Off,
}

/// Attack, decay, sustain, release. Durations are in nanoseconds and at least
/// one; levels are fractions of [`ONE`].
#[derive(Clone, Copy, Debug, PartialEq, Eq)]
pub struct Envelope {
    state: EnvelopeState,
    attack: u64,
    decay: u64,
    sustain_level: u32,
    release: u64,
}

/// What an [`Envelope`] holds, for contracts.
pub struct EnvelopeView {
    pub state: EnvelopeState,
    pub attack: u64,
    pub decay: u64,
    pub sustain_level: u32,
    pub release: u64,
}

/// Level of a held note: up from `level_at_hold` to one over the attack, then
/// down to `sustain_level` over the decay, and there it stays.
pub open spec fn held_level(
    level_at_hold: u32,
    elapsed: u64,
    rate: u32,
    attack: u64,
    decay: u64,
    sustain_level: u32,
) -> int {
    let attack_completed = spec_progress(elapsed, rate, 0, attack) as u32;
    let decay_completed = spec_progress(elapsed, rate, attack, decay) as u32;
    let attack_amount = spec_lerp(level_at_hold, ONE, attack_completed);
    let decay_amount = spec_lerp(0, (ONE - sustain_level) as u32, decay_completed);
    attack_amount - decay_amount
}

/// Level of a released note: down from `level_at_release` to zero over the
/// release.
pub open spec fn released_level(
    level_at_release: u32,
    elapsed: u64,
    rate: u32,
    release: u64,
) -> int {
    spec_lerp(level_at_release, 0, spec_progress(elapsed, rate, 0, release) as u32)
}

impl EnvelopeView {
    /// No phase has an empty span, and every level is a fraction of one.
    pub open spec fn wf(self) -> bool {
        &&& self.attack >= 1
        &&& self.decay >= 1
        &&& self.release >= 1
        &&& self.sustain_level <= ONE
        &&& match self.state {
            EnvelopeState::Held(level, _) => level <= ONE,
            EnvelopeState::Released(level, _) => level <= ONE,
            _ => true,
        }
    }

    /// The level at sample `now` of a clock that runs at `rate`.
    pub open spec fn level(self, now: u64, rate: u32) -> int {
        match self.state {
            EnvelopeState::Held(level_at_hold, start) => held_level(
                level_at_hold,
                elapsed_samples(now, start),
                rate,
                self.attack,
                self.decay,
                self.sustain_level,
            ),
            EnvelopeState::Released(level_at_release, start) => released_level(
                level_at_release,
                elapsed_samples(now, start),
                rate,
                self.release,
            ),
            EnvelopeState::Bypass => ONE as int,
            EnvelopeState::Off => 0,
        }
    }

    /// The same envelope in another state.
    pub open spec fn with_state(self, state: EnvelopeState) -> EnvelopeView {
        EnvelopeView { state, ..self }
    }

    /// The envelope after a key press at `now`: it starts from the level that
    /// is sounding.
    pub open spec fn hold(self, now: u64, rate: u32) -> EnvelopeView {
        self.with_state(EnvelopeState::Held(self.level(now, rate) as u32, now))
    }

    /// The envelope after a key release at `now`: it falls from the level that
    /// is sounding.
    pub open spec fn release(self, now: u64, rate: u32) -> EnvelopeView {
        self.with_state(EnvelopeState::Released(self.level(now, rate) as u32, now))
    }
}

impl View for Envelope {
    type V = EnvelopeView;

    closed spec fn view(&self) -> EnvelopeView {
        EnvelopeView {
            state: self.state,
            attack: self.attack,
            decay: self.decay,
            sustain_level: self.sustain_level,
            release: self.release,
        }
    }
}

/// While the decay has made any progress the attack is complete, so a held
/// note's level is a fraction of one, and never under the sustain level once
/// the attack is over.
pub proof fn lemma_held_level_bounds(
    level_at_hold: u32,
    elapsed: u64,
    rate: u32,
    attack: u64,
    decay: u64,
    sustain_level: u32,
)
    requires
        level_at_hold <= ONE,
        sustain_level <= ONE,
    ensures
        0 <= held_level(level_at_hold, elapsed, rate, attack, decay, sustain_level) <= ONE,
        spec_progress(elapsed, rate, attack, decay) > 0 ==> spec_progress(elapsed, rate, 0, attack)
            == ONE,
        spec_progress(elapsed, rate, 0, attack) == ONE ==> sustain_level <= held_level(
            level_at_hold,
            elapsed,
            rate,
            attack,
            decay,
            sustain_level,
        ),
{
    lemma_progress_bounds(elapsed, rate, 0, attack);
    lemma_progress_bounds(elapsed, rate, attack, decay);
    let attack_completed = spec_progress(elapsed, rate, 0, attack) as u32;
    let decay_completed = spec_progress(elapsed, rate, attack, decay) as u32;
    lemma_lerp_between(level_at_hold, ONE, attack_completed);
    lemma_lerp_between(0, (ONE - sustain_level) as u32, decay_completed);
}

/// The level of a well-formed envelope is a fraction of one: never negative,
/// never above one.
pub proof fn lemma_level_bounds(envelope: EnvelopeView, now: u64, rate: u32)
    requires
        envelope.wf(),
    ensures
        0 <= envelope.level(now, rate) <= ONE,
{
    match envelope.state {
        EnvelopeState::Held(level_at_hold, start) => {
            lemma_held_level_bounds(
                level_at_hold,
                elapsed_samples(now, start),
                rate,
                envelope.attack,
                envelope.decay,
                envelope.sustain_level,
            );
        },
        EnvelopeState::Released(level_at_release, start) => {
            let elapsed = elapsed_samples(now, start);
            lemma_progress_bounds(elapsed, rate, 0, envelope.release);
            lemma_lerp_between(
                level_at_release,
                0,
                spec_progress(elapsed, rate, 0, envelope.release) as u32,
            );
        },
        _ => {},
    }
}

/// A key press does not move the level: the envelope rises from where it was,
/// whatever state it was in.
pub proof fn lemma_hold_keeps_level(envelope: EnvelopeView, now: u64, rate: u32)
    requires
        envelope.wf(),
        now < NEVER,
    ensures
        envelope.hold(now, rate).wf(),
        envelope.hold(now, rate).level(now, rate) == envelope.level(now, rate),
{
    lemma_level_bounds(envelope, now, rate);
    let level = envelope.level(now, rate) as u32;
    lemma_lerp_between(level, ONE, 0);
    lemma_lerp_between(0, (ONE - envelope.sustain_level) as u32, 0);
}

/// Pressing the key twice at the same sample is pressing it once: the second
/// press changes neither the state nor the level.
pub proof fn lemma_hold_twice(envelope: EnvelopeView, now: u64, rate: u32)
    requires
        envelope.wf(),
        now < NEVER,
    ensures
        envelope.hold(now, rate).hold(now, rate) == envelope.hold(now, rate),
        envelope.hold(now, rate).hold(now, rate).level(now, rate) == envelope.level(now, rate),
{
    lemma_hold_keeps_level(envelope, now, rate);
    lemma_hold_keeps_level(envelope.hold(now, rate), now, rate);
}

/// A key release does not move the level either: the envelope falls from
/// where it was.
pub proof fn lemma_release_keeps_level(envelope: EnvelopeView, now: u64, rate: u32)
    requires
        envelope.wf(),
        now < NEVER,
    ensures
        envelope.release(now, rate).wf(),
        envelope.release(now, rate).level(now, rate) == envelope.level(now, rate),
{
    lemma_level_bounds(envelope, now, rate);
    let level = envelope.level(now, rate) as u32;
    lemma_lerp_between(level, 0, 0);
}

/// A key press leaves a well-formed envelope well formed, at any sample.
pub proof fn lemma_hold_wf(envelope: EnvelopeView, now: u64, rate: u32)
    requires
        envelope.wf(),
    ensures
        envelope.hold(now, rate).wf(),
{
    lemma_level_bounds(envelope, now, rate);
}

/// A key release leaves a well-formed envelope well formed, at any sample.
pub proof fn lemma_release_wf(envelope: EnvelopeView, now: u64, rate: u32)
    requires
        envelope.wf(),
    ensures
        envelope.release(now, rate).wf(),
{
    lemma_level_bounds(envelope, now, rate);
}

/// Samples elapsed since a start never go down as the clock goes on.
pub proof fn lemma_elapsed_monotonic(earlier: u64, later: u64, start: u64)
    requires
        earlier <= later,
    ensures
        elapsed_samples(earlier, start) <= elapsed_samples(later, start),
        elapsed_samples(earlier, start) * NANOS_PER_SECOND <= elapsed_samples(later, start)
            * NANOS_PER_SECOND,
{
    let a = elapsed_samples(earlier, start) as int;
    let b = elapsed_samples(later, start) as int;
    assert(a * 1_000_000_000 <= b * 1_000_000_000) by (nonlinear_arith)
        requires
            a <= b,
    ;
}

/// During the attack the level of a held note never falls: of two samples,
/// the later of which is still within the attack time, the later has the
/// higher level or the same.
pub proof fn lemma_attack_rises(envelope: EnvelopeView, earlier: u64, later: u64, rate: u32)
    requires
        envelope.wf(),
        envelope.state is Held,
        earlier <= later < NEVER,
        elapsed_samples(later, envelope.state->Held_1) * NANOS_PER_SECOND <= rate
            * envelope.attack,
    ensures
        envelope.level(earlier, rate) <= envelope.level(later, rate),
{
    let level_at_hold = envelope.state->Held_0;
    let start = envelope.state->Held_1;
    let before = elapsed_samples(earlier, start);
    let after = elapsed_samples(later, start);
    lemma_elapsed_monotonic(earlier, later, start);
    if start != NEVER {
        lemma_progress_bounds(before, rate, 0, envelope.attack);
        lemma_progress_bounds(after, rate, 0, envelope.attack);
        lemma_progress_monotonic(before, after, rate, 0, envelope.attack);
        lemma_lerp_monotonic(
            level_at_hold,
            ONE,
            spec_progress(before, rate, 0, envelope.attack) as u32,
            spec_progress(after, rate, 0, envelope.attack) as u32,
        );
    }
}

/// Once the attack time is over the level of a held note never rises: of two
/// samples at or after the end of the attack, the later has the lower level
/// or the same.
pub proof fn lemma_decay_falls(envelope: EnvelopeView, earlier: u64, later: u64, rate: u32)
    requires
        envelope.wf(),
        envelope.state is Held,
        earlier <= later,
        0 < elapsed_samples(earlier, envelope.state->Held_1),
        elapsed_samples(earlier, envelope.state->Held_1) * NANOS_PER_SECOND >= rate
            * envelope.attack,
    ensures
        envelope.level(earlier, rate) >= envelope.level(later, rate),
{
    let level_at_hold = envelope.state->Held_0;
    let start = envelope.state->Held_1;
    let before = elapsed_samples(earlier, start);
    let after = elapsed_samples(later, start);
    lemma_elapsed_monotonic(earlier, later, start);
    assert(before * NANOS_PER_SECOND > 0) by (nonlinear_arith)
        requires
            before > 0,
    ;
    lemma_progress_bounds(before, rate, envelope.attack, envelope.decay);
    lemma_progress_bounds(after, rate, envelope.attack, envelope.decay);
    lemma_progress_monotonic(before, after, rate, envelope.attack, envelope.decay);
    lemma_lerp_monotonic(
        0,
        (ONE - envelope.sustain_level) as u32,
        spec_progress(before, rate, envelope.attack, envelope.decay) as u32,
        spec_progress(after, rate, envelope.attack, envelope.decay) as u32,
    );
}

/// Once attack and decay are both over a held note stays at the sustain
/// level.
pub proof fn lemma_decay_ends(envelope: EnvelopeView, now: u64, rate: u32)
    requires
        envelope.wf(),
        envelope.state is Held,
        0 < elapsed_samples(now, envelope.state->Held_1),
        elapsed_samples(now, envelope.state->Held_1) * NANOS_PER_SECOND >= rate * envelope.attack
            + rate * envelope.decay,
    ensures
        envelope.level(now, rate) == envelope.sustain_level,
{
    let level_at_hold = envelope.state->Held_0;
    let elapsed = elapsed_samples(now, envelope.state->Held_1);
    assert(elapsed * NANOS_PER_SECOND > 0) by (nonlinear_arith)
        requires
            elapsed > 0,
    ;
    assert(rate * envelope.attack >= 0 && rate * envelope.decay > 0 || rate == 0)
        by (nonlinear_arith)
        requires
            envelope.decay >= 1,
            envelope.attack >= 1,
            rate >= 0,
    ;
    lemma_lerp_between(level_at_hold, ONE, ONE);
    lemma_lerp_between(0, (ONE - envelope.sustain_level) as u32, ONE);
}

/// After the key is let go the level never rises.
pub proof fn lemma_release_falls(envelope: EnvelopeView, earlier: u64, later: u64, rate: u32)
    requires
        envelope.wf(),
        envelope.state is Released,
        earlier <= later,
    ensures
        envelope.level(earlier, rate) >= envelope.level(later, rate),
{
    let level_at_release = envelope.state->Released_0;
    let start = envelope.state->Released_1;
    let before = elapsed_samples(earlier, start);
    let after = elapsed_samples(later, start);
    lemma_elapsed_monotonic(earlier, later, start);
    lemma_progress_bounds(before, rate, 0, envelope.release);
    lemma_progress_bounds(after, rate, 0, envelope.release);
    lemma_progress_monotonic(before, after, rate, 0, envelope.release);
    lemma_lerp_monotonic(
        level_at_release,
        0,
        spec_progress(before, rate, 0, envelope.release) as u32,
        spec_progress(after, rate, 0, envelope.release) as u32,
    );
}

/// A released note is silent from the moment the release time has gone by:
/// the level is exactly zero then, and at every later sample.
pub proof fn lemma_release_ends(envelope: EnvelopeView, now: u64, rate: u32)
    requires
        envelope.wf(),
        envelope.state is Released,
        0 < elapsed_samples(now, envelope.state->Released_1),
        elapsed_samples(now, envelope.state->Released_1) * NANOS_PER_SECOND >= rate
            * envelope.release,
    ensures
        envelope.level(now, rate) == 0,
{
    let level_at_release = envelope.state->Released_0;
    let elapsed = elapsed_samples(now, envelope.state->Released_1);
    assert(elapsed * NANOS_PER_SECOND > 0) by (nonlinear_arith)
        requires
            elapsed > 0,
    ;
    lemma_lerp_between(level_at_release, 0, ONE);
}

impl Envelope {
    /// A silent envelope. Durations are in nanoseconds; one of zero is taken
    /// as one nanosecond, so that no phase has an empty span.
    pub fn new(attack: u64, decay: u64, sustain_level: u32, release: u64) -> (envelope: Self)
        requires
            sustain_level <= ONE,
        ensures
            envelope@ == (EnvelopeView {
                state: EnvelopeState::Off,
                attack: if attack == 0 { 1 } else { attack },
                decay: if decay == 0 { 1 } else { decay },
                sustain_level,
                release: if release == 0 { 1 } else { release },
            }),
            envelope@.wf(),
    {
        Self {
            state: EnvelopeState::Off,
            attack: if attack == 0 { 1 } else { attack },
            decay: if decay == 0 { 1 } else { decay },
            sustain_level,
            release: if release == 0 { 1 } else { release },
        }
    }

    /// The level now, by the clock `timer`.
    pub fn get(&self, timer: &SampleTimer) -> (level: u32)
        requires
            self@.wf(),
        ensures
            level == self@.level(timer.sample(), timer.samplerate()),
            level <= ONE,
    {
        match self.state {
            EnvelopeState::Held(level_at_hold, start) => {
                let attack_completed: u32 = timer.progress(start, 0, self.attack);
                let decay_completed: u32 = timer.progress(start, self.attack, self.decay);
                let attack_amount: u32 = lerp(level_at_hold, ONE, attack_completed);
                let decay_amount: u32 = lerp(0, ONE - self.sustain_level, decay_completed);
                proof {
                    lemma_held_level_bounds(
                        level_at_hold,
                        elapsed_samples(timer.sample(), start),
                        timer.samplerate(),
                        self.attack,
                        self.decay,
                        self.sustain_level,
                    );
                }
                attack_amount - decay_amount
            },
            EnvelopeState::Released(level_at_release, start) => {
                let completed: u32 = timer.progress(start, 0, self.release);
                proof {
                    lemma_lerp_between(level_at_release, 0, completed);
                }
                lerp(level_at_release, 0, completed)
            },
            EnvelopeState::Bypass => ONE,
            EnvelopeState::Off => 0,
        }
    }

    /// Key down: the envelope rises again from the level that is sounding,
    /// so the level does not jump.
    pub fn hold(&mut self, timer: &SampleTimer)
        requires
            old(self)@.wf(),
        ensures
            final(self)@ == old(self)@.hold(timer.sample(), timer.samplerate()),
            final(self)@.wf(),
            timer.wf() ==> final(self)@.level(timer.sample(), timer.samplerate()) == old(
                self,
            )@.level(timer.sample(), timer.samplerate()),
    {
        proof {
            if timer.wf() {
                lemma_hold_keeps_level(self@, timer.sample(), timer.samplerate());
            }
        }
        let level: u32 = self.get(timer);
        self.state = EnvelopeState::Held(level, timer.sample());
    }

    /// Key up: the envelope falls from the level that is sounding, so the
    /// level does not jump.
    pub fn release(&mut self, timer: &SampleTimer)
        requires
            old(self)@.wf(),
        ensures
            final(self)@ == old(self)@.release(timer.sample(), timer.samplerate()),
            final(self)@.wf(),
            timer.wf() ==> final(self)@.level(timer.sample(), timer.samplerate()) == old(
                self,
            )@.level(timer.sample(), timer.samplerate()),
    {
        proof {
            if timer.wf() {
                lemma_release_keeps_level(self@, timer.sample(), timer.samplerate());
            }
        }
        let level: u32 = self.get(timer);
        self.state = EnvelopeState::Released(level, timer.sample());
    }

    /// Silences the envelope at once.
    pub fn disable(&mut self)
        ensures
            final(self)@ == old(self)@.with_state(EnvelopeState::Off),
            old(self)@.wf() ==> final(self)@.wf(),
    {
        self.state = EnvelopeState::Off;
    }

    /// Pins the level to one, whatever the clock says.
    pub fn bypass(&mut self)
        ensures
            final(self)@ == old(self)@.with_state(EnvelopeState::Bypass),
            old(self)@.wf() ==> final(self)@.wf(),
    {
        self.state = EnvelopeState::Bypass;
    }

    /// Where the envelope stands.
    pub fn state(&self) -> (state: EnvelopeState)
        ensures
            state == self@.state,
    {
        self.state
    }
}

/// The note of a voice that has not been given one yet: C0.
pub const INITIAL_NOTE: u8 = 12;

/// One note's worth of synthesis state. The note means something only while
/// the envelope sounds.
#[derive(Clone, Copy, Debug, PartialEq, Eq)]
pub struct Voice {
    /// MIDI note number.
    pub note: u8,
    /// How hard the key was struck, as a fraction of [`ONE`].
    pub level: u32,
    pub envelope: Envelope,
    /// Clock of the voice's modulation, started anew with every key press.
    pub lfo_timer: SampleTimer,
}

/// What a [`Voice`] holds, for contracts.
pub struct VoiceView {
    pub note: u8,
    pub level: u32,
    pub envelope: EnvelopeView,
    pub lfo_timer: TimerView,
}

impl View for Voice {
    type V = VoiceView;

    open spec fn view(&self) -> VoiceView {
        VoiceView {
            note: self.note,
            level: self.level,
            envelope: self.envelope@,
            lfo_timer: self.lfo_timer@,
        }
    }
}

impl VoiceView {
    /// The envelope is well formed and the modulation clock is a valid one.
    pub open spec fn wf(self) -> bool {
        self.envelope.wf() && self.lfo_timer.wf()
    }

    /// The voice after a key press: it takes the note and the strike level,
    /// its envelope is held from the level that was sounding, and its
    /// modulation starts over.
    pub open spec fn trigger(self, note: u8, level: u32, now: u64, rate: u32) -> VoiceView {
        VoiceView {
            note,
            level,
            envelope: self.envelope.hold(now, rate),
            lfo_timer: TimerView { sample: 0, ..self.lfo_timer },
        }
    }

    /// The voice after the key of `note` is let go: released if it holds that
    /// note, untouched if not.
    pub open spec fn let_go(self, note: u8, now: u64, rate: u32) -> VoiceView {
        if self.note == note {
            VoiceView { envelope: self.envelope.release(now, rate), ..self }
        } else {
            self
        }
    }

    /// Whether the voice adds anything to the output at `now`.
    pub open spec fn sounds(self, now: u64, rate: u32) -> bool {
        self.envelope.level(now, rate) > 0
    }

    /// Envelope level times strike level.
    pub open spec fn gain(self, now: u64, rate: u32) -> int {
        self.envelope.level(now, rate) * self.level / (ONE as int)
    }

    /// The voice one sample on: its modulation clock moves only while it
    /// sounds.
    pub open spec fn tick(self, now: u64, rate: u32) -> VoiceView {
        if self.sounds(now, rate) {
            VoiceView {
                lfo_timer: TimerView {
                    sample: (self.lfo_timer.sample + 1) as u64,
                    ..self.lfo_timer
                },
                ..self
            }
        } else {
            self
        }
    }
}

/// The gain of a voice is no more than its strike level.
pub proof fn lemma_gain_bounds(voice: VoiceView, now: u64, rate: u32)
    requires
        voice.envelope.wf(),
    ensures
        0 <= voice.gain(now, rate) <= voice.level,
        !voice.sounds(now, rate) ==> voice.gain(now, rate) == 0,
{
    lemma_level_bounds(voice.envelope, now, rate);
    let level = voice.envelope.level(now, rate);
    let product = level * voice.level;
    assert(0 <= product <= voice.level * ONE) by (nonlinear_arith)
        requires
            0 <= level <= ONE,
            product == level * voice.level,
            0 <= voice.level,
    ;
    assert(level == 0 ==> product == 0) by (nonlinear_arith)
        requires
            product == level * voice.level,
    ;
    crate::maths::lemma_scaled_division(0, product, voice.level as int);
}

impl Voice {
    /// A silent voice on the initial note, with a modulation clock at
    /// `samplerate`.
    pub fn new(envelope: Envelope, samplerate: u32) -> (voice: Self)
        requires
            envelope@.wf(),
        ensures
            voice@ == (VoiceView {
                note: INITIAL_NOTE,
                level: 0,
                envelope: envelope@,
                lfo_timer: TimerView { sample: 0, samplerate },
            }),
            voice@.wf(),
    {
        Voice { note: INITIAL_NOTE, level: 0, envelope, lfo_timer: SampleTimer::new(samplerate) }
    }

    /// Key down for `note`, struck at `level`.
    pub fn trigger(&mut self, note: u8, level: u32, timer: &SampleTimer)
        requires
            old(self)@.wf(),
        ensures
            final(self)@ == old(self)@.trigger(note, level, timer.sample(), timer.samplerate()),
            final(self)@.wf(),
    {
        self.note = note;
        self.level = level;
        self.envelope.hold(timer);
        self.lfo_timer.reset();
    }

    /// Key up for `note`: releases the voice if that is the note it holds.
    pub fn let_go(&mut self, note: u8, timer: &SampleTimer)
        requires
            old(self)@.wf(),
        ensures
            final(self)@ == old(self)@.let_go(note, timer.sample(), timer.samplerate()),
            final(self)@.wf(),
    {
        if self.note == note {
            self.envelope.release(timer);
        }
    }

    /// One sample on: moves the modulation clock if the voice sounds.
    pub fn tick(&mut self, timer: &SampleTimer)
        requires
            old(self)@.wf(),
            old(self)@.lfo_timer.sample + 1 < NEVER,
        ensures
            final(self)@ == old(self)@.tick(timer.sample(), timer.samplerate()),
            final(self)@.wf(),
    {
        let level: u32 = self.envelope.get(timer);
        if level > 0 {
            self.lfo_timer.inc(1);
        }
    }

    /// What the voice's waveform is to be scaled by now: nothing once the
    /// envelope has run out.
    pub fn gain(&self, timer: &SampleTimer) -> (gain: u32)
        requires
            self@.wf(),
        ensures
            gain == self@.gain(timer.sample(), timer.samplerate()),
            gain <= self.level,
    {
        let level: u32 = self.envelope.get(timer);
        proof {
            lemma_gain_bounds(self@, timer.sample(), timer.samplerate());
            assert(0 <= level * self.level <= 1_000_000 * 0xffff_ffff) by (nonlinear_arith)
                requires
                    0 <= level <= 1_000_000,
                    0 <= self.level <= 0xffff_ffff,
            ;
        }
        ((level as u64) * (self.level as u64) / (ONE as u64)) as u32
    }
}

/// Whether all voices play one note together or each its own.
#[derive(Clone, Copy, Debug, PartialEq, Eq)]
pub enum UnisonMode {
    Unison,
    Poly,
}

/// The lower-case form of a string.
pub uninterp spec fn lowercase_of(s: Seq<char>) -> Seq<char>;

/// `str::to_lowercase`. Trusted: that the result depends on the string alone;
/// what it is is given a name, [`lowercase_of`], and nothing else is said of
/// it.
#[verifier::external_body]
fn to_lowercase(s: &str) -> (lower: String)
    ensures
        lower@ == lowercase_of(s@),
{
    s.to_lowercase()
}

/// The mode that a word in lower case names: `u` or `unison`, and `p`, `poly`
/// or `polyphonic`.
pub open spec fn spec_unison_mode(word: Seq<char>) -> Option<UnisonMode> {
    if word == "u"@ || word == "unison"@ {
        Some(UnisonMode::Unison)
    } else if word == "p"@ || word == "poly"@ || word == "polyphonic"@ {
        Some(UnisonMode::Poly)
    } else {
        None
    }
}

/// Whether `word` is the word `name`.
fn is_word(word: &String, name: &str) -> (same: bool)
    ensures
        same == (word@ == name@),
{
    let other: String = name.to_owned();
    *word == other
}

impl UnisonMode {
    /// The mode that `word` names, as it stands: only lower case is known.
    pub fn from_lowercase(word: &String) -> (mode: Option<UnisonMode>)
        ensures
            mode == spec_unison_mode(word@),
    {
        if is_word(word, "u") || is_word(word, "unison") {
            Some(UnisonMode::Unison)
        } else if is_word(word, "p") || is_word(word, "poly") || is_word(word, "polyphonic") {
            Some(UnisonMode::Poly)
        } else {
            None
        }
    }

    /// The mode that `s` names, in whatever case it is written.
    pub fn parse(s: &str) -> (mode: Option<UnisonMode>)
        ensures
            mode == spec_unison_mode(lowercase_of(s@)),
    {
        let lower: String = to_lowercase(s);
        UnisonMode::from_lowercase(&lower)
    }
}

} // verus!
