//! The render loop's bookkeeping, and the way that messages take from the
//! MIDI thread to the audio thread.

use crate::maths::ONE;
use crate::opts::{spec_voice_count, voice_count, Settings};
use crate::oscillator::{lemma_phase_bounds, phase, spec_phase};
use crate::pool::{lemma_note_off_wf, lemma_note_on_wf, PoolView, VoicePool};
use crate::synthesis::{lemma_gain_bounds, Envelope, EnvelopeState, EnvelopeView};
use crate::util::{SampleTimer, TimerView, NEVER};
use crate::vec2::{spec_add, spec_scale, Vec2};
use std::sync::mpsc::{Receiver, Sender};
use vstd::prelude::*;

verus! {

/// What the input side tells the engine.
#[derive(Clone, Copy, Debug, PartialEq, Eq)]
pub enum Message {
    /// Note, and velocity as a fraction of [`crate::maths::ONE`].
    NoteOn(u8, u32),
    NoteOff(u8),
}

/// What one sounding voice adds to a frame of output.
#[derive(Clone, Copy, Debug, PartialEq, Eq)]
pub struct Tone {
    /// MIDI note number: it gives the oscillator its frequency.
    pub note: u8,
    /// What the waveform is scaled by, as a fraction of [`ONE`].
    pub gain: u32,
    /// Phase of the voice's modulation, as a fraction of [`ONE`].
    pub lfo_phase: u32,
}

/// The pool of voices and the clock they are played by.
#[derive(Debug, PartialEq, Eq)]
pub struct Engine {
    pool: VoicePool,
    timer: SampleTimer,
    mod_rate: u32,
}

/// What an [`Engine`] holds, for contracts.
pub struct EngineView {
    pub pool: PoolView,
    pub timer: TimerView,
    pub mod_rate: u32,
}

impl EngineView {
    /// No modulation clock is ahead of the engine's own.
    pub open spec fn wf(self) -> bool {
        &&& self.pool.wf()
        &&& self.timer.wf()
        &&& forall|i: int|
            0 <= i < self.pool.voices.len() ==> (#[trigger] self.pool.voices[i]).lfo_timer.sample
                <= self.timer.sample
    }

    /// A silent engine at sample zero.
    pub open spec fn fresh(samplerate: u32, settings: Settings) -> EngineView {
        EngineView {
            pool: PoolView::fresh(
                spec_voice_count(settings.voices) as nat,
                EnvelopeView {
                    state: EnvelopeState::Off,
                    attack: if settings.attack == 0 { 1 } else { settings.attack },
                    decay: if settings.decay == 0 { 1 } else { settings.decay },
                    sustain_level: settings.sustain,
                    release: if settings.release == 0 { 1 } else { settings.release },
                },
                samplerate,
            ),
            timer: TimerView { sample: 0, samplerate },
            mod_rate: settings.mod_rate,
        }
    }

    /// The engine after one message, applied at the engine's clock.
    pub open spec fn apply(self, message: Message) -> EngineView {
        EngineView {
            pool: self.pool.apply(message, self.timer.sample, self.timer.samplerate),
            ..self
        }
    }

    /// The engine after `messages`, applied first to last with the clock
    /// standing still.
    pub open spec fn apply_all(self, messages: Seq<Message>) -> EngineView {
        EngineView {
            pool: self.pool.apply_all(messages, self.timer.sample, self.timer.samplerate),
            ..self
        }
    }

    /// What voice `index` adds to the frame at the engine's clock: nothing
    /// when the pool has no such voice or its envelope has run out.
    pub open spec fn tone(self, index: int) -> Option<Tone> {
        if 0 <= index < self.pool.voices.len() && self.pool.voices[index].sounds(
            self.timer.sample,
            self.timer.samplerate,
        ) {
            let voice = self.pool.voices[index];
            Some(
                Tone {
                    note: voice.note,
                    gain: voice.gain(self.timer.sample, self.timer.samplerate) as u32,
                    lfo_phase: spec_phase(
                        self.mod_rate,
                        voice.lfo_timer.sample,
                        voice.lfo_timer.samplerate,
                    ) as u32,
                },
            )
        } else {
            None
        }
    }

    /// What the first `count` voices add to the frame, in pool order.
    pub open spec fn tones_of(self, count: int) -> Seq<Tone>
        decreases count,
    {
        if count <= 0 {
            Seq::empty()
        } else {
            match self.tone(count - 1) {
                Some(tone) => self.tones_of(count - 1).push(tone),
                None => self.tones_of(count - 1),
            }
        }
    }

    /// What the frame at the engine's clock is mixed from: one tone for each
    /// voice that sounds, in pool order.
    pub open spec fn tones(self) -> Seq<Tone> {
        self.tones_of(self.pool.voices.len() as int)
    }

    /// The engine one sample on.
    pub open spec fn tick(self) -> EngineView {
        EngineView {
            pool: self.pool.tick(self.timer.sample, self.timer.samplerate),
            timer: TimerView { sample: (self.timer.sample + 1) as u64, ..self.timer },
            mod_rate: self.mod_rate,
        }
    }
}

/// A frame has no more tones than the pool has voices.
pub proof fn lemma_tones_bound(engine: EngineView, count: int)
    ensures
        engine.tones_of(count).len() <= if count <= 0 { 0 } else { count },
    decreases count,
{
    if count > 0 {
        lemma_tones_bound(engine, count - 1);
    }
}

/// A message keeps the engine well formed: a voice that is struck starts its
/// modulation clock at zero, and no other clock moves.
pub proof fn lemma_apply_wf(engine: EngineView, message: Message)
    requires
        engine.wf(),
    ensures
        engine.apply(message).wf(),
        engine.apply(message).pool.voices.len() == engine.pool.voices.len(),
{
    let now = engine.timer.sample;
    let rate = engine.timer.samplerate;
    let after = engine.apply(message);
    match message {
        Message::NoteOn(note, level) => {
            lemma_note_on_wf(engine.pool, note, level, now, rate);
            let i = engine.pool.target(note);
            assert forall|j: int| 0 <= j < after.pool.voices.len() implies (
            #[trigger] after.pool.voices[j]).lfo_timer.sample <= after.timer.sample by {
                if j != i {
                    assert(after.pool.voices[j] == engine.pool.voices[j]);
                }
            }
        },
        Message::NoteOff(note) => {
            lemma_note_off_wf(engine.pool, note, now, rate);
            assert forall|j: int| 0 <= j < after.pool.voices.len() implies (
            #[trigger] after.pool.voices[j]).lfo_timer.sample <= after.timer.sample by {
                assert(engine.pool.voices[j].lfo_timer.sample <= engine.timer.sample);
            }
        },
    }
}

impl View for Engine {
    type V = EngineView;

    closed spec fn view(&self) -> EngineView {
        EngineView { pool: self.pool@, timer: self.timer@, mod_rate: self.mod_rate }
    }
}

impl Engine {
    /// A silent engine for output at `samplerate` samples per second.
    pub fn new(samplerate: u32, settings: &Settings) -> (engine: Self)
        requires
            settings.sustain <= ONE,
        ensures
            engine@ == EngineView::fresh(samplerate, *settings),
            engine@.wf(),
    {
        let envelope = Envelope::new(
            settings.attack,
            settings.decay,
            settings.sustain,
            settings.release,
        );
        let pool = VoicePool::new(voice_count(settings.voices), envelope, samplerate);
        Engine { pool, timer: SampleTimer::new(samplerate), mod_rate: settings.mod_rate }
    }

    /// The engine's clock.
    pub fn timer(&self) -> (timer: &SampleTimer)
        ensures
            timer@ == self@.timer,
    {
        &self.timer
    }

    /// The engine's voices.
    pub fn pool(&self) -> (pool: &VoicePool)
        ensures
            pool@ == self@.pool,
    {
        &self.pool
    }

    /// Applies one message at the engine's clock.
    pub fn apply(&mut self, message: Message)
        requires
            old(self)@.wf(),
        ensures
            final(self)@ == old(self)@.apply(message),
            final(self)@.wf(),
    {
        proof {
            lemma_apply_wf(self@, message);
        }
        self.pool.apply(message, &self.timer);
    }

    /// What voice `index` adds to the frame at the engine's clock.
    pub fn tone(&self, index: usize) -> (tone: Option<Tone>)
        requires
            self@.wf(),
        ensures
            tone == self@.tone(index as int),
    {
        match self.pool.voice(index) {
            None => None,
            Some(voice) => {
                proof {
                    assert(self@.pool.voices[index as int].wf());
                    lemma_gain_bounds(voice@, self.timer.sample(), self.timer.samplerate());
                    lemma_phase_bounds(
                        self.mod_rate,
                        voice.lfo_timer.sample(),
                        voice.lfo_timer.samplerate(),
                    );
                }
                if voice.envelope.get(&self.timer) > 0 {
                    Some(
                        Tone {
                            note: voice.note,
                            gain: voice.gain(&self.timer),
                            lfo_phase: phase(self.mod_rate, &voice.lfo_timer),
                        },
                    )
                } else {
                    None
                }
            },
        }
    }

    /// Starts a frame of output: puts into `tones` what the frame is to be
    /// mixed from, in place of what was there, and moves the engine one sample
    /// on. A `tones` with room for every voice is not grown.
    pub fn frame(&mut self, tones: &mut Vec<Tone>)
        requires
            old(self)@.wf(),
            old(self)@.timer.sample + 1 < NEVER,
        ensures
            final(tones)@ == old(self)@.tones(),
            final(tones)@.len() <= old(self)@.pool.voices.len(),
            final(self)@ == old(self)@.tick(),
            final(self)@.wf(),
    {
        proof {
            lemma_tones_bound(self@, self@.pool.voices.len() as int);
        }
        tones.clear();
        let size: usize = self.pool.len();
        let mut i: usize = 0;
        while i < size
            invariant
                i <= size,
                size == self@.pool.voices.len(),
                self@.wf(),
                tones@ == self@.tones_of(i as int),
            decreases size - i,
        {
            match self.tone(i) {
                Some(tone) => {
                    tones.push(tone);
                },
                None => {},
            }
            i = i + 1;
        }
        self.tick();
    }

    /// One sample on: every voice that sounds moves its modulation clock, then
    /// the engine's clock moves.
    pub fn tick(&mut self)
        requires
            old(self)@.wf(),
            old(self)@.timer.sample + 1 < NEVER,
        ensures
            final(self)@ == old(self)@.tick(),
            final(self)@.wf(),
    {
        proof {
            assert forall|i: int| 0 <= i < self@.pool.voices.len() implies (
            #[trigger] self@.pool.voices[i]).lfo_timer.sample + 1 < NEVER by {}
        }
        self.pool.tick(&self.timer);
        self.timer.inc(1);
        proof {
            assert forall|i: int| 0 <= i < self@.pool.voices.len() implies (
            #[trigger] self@.pool.voices[i]).lfo_timer.sample <= self@.timer.sample by {
                assert(old(self)@.pool.voices[i].lfo_timer.sample <= old(self)@.timer.sample);
            }
        }
    }
}

/// The sending end of the channel that carries messages from the input
/// thread to the audio thread.
#[verifier::external_type_specification]
#[verifier::external_body]
#[verifier::reject_recursive_types(T)]
pub struct ExSender<T>(Sender<T>);

/// The receiving end of that channel.
#[verifier::external_type_specification]
#[verifier::external_body]
#[verifier::reject_recursive_types(T)]
pub struct ExReceiver<T>(Receiver<T>);

/// A key going down or up, as it comes off the wire: note and velocity are
/// seven-bit numbers.
#[derive(Clone, Copy, Debug, PartialEq, Eq)]
pub enum NoteEvent {
    /// Note and velocity.
    On(u8, u8),
    /// Note.
    Off(u8),
}

/// What came of a piece of MIDI input.
#[derive(Clone, Copy, Debug, PartialEq, Eq)]
pub enum Delivery {
    /// The bytes are no key going down or up: nothing was sent.
    Ignored,
    /// The message is in the channel.
    Sent,
    /// The receiving end is gone: the message was dropped.
    Disconnected,
}

/// The key event that a MIDI message holds. A status byte of `0x8n` is a note
/// off and one of `0x9n` a note on, on any channel `n`; both are followed by
/// the note and the velocity, each below 128, and bytes after those are not
/// looked at. A note on with velocity zero is a note off.
pub open spec fn note_event(bytes: Seq<u8>) -> Option<NoteEvent> {
    if bytes.len() >= 3 && bytes[1] < 128 && bytes[2] < 128 {
        if 0x80 <= bytes[0] <= 0x8f {
            Some(NoteEvent::Off(bytes[1]))
        } else if 0x90 <= bytes[0] <= 0x9f {
            if bytes[2] == 0 {
                Some(NoteEvent::Off(bytes[1]))
            } else {
                Some(NoteEvent::On(bytes[1], bytes[2]))
            }
        } else {
            None
        }
    } else {
        None
    }
}

/// `wmidi::MidiMessage::try_from` on a byte slice, kept to the two messages
/// the engine plays. Trusted: that wmidi reads a note off and a note on from
/// exactly the bytes that [`note_event`] describes, gives a note on with
/// velocity zero as a note off, and reads everything else as another
/// message or as an error.
#[verifier::external_body]
fn decode(bytes: &[u8]) -> (event: Option<NoteEvent>)
    ensures
        event == note_event(bytes@),
{
    match wmidi::MidiMessage::try_from(bytes) {
        Ok(wmidi::MidiMessage::NoteOn(_, note, velocity)) => Some(
            NoteEvent::On(u8::from(note), u8::from(velocity)),
        ),
        Ok(wmidi::MidiMessage::NoteOff(_, note, _)) => Some(NoteEvent::Off(u8::from(note))),
        _ => None,
    }
}

/// `std::sync::mpsc::Sender::send`, which never blocks. Trusted: nothing but
/// that it returns; whether the message went out depends on the other end.
#[verifier::external_body]
fn send(sender: &Sender<Message>, message: Message) -> (sent: bool) {
    sender.send(message).is_ok()
}

/// `std::sync::mpsc::Receiver::try_recv`, which never blocks. Trusted:
/// nothing but that it returns; what comes out depends on the other end.
#[verifier::external_body]
fn try_recv(receiver: &Receiver<Message>) -> (message: Option<Message>) {
    receiver.try_recv().ok()
}

/// Highest velocity a key can be struck with.
pub const MAX_VELOCITY: u8 = 127;

/// A velocity as a fraction of [`ONE`]: linear, with the highest velocity at
/// one.
pub open spec fn spec_velocity_level(velocity: u8) -> int {
    velocity * ONE / (MAX_VELOCITY as int)
}

/// How hard a key was struck, as a fraction of [`ONE`].
pub fn velocity_level(velocity: u8) -> (level: u32)
    ensures
        level == spec_velocity_level(velocity),
        velocity <= MAX_VELOCITY ==> level <= ONE,
{
    proof {
        let scaled: int = velocity * ONE;
        assert(0 <= scaled <= 255 * 1_000_000 && (velocity <= 127 ==> scaled <= 127 * 1_000_000))
            by (nonlinear_arith)
            requires
                scaled == velocity * ONE,
                ONE == 1_000_000,
                0 <= velocity <= 255,
        ;
        assert(velocity <= 127 ==> scaled / 127 <= 1_000_000);
    }
    ((velocity as u32) * ONE) / (MAX_VELOCITY as u32)
}

/// The message that a key event becomes.
pub open spec fn spec_message(event: NoteEvent) -> Message {
    match event {
        NoteEvent::On(note, velocity) => Message::NoteOn(
            note,
            spec_velocity_level(velocity) as u32,
        ),
        NoteEvent::Off(note) => Message::NoteOff(note),
    }
}

/// Turns a key event into the engine's message.
pub fn message_for(event: NoteEvent) -> (message: Message)
    ensures
        message == spec_message(event),
{
    match event {
        NoteEvent::On(note, velocity) => Message::NoteOn(note, velocity_level(velocity)),
        NoteEvent::Off(note) => Message::NoteOff(note),
    }
}

/// The message for the engine that a piece of MIDI input holds, if any.
pub open spec fn spec_midi_message(bytes: Seq<u8>) -> Option<Message> {
    match note_event(bytes) {
        Some(event) => Some(spec_message(event)),
        None => None,
    }
}

/// Reads one MIDI message. Anything but a note going on or off, and
/// anything that is no MIDI message, gives nothing.
pub fn midi_message(bytes: &[u8]) -> (message: Option<Message>)
    ensures
        message == spec_midi_message(bytes@),
{
    match decode(bytes) {
        Some(event) => Some(message_for(event)),
        None => None,
    }
}

/// Takes one piece of MIDI input, as the MIDI thread hands it over, and sends
/// the message it holds on to the audio thread. Input that is no key going
/// down or up is ignored. Sending never blocks. The time stamp is not used:
/// a message takes effect when the audio thread next looks.
pub fn handle_midi_input(_timestamp: u64, message: &[u8], sender: &mut Sender<Message>) -> (outcome:
    Delivery)
    ensures
        outcome == Delivery::Ignored <==> spec_midi_message(message@) is None,
{
    match midi_message(message) {
        None => Delivery::Ignored,
        Some(message) => {
            if send(sender, message) {
                Delivery::Sent
            } else {
                Delivery::Disconnected
            }
        },
    }
}

/// What the first `count` voices of a frame add up to: the point that each
/// voice's waveform stands at, times the voice's gain, one added after the
/// other.
pub open spec fn spec_mix(tones: Seq<Tone>, points: Seq<Vec2>, count: int) -> Vec2
    decreases count,
{
    if count <= 0 {
        (0i64, 0i64)
    } else {
        spec_add(
            spec_mix(tones, points, count - 1),
            spec_scale(points[count - 1], tones[count - 1].gain),
        )
    }
}

/// With no voice sounding the frame has no tones, and what is mixed from it
/// is silence, whatever the master gain.
pub proof fn lemma_silent_frame(engine: EngineView, points: Seq<Vec2>, master_gain: u32)
    requires
        forall|i: int|
            0 <= i < engine.pool.voices.len() ==> !(#[trigger] engine.pool.voices[i]).sounds(
                engine.timer.sample,
                engine.timer.samplerate,
            ),
    ensures
        engine.tones() == Seq::<Tone>::empty(),
        spec_scale(spec_mix(engine.tones(), points, 0), master_gain) == (0i64, 0i64),
{
    lemma_no_tones(engine, engine.pool.voices.len() as int);
    assert(0int * master_gain == 0);
    assert(crate::vec2::toward_zero(0) == 0);
}

/// The voices up to `count` add no tone to the frame where none of them
/// sounds.
proof fn lemma_no_tones(engine: EngineView, count: int)
    requires
        count <= engine.pool.voices.len(),
        forall|i: int|
            0 <= i < engine.pool.voices.len() ==> !(#[trigger] engine.pool.voices[i]).sounds(
                engine.timer.sample,
                engine.timer.samplerate,
            ),
    ensures
        engine.tones_of(count) == Seq::<Tone>::empty(),
    decreases count,
{
    if count > 0 {
        lemma_no_tones(engine, count - 1);
        assert(!engine.pool.voices[count - 1].sounds(engine.timer.sample, engine.timer.samplerate));
    }
}

/// Mixes one frame of output, left and right in millionths of full scale.
/// `points` holds, voice for voice, where the waveform of each tone stands.
/// Each point is scaled by its tone's gain, the results are summed, and the
/// sum is scaled by `master_gain`, a factor in millionths. A tone without a
/// point, or a point without a tone, is left out. Without tones the frame is
/// silence.
pub fn mix(tones: &Vec<Tone>, points: &Vec<Vec2>, master_gain: u32) -> (frame: Vec2)
    ensures
        frame == spec_scale(
            spec_mix(
                tones@,
                points@,
                if tones@.len() <= points@.len() {
                    tones@.len() as int
                } else {
                    points@.len() as int
                },
            ),
            master_gain,
        ),
{
    let count: usize = if tones.len() <= points.len() { tones.len() } else { points.len() };
    let mut sum: Vec2 = (0, 0);
    let mut i: usize = 0;
    while i < count
        invariant
            i <= count,
            count <= tones@.len(),
            count <= points@.len(),
            sum == spec_mix(tones@, points@, i as int),
        decreases count - i,
    {
        sum = crate::vec2::add(sum, crate::vec2::scale(points[i], tones[i].gain));
        i = i + 1;
    }
    crate::vec2::scale(sum, master_gain)
}

impl Engine {
    /// Takes the messages that wait in the channel and applies them in the
    /// order they came out, until the channel has none left or `limit` have
    /// been applied. Never blocks. Returns how many were applied.
    pub fn pump(&mut self, receiver: &Receiver<Message>, limit: usize) -> (applied: usize)
        requires
            old(self)@.wf(),
        ensures
            applied <= limit,
            exists|messages: Seq<Message>|
                messages.len() == applied && final(self)@ == old(self)@.apply_all(messages),
            final(self)@.wf(),
    {
        let mut applied: usize = 0;
        let ghost mut messages: Seq<Message> = Seq::empty();
        while applied < limit
            invariant
                applied <= limit,
                messages.len() == applied,
                self@ == old(self)@.apply_all(messages),
                self@.wf(),
            decreases limit - applied,
        {
            match try_recv(receiver) {
                None => {
                    break ;
                },
                Some(message) => {
                    proof {
                        assert(messages.push(message).drop_last() =~= messages);
                        messages = messages.push(message);
                    }
                    self.apply(message);
                    applied = applied + 1;
                },
            }
        }
        applied
    }
}

} // verus!
