//! The pool of voices: which voice a note takes, and which it is taken from.

use crate::engine::Message;
use crate::opts::MAX_VOICES;
use crate::synthesis::{
    lemma_gain_bounds, lemma_hold_wf, lemma_release_ends, lemma_release_wf, Envelope,
    EnvelopeView, Voice, VoiceView, INITIAL_NOTE,
};
use crate::util::{SampleTimer, TimerView, NANOS_PER_SECOND, NEVER};
use vstd::prelude::*;

verus! {

/// A fixed number of voices and the cursor that says which one the next new
/// note takes.
#[derive(Debug, PartialEq, Eq)]
pub struct VoicePool {
    voices: Vec<Voice>,
    next_voice_idx: usize,
}

/// What a [`VoicePool`] holds, for contracts.
pub struct PoolView {
    pub voices: Seq<VoiceView>,
    pub next: nat,
}

/// Whether `i` is the first voice that has `note`.
pub open spec fn is_first_with(voices: Seq<VoiceView>, note: u8, i: int) -> bool {
    &&& 0 <= i < voices.len()
    &&& voices[i].note == note
    &&& forall|j: int| 0 <= j < i ==> voices[j].note != note
}

/// The first voice that has `note`, where there is one.
pub open spec fn first_with(voices: Seq<VoiceView>, note: u8) -> int {
    choose|i: int| is_first_with(voices, note, i)
}

/// There is only one first voice with a note.
pub proof fn lemma_first_with(voices: Seq<VoiceView>, note: u8, i: int)
    requires
        is_first_with(voices, note, i),
    ensures
        first_with(voices, note) == i,
{
    let k = first_with(voices, note);
    assert(is_first_with(voices, note, k));
    if k < i {
        assert(voices[k].note != note);
    }
    if i < k {
        assert(voices[i].note != note);
    }
}

impl PoolView {
    /// The size is one the pool can be made with, the cursor is on a voice,
    /// and every voice is well formed.
    pub open spec fn wf(self) -> bool {
        &&& 1 <= self.voices.len() <= MAX_VOICES
        &&& self.next < self.voices.len()
        &&& forall|i: int| 0 <= i < self.voices.len() ==> (#[trigger] self.voices[i]).wf()
    }

    /// A pool of `size` silent voices, none given a note yet.
    pub open spec fn fresh(size: nat, envelope: EnvelopeView, samplerate: u32) -> PoolView {
        PoolView {
            voices: Seq::new(
                size,
                |i: int|
                    VoiceView {
                        note: INITIAL_NOTE,
                        level: 0,
                        envelope,
                        lfo_timer: TimerView { sample: 0, samplerate },
                    },
            ),
            next: 0,
        }
    }

    /// Whether some voice has `note`.
    pub open spec fn holds(self, note: u8) -> bool {
        exists|i: int| 0 <= i < self.voices.len() && self.voices[i].note == note
    }

    /// The voice that a key press for `note` goes to: the first that has the
    /// note already, else the one under the cursor, whatever it is doing.
    pub open spec fn target(self, note: u8) -> int {
        if self.holds(note) {
            first_with(self.voices, note)
        } else {
            self.next as int
        }
    }

    /// The cursor after a key press for `note`: it moves on, round the pool,
    /// only when the voice under it was taken.
    pub open spec fn next_after(self, note: u8) -> nat {
        if self.holds(note) {
            self.next
        } else {
            ((self.next as int + 1) % (self.voices.len() as int)) as nat
        }
    }

    /// The pool after a key press: the target voice is struck, no other
    /// voice changes.
    pub open spec fn note_on(self, note: u8, level: u32, now: u64, rate: u32) -> PoolView {
        let i = self.target(note);
        PoolView {
            voices: self.voices.update(i, self.voices[i].trigger(note, level, now, rate)),
            next: self.next_after(note),
        }
    }

    /// Every voice that has `note` is released, the others are left alone.
    pub open spec fn note_off(self, note: u8, now: u64, rate: u32) -> PoolView {
        PoolView {
            voices: Seq::new(self.voices.len(), |i: int| self.voices[i].let_go(note, now, rate)),
            next: self.next,
        }
    }

    /// The pool after one message.
    pub open spec fn apply(self, message: Message, now: u64, rate: u32) -> PoolView {
        match message {
            Message::NoteOn(note, level) => self.note_on(note, level, now, rate),
            Message::NoteOff(note) => self.note_off(note, now, rate),
        }
    }

    /// The pool after `messages`, applied first to last at one sample.
    pub open spec fn apply_all(self, messages: Seq<Message>, now: u64, rate: u32) -> PoolView
        decreases messages.len(),
    {
        if messages.len() == 0 {
            self
        } else {
            self.apply_all(messages.drop_last(), now, rate).apply(messages.last(), now, rate)
        }
    }

    /// The pool one sample on.
    pub open spec fn tick(self, now: u64, rate: u32) -> PoolView {
        PoolView {
            voices: Seq::new(self.voices.len(), |i: int| self.voices[i].tick(now, rate)),
            next: self.next,
        }
    }
}

/// A key press keeps the pool well formed, and its size.
pub proof fn lemma_note_on_wf(pool: PoolView, note: u8, level: u32, now: u64, rate: u32)
    requires
        pool.wf(),
    ensures
        pool.note_on(note, level, now, rate).wf(),
        pool.note_on(note, level, now, rate).voices.len() == pool.voices.len(),
        0 <= pool.target(note) < pool.voices.len(),
{
    if pool.holds(note) {
        let k = choose|i: int| 0 <= i < pool.voices.len() && pool.voices[i].note == note;
        lemma_first_exists(pool.voices, note, k);
    }
    let i = pool.target(note);
    lemma_hold_wf(pool.voices[i].envelope, now, rate);
    let after = pool.note_on(note, level, now, rate);
    assert forall|j: int| 0 <= j < after.voices.len() implies (#[trigger] after.voices[j]).wf() by {
        if j != i {
            assert(after.voices[j] == pool.voices[j]);
        }
    }
}

/// Where some voice up to `bound` has the note, one of them is the first.
pub proof fn lemma_first_exists(voices: Seq<VoiceView>, note: u8, bound: int)
    requires
        0 <= bound < voices.len(),
        voices[bound].note == note,
    ensures
        is_first_with(voices, note, first_with(voices, note)),
        first_with(voices, note) <= bound,
    decreases bound,
{
    if exists|j: int| 0 <= j < bound && voices[j].note == note {
        let j = choose|j: int| 0 <= j < bound && voices[j].note == note;
        lemma_first_exists(voices, note, j);
    } else {
        assert(is_first_with(voices, note, bound));
        lemma_first_with(voices, note, bound);
    }
}

/// A key release keeps the pool well formed, and its size.
pub proof fn lemma_note_off_wf(pool: PoolView, note: u8, now: u64, rate: u32)
    requires
        pool.wf(),
    ensures
        pool.note_off(note, now, rate).wf(),
        pool.note_off(note, now, rate).voices.len() == pool.voices.len(),
{
    let after = pool.note_off(note, now, rate);
    assert forall|j: int| 0 <= j < after.voices.len() implies (#[trigger] after.voices[j]).wf() by {
        assert(pool.voices[j].wf());
        lemma_release_wf(pool.voices[j].envelope, now, rate);
    }
}

/// One key going down: the note, how hard, and the sample at which.
pub struct KeyPress {
    pub note: u8,
    pub level: u32,
    pub now: u64,
}

impl PoolView {
    /// The pool after the key presses `presses`, first to last.
    pub open spec fn press_all(self, presses: Seq<KeyPress>, rate: u32) -> PoolView
        decreases presses.len(),
    {
        if presses.len() == 0 {
            self
        } else {
            let last = presses.last();
            self.press_all(presses.drop_last(), rate).note_on(last.note, last.level, last.now, rate)
        }
    }

    /// Whether the pool has a voice for each note of `presses` but for that
    /// of press number `lost`, for which it has none.
    pub open spec fn holds_all_but(self, presses: Seq<KeyPress>, lost: int) -> bool {
        forall|k: int|
            0 <= k < presses.len() ==> (self.holds((#[trigger] presses[k]).note) <==> k != lost)
    }
}

/// However many keys go down, the pool keeps its size and stays well formed.
pub proof fn lemma_press_all_wf(pool: PoolView, presses: Seq<KeyPress>, rate: u32)
    requires
        pool.wf(),
    ensures
        pool.press_all(presses, rate).wf(),
        pool.press_all(presses, rate).voices.len() == pool.voices.len(),
    decreases presses.len(),
{
    if presses.len() > 0 {
        let last = presses.last();
        lemma_press_all_wf(pool, presses.drop_last(), rate);
        lemma_note_on_wf(
            pool.press_all(presses.drop_last(), rate),
            last.note,
            last.level,
            last.now,
            rate,
        );
    }
}

/// The note that voice `i` has once a fresh pool has taken `count` key
/// presses of different notes, no more than it has voices. The press of the
/// initial note, if there is one, is number `initial`: it lands on a voice
/// that has that note anyway and leaves the cursor where it was, so that the
/// next press takes its place.
pub open spec fn filled_note(presses: Seq<KeyPress>, count: int, initial: int, i: int) -> u8 {
    let taken = if count <= initial { count } else { count - 1 };
    if i >= taken {
        INITIAL_NOTE
    } else if i < initial {
        presses[i].note
    } else {
        presses[i + 1].note
    }
}

/// While a fresh pool has a voice left for each key press, presses of
/// different notes take the voices in order.
pub proof fn lemma_fresh_pool_fills(
    size: nat,
    envelope: EnvelopeView,
    rate: u32,
    presses: Seq<KeyPress>,
    initial: int,
)
    requires
        1 <= size <= MAX_VOICES,
        envelope.wf(),
        presses.len() <= size,
        0 <= initial,
        forall|i: int, j: int|
            0 <= i < j < presses.len() ==> presses[i].note != presses[j].note,
        forall|i: int|
            0 <= i < presses.len() ==> (presses[i].note == INITIAL_NOTE <==> i == initial),
    ensures
        ({
            let pool = PoolView::fresh(size, envelope, rate).press_all(presses, rate);
            let count = presses.len() as int;
            let taken = if count <= initial { count } else { count - 1 };
            &&& pool.wf()
            &&& pool.voices.len() == size
            &&& pool.next == taken % (size as int)
            &&& forall|i: int|
                0 <= i < size ==> (#[trigger] pool.voices[i]).note == filled_note(
                    presses,
                    count,
                    initial,
                    i,
                )
        }),
    decreases presses.len(),
{
    let fresh = PoolView::fresh(size, envelope, rate);
    let count = presses.len() as int;
    if count == 0 {
        assert(fresh.wf());
    } else {
        let before = presses.drop_last();
        let last = presses.last();
        lemma_fresh_pool_fills(size, envelope, rate, before, initial);
        let pool = fresh.press_all(before, rate);
        let done = count - 1;
        let taken = if done <= initial { done } else { done - 1 };
        assert(taken < size);
        vstd::arithmetic::div_mod::lemma_small_mod(taken as nat, size);
        lemma_note_on_wf(pool, last.note, last.level, last.now, rate);
        let after = pool.note_on(last.note, last.level, last.now, rate);
        assert(after == fresh.press_all(presses, rate));
        assert forall|i: int| 0 <= i < size implies (#[trigger] pool.voices[i]).note
            == filled_note(presses, done, initial, i) by {
            assert(pool.voices[i].note == filled_note(before, done, initial, i));
        }
        if done == initial {
            assert(last.note == INITIAL_NOTE);
            assert(pool.voices[done].note == INITIAL_NOTE);
            assert forall|j: int| 0 <= j < done implies pool.voices[j].note != INITIAL_NOTE by {
                assert(pool.voices[j].note == presses[j].note);
            }
            assert(is_first_with(pool.voices, last.note, done));
            lemma_first_with(pool.voices, last.note, done);
            assert(pool.holds(last.note));
            assert(after.next == pool.next);
        } else {
            assert(last.note != INITIAL_NOTE);
            assert forall|j: int| 0 <= j < size implies (#[trigger] pool.voices[j]).note
                != last.note by {
                let held = filled_note(presses, done, initial, j);
                if j < taken {
                    if j < initial {
                        assert(held == presses[j].note);
                    } else {
                        assert(held == presses[j + 1].note);
                    }
                }
            }
            assert(!pool.holds(last.note));
            assert(pool.target(last.note) == taken);
            if taken + 1 < size {
                vstd::arithmetic::div_mod::lemma_small_mod((taken + 1) as nat, size);
            } else {
                vstd::arithmetic::div_mod::lemma_mod_self_0(size as int);
            }
        }
        let now_taken = if count <= initial { count } else { count - 1 };
        if now_taken < size {
            vstd::arithmetic::div_mod::lemma_small_mod(now_taken as nat, size);
        } else {
            vstd::arithmetic::div_mod::lemma_mod_self_0(size as int);
        }
        assert forall|i: int| 0 <= i < size implies (#[trigger] after.voices[i]).note
            == filled_note(presses, count, initial, i) by {
            assert(pool.voices[i].note == filled_note(presses, done, initial, i));
        }
    }
}

/// A fresh pool of `size` voices that takes key presses for one note more
/// than it has voices, all different and none let go, steals exactly once:
/// at the end one and only one of the notes is no longer held, and it is one
/// of those that came before the last. The pool is as large as it was.
pub proof fn lemma_one_voice_stolen(
    size: nat,
    envelope: EnvelopeView,
    rate: u32,
    presses: Seq<KeyPress>,
)
    requires
        1 <= size <= MAX_VOICES,
        envelope.wf(),
        presses.len() == size + 1,
        forall|i: int, j: int|
            0 <= i < j < presses.len() ==> presses[i].note != presses[j].note,
    ensures
        ({
            let pool = PoolView::fresh(size, envelope, rate).press_all(presses, rate);
            &&& pool.wf()
            &&& pool.voices.len() == size
            &&& exists|lost: int| 0 <= lost < size && #[trigger] pool.holds_all_but(presses, lost)
        }),
{
    let fresh = PoolView::fresh(size, envelope, rate);
    let before = presses.drop_last();
    let last = presses.last();
    let initial: int = if exists|i: int| 0 <= i < presses.len() && presses[i].note == INITIAL_NOTE {
        choose|i: int| 0 <= i < presses.len() && presses[i].note == INITIAL_NOTE
    } else {
        size as int + 1
    };
    assert forall|i: int| 0 <= i < presses.len() implies (presses[i].note == INITIAL_NOTE <==> i
        == initial) by {
        if presses[i].note == INITIAL_NOTE && i != initial {
            if i < initial {
                assert(presses[i].note != presses[initial].note);
            } else {
                assert(presses[initial].note != presses[i].note);
            }
        }
    }
    assert forall|i: int| 0 <= i < before.len() implies (before[i].note == INITIAL_NOTE <==> i
        == initial) by {
        assert(before[i] == presses[i]);
    }
    lemma_fresh_pool_fills(size, envelope, rate, before, initial);
    let pool = fresh.press_all(before, rate);
    let full = size as int;
    let taken = if full <= initial { full } else { full - 1 };
    assert forall|i: int| 0 <= i < size implies (#[trigger] pool.voices[i]).note == filled_note(
        presses,
        full,
        initial,
        i,
    ) by {
        assert(pool.voices[i].note == filled_note(before, full, initial, i));
    }
    assert forall|j: int| 0 <= j < size implies (#[trigger] pool.voices[j]).note != last.note by {
        if j < taken {
            if j < initial {
                assert(pool.voices[j].note == presses[j].note);
            } else {
                assert(pool.voices[j].note == presses[j + 1].note);
            }
        } else {
            assert(pool.voices[j].note == INITIAL_NOTE);
            assert(initial < full);
        }
    }
    assert(!pool.holds(last.note));
    if taken < size {
        vstd::arithmetic::div_mod::lemma_small_mod(taken as nat, size);
    } else {
        vstd::arithmetic::div_mod::lemma_mod_self_0(full);
    }
    let stolen = pool.target(last.note);
    lemma_note_on_wf(pool, last.note, last.level, last.now, rate);
    let after = pool.note_on(last.note, last.level, last.now, rate);
    assert(after == fresh.press_all(presses, rate));
    let lost: int = if full <= initial { 0 } else { initial };
    assert forall|k: int| 0 <= k < presses.len() implies (after.holds(
        (#[trigger] presses[k]).note,
    ) <==> k != lost) by {
        if k != lost {
            let at: int = if k == full {
                stolen
            } else if full <= initial || k < initial {
                k
            } else {
                k - 1
            };
            assert(after.voices[at].note == presses[k].note);
        } else {
            assert forall|i: int| 0 <= i < size implies (#[trigger] after.voices[i]).note
                != presses[k].note by {
                if i == stolen {
                    assert(after.voices[i].note == presses[full].note);
                } else {
                    assert(after.voices[i] == pool.voices[i]);
                    if i < initial {
                        assert(pool.voices[i].note == presses[i].note);
                    } else {
                        assert(pool.voices[i].note == presses[i + 1].note);
                    }
                }
            }
        }
    }
    assert(after.holds_all_but(presses, lost));
}

/// Messages take effect one after the other: applying a run of messages and
/// then another is applying the two runs joined, and a single message is a
/// run of one. So it makes no difference to the voices how the messages that
/// arrive while the clock stands are split over calls.
pub proof fn lemma_apply_all_in_order(
    pool: PoolView,
    first: Seq<Message>,
    second: Seq<Message>,
    now: u64,
    rate: u32,
)
    ensures
        pool.apply_all(first + second, now, rate) == pool.apply_all(first, now, rate).apply_all(
            second,
            now,
            rate,
        ),
        second.len() == 1 ==> pool.apply_all(first + second, now, rate) == pool.apply_all(
            first,
            now,
            rate,
        ).apply(second[0], now, rate),
    decreases second.len(),
{
    if second.len() == 0 {
        assert(first + second =~= first);
    } else {
        assert((first + second).drop_last() =~= first + second.drop_last());
        lemma_apply_all_in_order(pool, first, second.drop_last(), now, rate);
        if second.len() == 1 {
            assert(second.drop_last() =~= Seq::<Message>::empty());
            assert(first + second.drop_last() =~= first);
        }
    }
}

/// Once a key is let go, a voice that had its note is silent from the moment
/// the release time has gone by: it adds nothing to the output any more.
pub proof fn lemma_released_voice_falls_silent(
    pool: PoolView,
    note: u8,
    now: u64,
    later: u64,
    rate: u32,
    i: int,
)
    requires
        pool.wf(),
        0 <= i < pool.voices.len(),
        pool.voices[i].note == note,
        now < later,
        (later - now) * NANOS_PER_SECOND >= rate * pool.voices[i].envelope.release,
    ensures
        !pool.note_off(note, now, rate).voices[i].sounds(later, rate),
        pool.note_off(note, now, rate).voices[i].gain(later, rate) == 0,
{
    let voice = pool.note_off(note, now, rate).voices[i];
    assert(voice == pool.voices[i].let_go(note, now, rate));
    assert(pool.voices[i].wf());
    lemma_release_wf(pool.voices[i].envelope, now, rate);
    lemma_release_ends(voice.envelope, later, rate);
    lemma_gain_bounds(voice, later, rate);
}

impl View for VoicePool {
    type V = PoolView;

    closed spec fn view(&self) -> PoolView {
        PoolView {
            voices: Seq::new(self.voices@.len(), |i: int| self.voices@[i]@),
            next: self.next_voice_idx as nat,
        }
    }
}

impl VoicePool {
    /// A pool of `size` silent voices that share the shape of `envelope`.
    pub fn new(size: usize, envelope: Envelope, samplerate: u32) -> (pool: Self)
        requires
            1 <= size <= MAX_VOICES,
            envelope@.wf(),
        ensures
            pool@ == PoolView::fresh(size as nat, envelope@, samplerate),
            pool@.wf(),
    {
        let mut voices: Vec<Voice> = Vec::with_capacity(size);
        let mut made: usize = 0;
        while made < size
            invariant
                made <= size,
                voices@.len() == made,
                envelope@.wf(),
                forall|i: int|
                    0 <= i < made ==> (#[trigger] voices@[i])@ == (VoiceView {
                        note: INITIAL_NOTE,
                        level: 0,
                        envelope: envelope@,
                        lfo_timer: TimerView { sample: 0, samplerate },
                    }),
            decreases size - made,
        {
            voices.push(Voice::new(envelope, samplerate));
            made = made + 1;
        }
        let pool = VoicePool { voices, next_voice_idx: 0 };
        proof {
            assert(pool@.voices =~= PoolView::fresh(size as nat, envelope@, samplerate).voices);
        }
        pool
    }

    /// Number of voices: fixed when the pool is made.
    pub fn len(&self) -> (size: usize)
        ensures
            size == self@.voices.len(),
    {
        self.voices.len()
    }

    /// The voice at `index`, if the pool has that many.
    pub fn voice(&self, index: usize) -> (voice: Option<Voice>)
        ensures
            index < self@.voices.len() ==> voice is Some && voice->0@ == self@.voices[index as int],
            index >= self@.voices.len() ==> voice is None,
    {
        if index < self.voices.len() {
            Some(self.voices[index])
        } else {
            None
        }
    }

    /// Index of the voice that the next new note takes.
    pub fn cursor(&self) -> (next: usize)
        ensures
            next == self@.next,
    {
        self.next_voice_idx
    }

    /// The first voice that has `note`.
    pub fn find(&self, note: u8) -> (found: Option<usize>)
        ensures
            found is Some <==> self@.holds(note),
            found is Some ==> found->0 == first_with(self@.voices, note) && is_first_with(
                self@.voices,
                note,
                found->0 as int,
            ),
    {
        let mut i: usize = 0;
        while i < self.voices.len()
            invariant
                i <= self.voices@.len(),
                forall|j: int| 0 <= j < i ==> self@.voices[j].note != note,
            decreases self.voices@.len() - i,
        {
            if self.voices[i].note == note {
                proof {
                    assert(self@.voices[i as int].note == note);
                    assert(is_first_with(self@.voices, note, i as int));
                    lemma_first_with(self@.voices, note, i as int);
                }
                return Some(i);
            }
            i = i + 1;
        }
        None
    }

    /// Key down. A note that some voice has already goes to that voice
    /// again. Any other note takes the voice under the cursor, sounding or
    /// not, and the cursor moves on: the pool never turns a note away.
    pub fn note_on(&mut self, note: u8, level: u32, timer: &SampleTimer)
        requires
            old(self)@.wf(),
        ensures
            final(self)@ == old(self)@.note_on(note, level, timer.sample(), timer.samplerate()),
            final(self)@.wf(),
            final(self)@.voices.len() == old(self)@.voices.len(),
    {
        proof {
            lemma_note_on_wf(self@, note, level, timer.sample(), timer.samplerate());
        }
        let size: usize = self.voices.len();
        let chosen: usize = match self.find(note) {
            Some(index) => index,
            None => {
                let index: usize = self.next_voice_idx;
                self.next_voice_idx = (self.next_voice_idx + 1) % size;
                index
            },
        };
        let mut voice: Voice = self.voices[chosen];
        voice.trigger(note, level, timer);
        self.voices.set(chosen, voice);
        proof {
            assert(self@.voices =~= old(self)@.note_on(
                note,
                level,
                timer.sample(),
                timer.samplerate(),
            ).voices);
        }
    }

    /// Key up: releases every voice that has `note`.
    pub fn note_off(&mut self, note: u8, timer: &SampleTimer)
        requires
            old(self)@.wf(),
        ensures
            final(self)@ == old(self)@.note_off(note, timer.sample(), timer.samplerate()),
            final(self)@.wf(),
            final(self)@.voices.len() == old(self)@.voices.len(),
    {
        proof {
            lemma_note_off_wf(self@, note, timer.sample(), timer.samplerate());
        }
        let size: usize = self.voices.len();
        let mut i: usize = 0;
        while i < size
            invariant
                i <= size,
                size == self.voices@.len(),
                self.voices@.len() == old(self).voices@.len(),
                self.next_voice_idx == old(self).next_voice_idx,
                old(self)@.wf(),
                forall|j: int|
                    0 <= j < i ==> (#[trigger] self.voices@[j])@ == old(self)@.voices[j].let_go(
                        note,
                        timer.sample(),
                        timer.samplerate(),
                    ),
                forall|j: int| i <= j < size ==> self.voices@[j] == old(self).voices@[j],
            decreases size - i,
        {
            let mut voice: Voice = self.voices[i];
            proof {
                assert(old(self)@.voices[i as int].wf());
            }
            voice.let_go(note, timer);
            self.voices.set(i, voice);
            i = i + 1;
        }
        proof {
            assert(self@.voices =~= old(self)@.note_off(
                note,
                timer.sample(),
                timer.samplerate(),
            ).voices);
        }
    }

    /// One sample on: moves the modulation clock of every voice that sounds.
    pub fn tick(&mut self, timer: &SampleTimer)
        requires
            old(self)@.wf(),
            forall|i: int|
                0 <= i < old(self)@.voices.len() ==> (#[trigger] old(
                    self,
                )@.voices[i]).lfo_timer.sample + 1 < NEVER,
        ensures
            final(self)@ == old(self)@.tick(timer.sample(), timer.samplerate()),
            final(self)@.wf(),
            final(self)@.voices.len() == old(self)@.voices.len(),
    {
        let size: usize = self.voices.len();
        let mut i: usize = 0;
        while i < size
            invariant
                i <= size,
                size == self.voices@.len(),
                self.voices@.len() == old(self).voices@.len(),
                self.next_voice_idx == old(self).next_voice_idx,
                old(self)@.wf(),
                forall|j: int|
                    0 <= j < old(self)@.voices.len() ==> (#[trigger] old(
                        self,
                    )@.voices[j]).lfo_timer.sample + 1 < NEVER,
                forall|j: int|
                    0 <= j < i ==> (#[trigger] self.voices@[j])@ == old(self)@.voices[j].tick(
                        timer.sample(),
                        timer.samplerate(),
                    ),
                forall|j: int| 0 <= j < i ==> (#[trigger] self.voices@[j])@.wf(),
                forall|j: int| i <= j < size ==> self.voices@[j] == old(self).voices@[j],
            decreases size - i,
        {
            let mut voice: Voice = self.voices[i];
            proof {
                assert(old(self)@.voices[i as int].wf());
            }
            voice.tick(timer);
            self.voices.set(i, voice);
            i = i + 1;
        }
        proof {
            assert(self@.voices =~= old(self)@.tick(timer.sample(), timer.samplerate()).voices);
            assert forall|j: int| 0 <= j < self@.voices.len() implies (
            #[trigger] self@.voices[j]).wf() by {
                assert(self.voices@[j]@.wf());
            }
        }
    }

    /// Applies one message.
    pub fn apply(&mut self, message: Message, timer: &SampleTimer)
        requires
            old(self)@.wf(),
        ensures
            final(self)@ == old(self)@.apply(message, timer.sample(), timer.samplerate()),
            final(self)@.wf(),
            final(self)@.voices.len() == old(self)@.voices.len(),
    {
        match message {
            Message::NoteOn(note, level) => self.note_on(note, level, timer),
            Message::NoteOff(note) => self.note_off(note, timer),
        }
    }
}

} // verus!
