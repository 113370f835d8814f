use polysynth::pool::VoicePool;
use polysynth::maths::ONE;
use polysynth::synthesis::{Envelope, EnvelopeState, Voice, INITIAL_NOTE};
use polysynth::util::SampleTimer;

const MS: u64 = 1_000_000;

fn clock(sample: u64) -> SampleTimer {
    let mut timer = SampleTimer::new(1000);
    timer.inc(sample);
    timer
}

fn voice() -> Voice {
    Voice::new(Envelope::new(100 * MS, 200 * MS, 600_000, 1000 * MS), 1000)
}

#[test]
fn new_voice_is_silent_on_the_initial_note() {
    let voice = voice();
    assert_eq!(voice.note, INITIAL_NOTE);
    assert_eq!(voice.note, 12);
    assert_eq!(voice.level, 0);
    assert_eq!(voice.envelope.state(), EnvelopeState::Off);
    assert_eq!(voice.lfo_timer, SampleTimer::new(1000));
    assert_eq!(voice.gain(&clock(500)), 0);
}

#[test]
fn trigger_takes_note_and_level_and_restarts_the_modulation() {
    let mut voice = voice();
    voice.lfo_timer.inc(77);
    voice.trigger(69, 800_000, &clock(40));
    assert_eq!(voice.note, 69);
    assert_eq!(voice.level, 800_000);
    assert_eq!(voice.envelope.state(), EnvelopeState::Held(0, 40));
    assert_eq!(voice.lfo_timer.sample(), 0);
    assert_eq!(voice.lfo_timer.samplerate(), 1000);
}

#[test]
fn gain_is_envelope_level_times_strike_level() {
    let mut voice = voice();
    voice.trigger(69, 800_000, &clock(0));
    assert_eq!(voice.gain(&clock(0)), 0);
    assert_eq!(voice.gain(&clock(50)), 400_000);
    assert_eq!(voice.gain(&clock(100)), 800_000);
    assert_eq!(voice.gain(&clock(300)), 480_000);
    voice.level = 3;
    assert_eq!(voice.gain(&clock(300)), 1);
    voice.level = u32::MAX;
    assert_eq!(voice.gain(&clock(100)), u32::MAX);
}

#[test]
fn let_go_releases_only_the_voice_of_that_note() {
    let mut voice = voice();
    voice.trigger(69, ONE, &clock(0));
    voice.let_go(70, &clock(300));
    assert_eq!(voice.envelope.state(), EnvelopeState::Held(0, 0));
    voice.let_go(69, &clock(300));
    assert_eq!(voice.envelope.state(), EnvelopeState::Released(600_000, 300));
    assert_eq!(voice.note, 69);
    assert_eq!(voice.level, ONE);
}

#[test]
fn modulation_clock_runs_only_while_the_voice_sounds() {
    let mut voice = voice();
    voice.tick(&clock(0));
    assert_eq!(voice.lfo_timer.sample(), 0);
    voice.trigger(69, ONE, &clock(0));
    voice.tick(&clock(0));
    assert_eq!(voice.lfo_timer.sample(), 0);
    voice.tick(&clock(1));
    voice.tick(&clock(2));
    assert_eq!(voice.lfo_timer.sample(), 2);
    voice.let_go(69, &clock(3));
    voice.tick(&clock(1002));
    assert_eq!(voice.lfo_timer.sample(), 3);
    voice.tick(&clock(1003));
    assert_eq!(voice.lfo_timer.sample(), 3);
}

#[test]
fn pool_tick_moves_every_sounding_voice() {
    let mut pool = VoicePool::new(3, Envelope::new(100 * MS, 200 * MS, 600_000, 1000 * MS), 1000);
    pool.note_on(60, ONE, &clock(0));
    pool.note_on(62, ONE, &clock(5));
    pool.tick(&clock(5));
    pool.tick(&clock(6));
    let clocks: Vec<u64> = (0..3).map(|i| pool.voice(i).unwrap().lfo_timer.sample()).collect();
    assert_eq!(clocks, vec![2, 1, 0]);
    assert_eq!(pool.cursor(), 2);
    assert_eq!(pool.len(), 3);
}
