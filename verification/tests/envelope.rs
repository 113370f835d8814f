use polysynth::maths::{lerp, ONE};
use polysynth::synthesis::{Envelope, EnvelopeState};
use polysynth::util::{SampleTimer, NEVER};

const MS: u64 = 1_000_000;

fn timer_at(sample: u64) -> SampleTimer {
    let mut timer = SampleTimer::new(1000);
    timer.inc(sample);
    timer
}

#[test]
fn lerp_ends_and_middle() {
    assert_eq!(lerp(200_000, 800_000, 0), 200_000);
    assert_eq!(lerp(200_000, 800_000, ONE), 800_000);
    assert_eq!(lerp(200_000, 800_000, 500_000), 500_000);
    assert_eq!(lerp(800_000, 0, 250_000), 600_000);
    assert_eq!(lerp(0, 3, 500_000), 1);
    assert_eq!(lerp(10, 20, 2 * ONE), 20);
}

#[test]
fn timer_counts_samples() {
    let mut timer = SampleTimer::new(44100);
    assert_eq!(timer.sample(), 0);
    assert_eq!(timer.samplerate(), 44100);
    timer.inc(10);
    timer.inc(5);
    assert_eq!(timer.sample(), 15);
    assert_eq!(timer.time_since(5), 10);
    assert_eq!(timer.time_since(20), 0);
    assert_eq!(timer.time_since(NEVER), NEVER);
    timer.reset();
    assert_eq!(timer.sample(), 0);
    assert_eq!(timer.samplerate(), 44100);
}

#[test]
fn progress_of_a_duration() {
    // 1000 samples per second: one sample is one millisecond.
    let timer = timer_at(150);
    assert_eq!(timer.progress(100, 0, 100 * MS), 500_000);
    assert_eq!(timer.progress(100, 0, 50 * MS), ONE);
    assert_eq!(timer.progress(100, 0, 40 * MS), ONE);
    assert_eq!(timer.progress(100, 50 * MS, 100 * MS), 0);
    assert_eq!(timer.progress(100, 25 * MS, 100 * MS), 250_000);
    assert_eq!(timer.progress(150, 0, 100 * MS), 0);
    assert_eq!(timer.progress(NEVER, 0, 100 * MS), ONE);
    assert_eq!(timer.progress(100, 0, 150 * MS), 333_333);
}

#[test]
fn envelope_starts_silent() {
    let envelope = Envelope::new(50 * MS, 50 * MS, 900_000, 1000 * MS);
    assert_eq!(envelope.state(), EnvelopeState::Off);
    assert_eq!(envelope.get(&timer_at(0)), 0);
    assert_eq!(envelope.get(&timer_at(12345)), 0);
}

#[test]
fn envelope_attack_decay_sustain() {
    let mut envelope = Envelope::new(100 * MS, 200 * MS, 600_000, 1000 * MS);
    envelope.hold(&timer_at(10));
    assert_eq!(envelope.state(), EnvelopeState::Held(0, 10));
    assert_eq!(envelope.get(&timer_at(10)), 0);
    assert_eq!(envelope.get(&timer_at(35)), 250_000);
    assert_eq!(envelope.get(&timer_at(60)), 500_000);
    assert_eq!(envelope.get(&timer_at(110)), ONE);
    assert_eq!(envelope.get(&timer_at(210)), 800_000);
    assert_eq!(envelope.get(&timer_at(310)), 600_000);
    assert_eq!(envelope.get(&timer_at(100_000)), 600_000);
}

#[test]
fn envelope_release_reaches_zero() {
    let mut envelope = Envelope::new(100 * MS, 200 * MS, 600_000, 1000 * MS);
    envelope.hold(&timer_at(0));
    envelope.release(&timer_at(300));
    assert_eq!(envelope.state(), EnvelopeState::Released(600_000, 300));
    assert_eq!(envelope.get(&timer_at(300)), 600_000);
    assert_eq!(envelope.get(&timer_at(800)), 300_000);
    assert_eq!(envelope.get(&timer_at(1299)), 600);
    assert_eq!(envelope.get(&timer_at(1300)), 0);
    assert_eq!(envelope.get(&timer_at(1301)), 0);
    assert_eq!(envelope.get(&timer_at(1_000_000)), 0);
}

#[test]
fn hold_twice_at_one_sample_changes_nothing() {
    let mut envelope = Envelope::new(100 * MS, 200 * MS, 600_000, 1000 * MS);
    envelope.hold(&timer_at(0));
    let now = timer_at(37);
    let before = envelope.get(&now);
    envelope.hold(&now);
    let once = envelope;
    assert_eq!(envelope.get(&now), before);
    envelope.hold(&now);
    assert_eq!(envelope, once);
    assert_eq!(envelope.get(&now), before);
    assert_eq!(before, 370_000);
}

#[test]
fn retrigger_rises_from_the_sounding_level() {
    let mut envelope = Envelope::new(100 * MS, 200 * MS, 600_000, 1000 * MS);
    envelope.hold(&timer_at(0));
    envelope.release(&timer_at(300));
    envelope.hold(&timer_at(800));
    assert_eq!(envelope.state(), EnvelopeState::Held(300_000, 800));
    assert_eq!(envelope.get(&timer_at(800)), 300_000);
    assert_eq!(envelope.get(&timer_at(850)), 650_000);
    assert_eq!(envelope.get(&timer_at(900)), ONE);
}

#[test]
fn envelope_is_monotonic_in_each_phase() {
    let mut envelope = Envelope::new(100 * MS, 200 * MS, 600_000, 300 * MS);
    envelope.hold(&timer_at(0));
    let mut last = envelope.get(&timer_at(0));
    for sample in 1..=100u64 {
        let level = envelope.get(&timer_at(sample));
        assert!(level >= last);
        last = level;
    }
    for sample in 101..=400u64 {
        let level = envelope.get(&timer_at(sample));
        assert!(level <= last);
        last = level;
    }
    envelope.release(&timer_at(400));
    for sample in 400..=800u64 {
        let level = envelope.get(&timer_at(sample));
        assert!(level <= last);
        last = level;
    }
    assert_eq!(last, 0);
}

#[test]
fn bypass_and_disable() {
    let mut envelope = Envelope::new(100 * MS, 200 * MS, 600_000, 300 * MS);
    envelope.bypass();
    assert_eq!(envelope.state(), EnvelopeState::Bypass);
    assert_eq!(envelope.get(&timer_at(0)), ONE);
    assert_eq!(envelope.get(&timer_at(999_999)), ONE);
    envelope.disable();
    assert_eq!(envelope.state(), EnvelopeState::Off);
    assert_eq!(envelope.get(&timer_at(5)), 0);
}

#[test]
fn zero_durations_count_as_one_nanosecond() {
    let mut envelope = Envelope::new(0, 0, 500_000, 0);
    envelope.hold(&timer_at(0));
    assert_eq!(envelope.get(&timer_at(0)), 0);
    assert_eq!(envelope.get(&timer_at(1)), 500_000);
    envelope.release(&timer_at(1));
    assert_eq!(envelope.get(&timer_at(1)), 500_000);
    assert_eq!(envelope.get(&timer_at(2)), 0);
}

#[test]
fn clock_without_a_rate_runs_out_at_once() {
    let timer = SampleTimer::new(0);
    let mut envelope = Envelope::new(100 * MS, 200 * MS, 600_000, 300 * MS);
    envelope.hold(&timer);
    assert_eq!(envelope.get(&timer), 0);
    let mut later = SampleTimer::new(0);
    later.inc(1);
    assert_eq!(envelope.get(&later), 600_000);
}
