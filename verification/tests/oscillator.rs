use polysynth::maths::ONE;
use polysynth::oscillator::{corner_phase, modulate, phase, polygon, polygon_edge, Edge};
use polysynth::util::SampleTimer;
use polysynth::vec2::{add, lerp, scale, Vec2};

fn timer_at(rate: u32, sample: u64) -> SampleTimer {
    let mut timer = SampleTimer::new(rate);
    timer.inc(sample);
    timer
}

#[test]
fn phase_wraps_every_period() {
    // 100 Hz at 1000 samples per second: ten samples to the cycle.
    let freq = 100_000;
    assert_eq!(phase(freq, &timer_at(1000, 0)), 0);
    assert_eq!(phase(freq, &timer_at(1000, 1)), 100_000);
    assert_eq!(phase(freq, &timer_at(1000, 9)), 900_000);
    assert_eq!(phase(freq, &timer_at(1000, 10)), 0);
    assert_eq!(phase(freq, &timer_at(1000, 1_000_000_007)), 700_000);
}

#[test]
fn phase_of_a_period_that_is_not_whole() {
    // 440 Hz at 44100: 100 whole samples to the cycle.
    let freq = 440_000;
    assert_eq!(phase(freq, &timer_at(44100, 50)), 498_866);
    assert_eq!(phase(freq, &timer_at(44100, 99)), 987_755);
    assert_eq!(phase(freq, &timer_at(44100, 100)), 0);
}

#[test]
fn phase_stays_short_of_one() {
    for sample in 0..2000u64 {
        assert!(phase(261_626, &timer_at(44100, sample)) < ONE);
        assert!(phase(7, &timer_at(3, sample)) < ONE);
    }
}

#[test]
fn phase_without_frequency_or_rate_is_zero() {
    assert_eq!(phase(0, &timer_at(44100, 1234)), 0);
    assert_eq!(phase(440_000, &timer_at(0, 1234)), 0);
    // A cycle shorter than a sample counts as one sample long.
    assert_eq!(phase(5_000_000, &timer_at(1000, 1234)), 0);
}

#[test]
fn polygon_edge_of_a_square() {
    let square = 4 * ONE;
    assert_eq!(polygon_edge(square, 0), Edge { corner: 0, progress: 0 });
    assert_eq!(polygon_edge(square, 125_000), Edge { corner: 0, progress: 500_000 });
    assert_eq!(polygon_edge(square, 250_000), Edge { corner: 1, progress: 0 });
    assert_eq!(polygon_edge(square, 600_000), Edge { corner: 2, progress: 400_000 });
    assert_eq!(polygon_edge(square, 999_999), Edge { corner: 3, progress: 999_996 });
}

#[test]
fn polygon_edge_with_a_broken_corner_count() {
    let corners = 3_500_000;
    assert_eq!(polygon_edge(corners, 0), Edge { corner: 0, progress: 0 });
    assert_eq!(polygon_edge(corners, 500_000), Edge { corner: 1, progress: 750_000 });
    assert_eq!(polygon_edge(corners, 999_999), Edge { corner: 3, progress: 499_996 });
    assert_eq!(polygon_edge(0, 500_000), Edge { corner: 0, progress: 0 });
}

#[test]
fn polygon_edge_moves_forward_with_the_phase() {
    let corners = 5 * ONE;
    let mut last = polygon_edge(corners, 0);
    for p in (0..ONE).step_by(997) {
        let edge = polygon_edge(corners, p);
        assert!(edge.progress < ONE);
        assert!(edge.corner < 5);
        assert!((edge.corner, edge.progress) >= (last.corner, last.progress));
        last = edge;
    }
}

#[test]
fn corners_are_evenly_spaced_on_the_circle() {
    let square = 4 * ONE;
    assert_eq!(corner_phase(square, 0), 0);
    assert_eq!(corner_phase(square, 1), 250_000);
    assert_eq!(corner_phase(square, 3), 750_000);
    assert_eq!(corner_phase(square, 4), 0);
    assert_eq!(corner_phase(square, 5), 250_000);
    assert_eq!(corner_phase(3 * ONE, 1), 333_333);
    assert_eq!(corner_phase(3 * ONE, 2), 666_666);
    assert_eq!(corner_phase(3 * ONE, 3), 0);
    assert_eq!(corner_phase(3_500_000, 3), 857_142);
    assert_eq!(corner_phase(3_500_000, 4), 142_857);
    assert_eq!(corner_phase(0, 3), 0);
    assert_eq!(corner_phase(1, u32::MAX), 0);
    assert_eq!(corner_phase(u32::MAX, u32::MAX), 0);
}

#[test]
fn polygon_point_lies_between_its_corners() {
    let top: Vec2 = (0, 1_000_000);
    let right: Vec2 = (1_000_000, 0);
    assert_eq!(polygon(Edge { corner: 0, progress: 0 }, top, right), top);
    assert_eq!(polygon(Edge { corner: 0, progress: 500_000 }, top, right), (500_000, 500_000));
    assert_eq!(polygon(Edge { corner: 0, progress: 250_000 }, top, right), (250_000, 750_000));
    assert_eq!(polygon(Edge { corner: 0, progress: ONE }, top, right), right);
    let left: Vec2 = (-1_000_000, 0);
    assert_eq!(polygon(Edge { corner: 3, progress: 300_000 }, left, top), (-700_000, 300_000));
}

#[test]
fn polygon_at_phase_zero_is_the_first_corner() {
    for corners in [0, 1, 2 * ONE, 3_500_000, 4 * ONE, u32::MAX] {
        let edge = polygon_edge(corners, 0);
        assert_eq!(edge, Edge { corner: 0, progress: 0 });
        assert_eq!(corner_phase(corners, edge.corner), 0);
        assert_eq!(polygon(edge, (0, 1_000_000), (123, -456)), (0, 1_000_000));
    }
}

#[test]
fn polygon_stays_within_the_unit_circle() {
    // The corners of a triangle on the unit circle, rounded towards zero.
    let corners: [Vec2; 4] =
        [(0, 1_000_000), (866_025, -500_000), (-866_025, -500_000), (0, 1_000_000)];
    for p in (0..ONE).step_by(1009) {
        let edge = polygon_edge(3 * ONE, p);
        let k = edge.corner as usize;
        let (x, y) = polygon(edge, corners[k], corners[k + 1]);
        assert!((x as i128) * (x as i128) + (y as i128) * (y as i128) <= 1_000_000_000_000);
    }
}

#[test]
fn modulation_moves_the_corner_count() {
    assert_eq!(modulate(4 * ONE, 0, 500_000), 4 * ONE);
    assert_eq!(modulate(4 * ONE, 1_000_000, 500_000), 4_500_000);
    assert_eq!(modulate(4 * ONE, -1_000_000, 500_000), 3_500_000);
    assert_eq!(modulate(4 * ONE, 500_000, 0), 4 * ONE);
    assert_eq!(modulate(4 * ONE, -333_333, 3 * ONE), 3_000_001);
    assert_eq!(modulate(ONE, -1_000_000, 2 * ONE), 0);
    assert_eq!(modulate(u32::MAX, 1_000_000, ONE), u32::MAX);
    assert_eq!(modulate(5, i64::MAX, u32::MAX), u32::MAX);
    assert_eq!(modulate(5, i64::MIN, u32::MAX), 0);
}

#[test]
fn vec2_lerp_goes_from_the_first_to_the_second() {
    assert_eq!(lerp((10, -10), (20, -30), 0), (10, -10));
    assert_eq!(lerp((10, -10), (20, -30), ONE), (20, -30));
    assert_eq!(lerp((10, -10), (20, -30), 2 * ONE), (20, -30));
    assert_eq!(lerp((10, -10), (20, -30), 500_000), (15, -20));
    assert_eq!(lerp((0, 0), (3, -3), 500_000), (1, -1));
    assert_eq!(lerp((i64::MAX, i64::MIN), (i64::MIN, i64::MAX), 500_000), (0, 0));
    assert_eq!(lerp((i64::MAX, i64::MIN), (i64::MAX, i64::MIN), 123_456), (i64::MAX, i64::MIN));
}

#[test]
fn vec2_add_stops_at_the_ends_of_the_range() {
    assert_eq!(add((1, 2), (30, -40)), (31, -38));
    assert_eq!(add((i64::MAX, i64::MIN), (1, -1)), (i64::MAX, i64::MIN));
    assert_eq!(add((i64::MAX, i64::MIN), (-1, 1)), (i64::MAX - 1, i64::MIN + 1));
}

#[test]
fn vec2_scale_rounds_towards_zero() {
    assert_eq!(scale((1_000_000, -1_000_000), 500_000), (500_000, -500_000));
    assert_eq!(scale((3, -3), 500_000), (1, -1));
    assert_eq!(scale((7, -7), 0), (0, 0));
    assert_eq!(scale((7, -7), ONE), (7, -7));
    assert_eq!(scale((7, -7), 2 * ONE), (14, -14));
    assert_eq!(scale((i64::MAX, i64::MIN), 2 * ONE), (i64::MAX, i64::MIN));
}
