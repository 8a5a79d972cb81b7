use synth::env::{Env, Shape, State};
use synth::fixed::ONE;

const RATE: u32 = 44100;

fn shape(attack: u32, decay: u32, sustain: u32, release: u32, hold: bool) -> Shape {
    Shape { attack, decay, sustain, release, hold }
}

#[test]
fn default_shape_values() {
    let s = Shape::default();
    assert_eq!(s.attack, 10_000);
    assert_eq!(s.decay, 20_000);
    assert_eq!(s.sustain, 13_421_773);
    assert_eq!(s.release, 200_000);
    assert!(s.hold);
}

#[test]
fn new_envelope_starts_silent_in_attack() {
    let e = Env::new(Shape::default());
    assert_eq!(e.state, State::Attack);
    assert_eq!(e.amp, 0);
    assert!(!e.is_finished());
}

#[test]
fn attack_rises_monotonically_to_full_scale() {
    let mut e = Env::new(shape(10_000, 20_000, 13_421_773, 200_000, true));
    let mut last = e.amp;
    let mut steps = 0;
    while e.state == State::Attack {
        let a = e.next(RATE);
        assert!(a >= last);
        assert!(a <= ONE);
        last = a;
        steps += 1;
    }
    assert_eq!(steps, 441);
    assert_eq!(e.amp, ONE);
    assert_eq!(e.state, State::Decay);
}

#[test]
fn attack_step_is_rounded_up() {
    let mut e = Env::new(shape(10_000, 20_000, 0, 0, true));
    // ceil(2^24 * 10^6 / (44100 * 10000)) = 38044
    assert_eq!(e.next(RATE), 38_044);
    assert_eq!(e.next(RATE), 76_088);
}

#[test]
fn zero_attack_jumps_to_full_scale() {
    let mut e = Env::new(shape(0, 20_000, 0, 0, true));
    assert_eq!(e.next(RATE), ONE);
    assert_eq!(e.state, State::Decay);
}

#[test]
fn decay_falls_monotonically_to_sustain() {
    let sustain = 13_421_773;
    let mut e = Env::new(shape(0, 20_000, sustain, 200_000, true));
    e.next(RATE);
    let mut last = e.amp;
    while e.state == State::Decay {
        let a = e.next(RATE);
        assert!(a <= last);
        assert!(a >= sustain);
        last = a;
    }
    assert_eq!(e.state, State::Sustain);
    assert_eq!(e.amp, sustain);
    for _ in 0..1000 {
        assert_eq!(e.next(RATE), sustain);
    }
}

#[test]
fn one_shot_decay_goes_to_release() {
    let mut e = Env::new(shape(0, 1_000, ONE / 2, 10_000, false));
    while e.state == State::Attack || e.state == State::Decay {
        e.next(RATE);
    }
    assert_eq!(e.state, State::Release);
}

#[test]
fn release_decays_and_finishes() {
    let mut e = Env::new(shape(0, 0, ONE, 200_000, true));
    e.next(RATE);
    e.next(RATE);
    assert_eq!(e.state, State::Sustain);
    e.note_off();
    assert_eq!(e.state, State::Release);
    let mut steps = 0u32;
    let mut last = e.amp;
    while !e.is_finished() {
        let a = e.next(RATE);
        assert!(a <= last);
        last = a;
        steps += 1;
    }
    assert_eq!(e.amp, 0);
    // exp(-t / 0.2 s) reaches 0.001 after about 1.38 s
    let secs = steps as f64 / RATE as f64;
    assert!(secs > 1.3 && secs < 1.45, "release took {secs} s");
}

#[test]
fn note_off_at_any_point_finishes() {
    for at in [0u32, 10, 300, 441, 600, 1500, 5000] {
        let mut e = Env::new(shape(10_000, 20_000, 13_421_773, 50_000, true));
        for _ in 0..at {
            e.next(RATE);
        }
        e.note_off();
        let mut steps = 0u64;
        while !e.is_finished() {
            e.next(RATE);
            steps += 1;
            assert!(steps <= ONE as u64 + 1);
        }
    }
}

#[test]
fn note_off_when_finished_stays_finished() {
    let mut e = Env::new(shape(0, 1_000, 0, 0, false));
    while !e.is_finished() {
        e.next(RATE);
    }
    e.note_off();
    assert!(e.is_finished());
    assert_eq!(e.next(RATE), 0);
}

#[test]
fn zero_decay_holds_above_sustain() {
    let mut e = Env::new(shape(0, 0, ONE / 2, 10_000, false));
    for _ in 0..100 {
        assert_eq!(e.next(RATE), ONE);
    }
    assert_eq!(e.state, State::Decay);
}

#[test]
fn release_below_floor_finishes_at_once() {
    let mut e = Env::new(shape(10_000, 20_000, 0, 200_000, true));
    e.note_off();
    assert_eq!(e.next(RATE), 0);
    assert!(e.is_finished());
}

/// The factor one release step applies, read off an envelope held at full
/// scale.
fn release_step_from_full(rate: u32, release: u32) -> u32 {
    let mut e = Env::new(shape(0, 0, ONE, release, true));
    e.next(rate);
    e.next(rate);
    assert_eq!(e.state, State::Sustain);
    e.note_off();
    e.next(rate)
}

#[test]
fn release_step_follows_the_exponential() {
    for rate in [8_000u32, 44_100, 48_000, 96_000] {
        for release in [30u32, 100, 1_000, 10_000, 200_000, 5_000_000] {
            let got = release_step_from_full(rate, release) as f64;
            let exact = ONE as f64 * (-1e6 / (rate as f64 * release as f64)).exp();
            assert!((got - exact).abs() <= 2.0, "rate {rate} release {release}: {got} vs {exact}");
        }
    }
}

#[test]
fn release_shorter_than_a_sample_still_decays_smoothly() {
    let sustain = 13_421_773;
    let mut e = Env::new(shape(0, 1, sustain, 10, true));
    e.next(RATE);
    assert_eq!(e.next(RATE), sustain);
    e.note_off();
    let a = e.next(RATE);
    assert_eq!(e.state, State::Release);
    // 0.8 · e^(-1e6 / 441000) ≈ 0.0830
    let expected = sustain as f64 * (-1e6f64 / 441_000.0).exp();
    assert!((a as f64 - expected).abs() <= 2.0, "{a} vs {expected}");
    e.next(RATE);
    assert_eq!(e.state, State::Release);
    e.next(RATE);
    assert!(e.is_finished());
}

#[test]
fn very_long_release_still_moves() {
    let a = release_step_from_full(44_100, u32::MAX);
    assert_eq!(a, ONE - 1);
}
