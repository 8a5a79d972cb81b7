use synth::fixed::{scale, ONE};
use synth::osc::{Osc, Waveform};
use synth::Hz;

const RATE: u32 = 44100;
const ONE_I: i32 = ONE as i32;

#[test]
fn scale_rounds_toward_zero() {
    assert_eq!(scale(ONE as i64, ONE / 2), (ONE / 2) as i64);
    assert_eq!(scale(-(ONE as i64), ONE / 2), -((ONE / 2) as i64));
    assert_eq!(scale(3, ONE / 2), 1);
    assert_eq!(scale(-3, ONE / 2), -1);
    assert_eq!(scale(1000, 0), 0);
}

#[test]
fn pitch_standard_values() {
    assert_eq!(Hz::from_pitch_std(0), Hz(440_000));
    assert_eq!(Hz::from_pitch_std(12), Hz(880_000));
    assert_eq!(Hz::from_pitch_std(-12), Hz(220_000));
    assert_eq!(Hz::from_pitch_std(-9), Hz(261_625));
    assert_eq!(Hz::from_pitch_std(3), Hz(523_251));
    for s in -48..=48 {
        let exact = 440_000.0 * 2f64.powf(s as f64 / 12.0);
        let got = Hz::from_pitch_std(s).0 as f64;
        assert!((got - exact).abs() / exact < 1e-4, "semitone {s}: {got} vs {exact}");
    }
}

#[test]
fn waveform_values_at_key_phases() {
    let quarter = 1u32 << 30;
    let half = 1u32 << 31;
    assert_eq!(Waveform::Sine.value(0, 0), 0);
    assert_eq!(Waveform::Sine.value(quarter, 0), ONE_I);
    assert_eq!(Waveform::Sine.value(half, 0), 0);
    assert_eq!(Waveform::Sine.value(half + quarter, 0), -ONE_I);
    assert_eq!(Waveform::Square.value(0, 0), ONE_I);
    assert_eq!(Waveform::Square.value(half, 0), -ONE_I);
    assert_eq!(Waveform::Triangle.value(0, 0), -ONE_I);
    assert_eq!(Waveform::Triangle.value(half, 0), ONE_I);
    assert_eq!(Waveform::Triangle.value(quarter, 0), 0);
    assert_eq!(Waveform::Saw.value(0, 0), -ONE_I);
    assert_eq!(Waveform::Saw.value(half, 0), 0);
    assert_eq!(Waveform::Noise.value(12345, -77), -77);
}

#[test]
fn sine_tracks_the_true_sine() {
    let mut p: u64 = 0;
    while p < (1u64 << 32) {
        let got = Waveform::Sine.value(p as u32, 0) as f64 / ONE as f64;
        let exact = (p as f64 / 4294967296.0 * std::f64::consts::TAU).sin();
        assert!((got - exact).abs() < 0.002, "phase {p}: {got} vs {exact}");
        p += 9_999_991;
    }
}

#[test]
fn waveforms_stay_in_range() {
    let ws = [Waveform::Sine, Waveform::Square, Waveform::Triangle, Waveform::Saw];
    let mut p: u64 = 0;
    while p < (1u64 << 32) {
        for w in ws {
            let v = w.value(p as u32, 0);
            assert!((-ONE_I..=ONE_I).contains(&v));
        }
        p += 1_234_567;
    }
    assert_eq!(Waveform::Triangle.value(u32::MAX, 0), -ONE_I + 1);
    assert!(Waveform::Saw.value(u32::MAX, 0) < ONE_I);
}

#[test]
fn default_waveform_is_sine() {
    assert_eq!(Waveform::default(), Waveform::Sine);
}

#[test]
fn oscillator_increment_from_frequency() {
    let o = Osc::new(Waveform::Sine, Hz(440_000), RATE, ONE);
    // 440 / 44100 of a cycle, in units of 2^-32 cycle
    assert_eq!(o.base_increment, 42_852_281);
    assert_eq!(o.increment, 42_852_281);
    assert_eq!(o.phase, 0);
    let fast = Osc::new(Waveform::Saw, Hz(88_200_000), RATE, ONE);
    assert_eq!(fast.base_increment, 2 * (1u64 << 32));
    assert_eq!(fast.increment, 0);
}

#[test]
fn phase_advances_modulo_one_cycle() {
    let mut o = Osc::new(Waveform::Sine, Hz(15_000_000), RATE, ONE);
    let inc = o.increment as u64;
    for n in 1..=10_000u64 {
        o.next();
        assert_eq!(o.phase as u64, (n * inc) % (1u64 << 32));
    }
}

#[test]
fn oscillator_output_is_scaled_by_gain() {
    let mut o = Osc::new(Waveform::Square, Hz(440_000), RATE, ONE / 4);
    assert_eq!(o.next(), (ONE / 4) as i64);
    let mut s = Osc::new(Waveform::Saw, Hz(440_000), RATE, ONE / 2);
    assert_eq!(s.next(), -((ONE / 2) as i64));
}

#[test]
fn mod_freq_scales_increment() {
    let mut o = Osc::new(Waveform::Sine, Hz(440_000), RATE, ONE);
    o.mod_freq((ONE / 2) as i64);
    assert_eq!(o.increment, 42_852_281 + 21_426_140);
    o.mod_freq(0);
    assert_eq!(o.increment, 42_852_281);
    o.mod_freq(-(ONE as i64));
    assert_eq!(o.increment, 0);
    o.mod_freq(-2 * ONE as i64);
    assert_eq!(o.increment, (4294967296u64 - 42_852_281) as u32);
    assert_eq!(o.base_increment, 42_852_281);
}

#[test]
fn noise_stays_within_gain_and_varies() {
    let gain = ONE / 2;
    let mut o = Osc::new(Waveform::Noise, Hz(440_000), RATE, gain);
    let mut seen = std::collections::BTreeSet::new();
    for _ in 0..1000 {
        let v = o.next();
        assert!(v.abs() <= gain as i64);
        seen.insert(v);
    }
    assert!(seen.len() > 100);
    assert!(seen.iter().any(|v| *v < 0) && seen.iter().any(|v| *v > 0));
}
