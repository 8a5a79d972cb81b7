use std::sync::mpsc;

use synth::env::State;
use synth::event::Event;
use synth::fixed::ONE;
use synth::osc::Waveform;
use synth::preset::{kick, Instrument};
use synth::sequencer::Sequencer;
use synth::synth::Synth;

const RATE: u32 = 44100;
const A4: u8 = 9;

fn sine_lead() -> Instrument {
    Instrument::builder()
        .osc(Waveform::Sine, ONE)
        .env(10_000, 20_000, 13_421_773, 200_000)
        .build()
}

fn as_float(x: i64) -> f64 {
    x as f64 / ONE as f64
}

fn peak(xs: &[i64]) -> f64 {
    xs.iter().map(|x| as_float(*x).abs()).fold(0.0, f64::max)
}

#[test]
fn sustained_sine_note() {
    let (tx, rx) = mpsc::channel();
    let mut s = Synth::new(rx, vec![sine_lead()], 8, RATE);
    tx.send(Event::NoteOn(0, A4)).unwrap();
    let mut out = vec![0i64; RATE as usize];
    s.process(&mut out);

    // the attack: window peaks grow over the first 441 samples
    let windows: Vec<f64> = out[..441].chunks(49).map(peak).collect();
    for w in windows.windows(2) {
        assert!(w[1] >= w[0], "attack not rising: {windows:?}");
    }
    // about 440 Hz: two zero crossings per cycle
    let crossings = out.windows(2).filter(|w| (w[0] < 0) != (w[1] < 0)).count();
    assert!((878..=882).contains(&crossings), "{crossings} crossings");
    // the peak is full scale times the master gain
    assert!((peak(&out) - 0.2).abs() < 0.01, "peak {}", peak(&out));
    // the end sits at the sustain level
    let v = &s.voices[0];
    assert_eq!(v.env.state, State::Sustain);
    let inc = v.oscs[0].increment as u64;
    let phase = ((RATE as u64 - 1) * inc) % (1u64 << 32);
    let expected = 0.2 * 0.8 * (phase as f64 / 4294967296.0 * std::f64::consts::TAU).sin();
    let last = as_float(out[RATE as usize - 1]);
    assert!((last - expected).abs() < 1e-3, "{last} vs {expected}");
}

#[test]
fn released_note_fades_and_frees_its_voice() {
    let (tx, rx) = mpsc::channel();
    let mut s = Synth::new(rx, vec![sine_lead()], 8, RATE);
    tx.send(Event::NoteOn(0, A4)).unwrap();
    let mut half = vec![0i64; RATE as usize / 2];
    s.process(&mut half);
    tx.send(Event::NoteOff(0, A4)).unwrap();
    let mut fade = vec![0i64; RATE as usize * 12 / 10];
    s.process(&mut fade);
    assert!(s.voices[0].active);
    assert!(peak(&fade[fade.len() - 441..]) < 0.001);
    let mut tail = vec![0i64; RATE as usize * 3 / 10];
    s.process(&mut tail);
    assert!(!s.voices[0].active);
    assert!(tail[tail.len() - 1] == 0);
}

#[test]
fn third_note_steals_the_quieter_voice() {
    let (tx, rx) = mpsc::channel();
    let mut s = Synth::new(rx, vec![sine_lead()], 2, RATE);
    let mut block = vec![0i64; 100];
    tx.send(Event::NoteOn(0, 1)).unwrap();
    s.process(&mut block);
    tx.send(Event::NoteOn(0, 5)).unwrap();
    s.process(&mut block);
    assert_eq!(s.voices.iter().filter(|v| v.active).count(), 2);
    assert!(s.voices[1].env.amp < s.voices[0].env.amp);
    tx.send(Event::NoteOn(0, 8)).unwrap();
    s.process(&mut block);
    assert_eq!(s.voices.iter().filter(|v| v.active).count(), 2);
    assert_eq!(s.voices[0].note, 1);
    assert_eq!(s.voices[1].note, 8);
}

#[test]
fn kick_finishes_and_ignores_note_off() {
    let (tx, rx) = mpsc::channel();
    let mut s = Synth::new(rx, vec![sine_lead(), kick()], 4, RATE);
    tx.send(Event::Trigger(1)).unwrap();
    let mut block = vec![0i64; 441];
    s.process(&mut block);
    assert!(s.voices[0].active);
    let note = s.voices[0].note;
    let before = s.voices[0].env.state;
    s.handle_event(Event::NoteOff(1, note));
    assert_eq!(s.voices[0].env.state, before);
    assert_ne!(before, State::Release);
    let mut blocks = 1;
    while s.voices[0].active {
        s.process(&mut block);
        blocks += 1;
        assert!(blocks < 50, "kick still sounding at 0.5 s");
    }
    assert!(blocks * 441 < RATE as usize / 2);
}

#[test]
fn sequencer_fires_on_the_pattern_grid() {
    let (tx, rx) = mpsc::channel();
    let mut seq = Sequencer::new(60, 4, 4, 0, tx);
    assert_eq!(seq.beat_duration, 250_000_000);
    seq.add_channel(3, "x...x...x...x...");
    assert_eq!(seq.channels[0], (3, 0x1111));
    let tick: u64 = 2_000_000;
    let mut times = Vec::new();
    let mut now: u64 = 0;
    while now <= 4_000_000_000 {
        seq.update(now);
        while let Ok(e) = rx.try_recv() {
            assert_eq!(e, Event::Trigger(3));
            times.push(now);
        }
        now += tick;
    }
    assert_eq!(times.len(), 4);
    // the first step is due one step after the start; then one bar apart
    for (i, t) in times.iter().enumerate() {
        let expected = 250_000_000 + i as u64 * 1_000_000_000;
        assert!(t.abs_diff(expected) <= tick, "trigger {i} at {t}");
    }
}

#[test]
fn drum_voice_ignores_note_offs_for_the_keyboard() {
    let (tx, rx) = mpsc::channel();
    let mut s = Synth::new(rx, vec![sine_lead(), kick()], 8, RATE);
    let (seq_tx, seq_rx) = mpsc::channel();
    let mut seq = Sequencer::new(120, 4, 1, 0, seq_tx);
    seq.add_channel(1, "x.x.");
    let mut block = vec![0i64; 88];
    let mut now: u64 = 0;
    let mut pressed = false;
    for step in 0..600u64 {
        seq.update(now);
        while let Ok(e) = seq_rx.try_recv() {
            tx.send(e).unwrap();
        }
        if step % 40 == 0 {
            let ev = if pressed { Event::NoteOff(0, 0) } else { Event::NoteOn(0, 0) };
            pressed = !pressed;
            tx.send(ev).unwrap();
        }
        s.process(&mut block);
        for v in s.voices.iter().filter(|v| v.active && v.inst_id == 1) {
            assert_ne!(v.env.state, State::Sustain);
            assert!(!v.env.shape.hold);
        }
        now += 2_000_000;
    }
    // pitched voices did get released by the keyboard's note-offs
    assert!(s.voices.iter().any(|v| v.inst_id == 0));
    tx.send(Event::NoteOn(0, 2)).unwrap();
    tx.send(Event::Trigger(1)).unwrap();
    s.process(&mut block);
    tx.send(Event::NoteOff(0, 2)).unwrap();
    tx.send(Event::NoteOff(0, 0)).unwrap();
    s.process(&mut block);
    for v in s.voices.iter().filter(|v| v.active) {
        if v.inst_id == 1 {
            assert_ne!(v.env.state, State::Release);
        } else if v.note == 2 {
            assert_eq!(v.env.state, State::Release);
        }
    }
}
