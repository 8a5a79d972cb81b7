use std::sync::mpsc;

use synth::env::State;
use synth::event::Event;
use synth::fixed::ONE;
use synth::osc::Waveform;
use synth::preset::{hihat, kick, snare, Instrument, Kind};
use synth::synth::{Synth, MAX_EVENTS_PER_BLOCK};
use synth::Hz;

const RATE: u32 = 44100;

fn organ() -> Instrument {
    Instrument::builder()
        .osc(Waveform::Sine, ONE)
        .env(10_000, 20_000, 13_421_773, 200_000)
        .build()
}

fn synth_with(polyphony: usize) -> (mpsc::Sender<Event>, Synth) {
    let (tx, rx) = mpsc::channel();
    let s = Synth::new(rx, vec![organ(), kick()], polyphony, RATE);
    (tx, s)
}

fn active(s: &Synth) -> usize {
    s.voices.iter().filter(|v| v.active).count()
}

#[test]
fn builder_defaults_and_chaining() {
    let b = Instrument::builder();
    assert_eq!(b.kind, Kind::Pitched);
    assert_eq!(b.shape.sustain, 13_421_773);
    let i = Instrument::builder()
        .lfo(Waveform::Sine, Hz(3_000), 335_544)
        .osc(Waveform::Sine, ONE)
        .osc(Waveform::Saw, 3_355_443)
        .env(2_000, 100_000, 13_421_773, 200_000)
        .build();
    assert_eq!(i.oscs, vec![(Waveform::Sine, ONE), (Waveform::Saw, 3_355_443)]);
    assert_eq!(i.lfos, vec![(Waveform::Sine, Hz(3_000), 335_544)]);
    assert!(i.shape.hold);
    assert_eq!(i.shape.attack, 2_000);
}

#[test]
fn percussive_is_one_shot_whatever_the_order() {
    let i = Instrument::builder().percussive(Hz(60_000)).env(1_000, 150_000, 0, 0).build();
    assert_eq!(i.kind, Kind::Percussive(Hz(60_000)));
    assert!(!i.shape.hold);
    let j = Instrument::builder().env(1_000, 150_000, 0, 0).oneshot().pitched().build();
    assert!(!j.shape.hold);
    assert_eq!(j.kind, Kind::Pitched);
}

#[test]
fn drum_presets() {
    let k = kick();
    assert_eq!(k.kind, Kind::Percussive(Hz(60_000)));
    assert!(!k.shape.hold);
    assert_eq!(k.shape.decay, 150_000);
    let s = snare();
    assert_eq!(s.oscs.len(), 2);
    assert_eq!(s.oscs[0].0, Waveform::Noise);
    let h = hihat();
    assert_eq!(h.kind, Kind::Percussive(Hz(0)));
    assert_eq!(h.shape.decay, 30_000);
}

#[test]
fn new_pool_is_silent() {
    let (_tx, mut s) = synth_with(4);
    assert_eq!(s.voices.len(), 4);
    assert_eq!(active(&s), 0);
    let mut out = vec![7i64; 64];
    s.process(&mut out);
    assert!(out.iter().all(|x| *x == 0));
}

#[test]
fn free_voice_is_preferred() {
    let (_tx, mut s) = synth_with(3);
    assert_eq!(s.find_voice_slot(), 0);
    s.handle_event(Event::NoteOn(0, 9));
    assert_eq!(s.find_voice_slot(), 1);
    s.handle_event(Event::NoteOn(0, 10));
    s.voices[0].active = false;
    assert_eq!(s.find_voice_slot(), 0);
}

#[test]
fn quietest_voice_is_stolen_first_on_ties() {
    let (_tx, mut s) = synth_with(3);
    for n in [1u8, 2, 3] {
        s.handle_event(Event::NoteOn(0, n));
    }
    s.voices[0].env.amp = 500;
    s.voices[1].env.amp = 100;
    s.voices[2].env.amp = 100;
    assert_eq!(s.find_voice_slot(), 1);
}

#[test]
fn note_on_builds_the_voice() {
    let (_tx, mut s) = synth_with(2);
    s.note_on(0, 9);
    let v = &s.voices[0];
    assert!(v.active);
    assert_eq!(v.inst_id, 0);
    assert_eq!(v.note, 9);
    assert_eq!(v.freq, Hz(440_000));
    assert_eq!(v.env.state, State::Attack);
    assert_eq!(v.oscs.len(), 1);
    assert_eq!(v.oscs[0].increment, 42_852_281);
    assert!(v.lfos.is_empty());
}

#[test]
fn trigger_uses_the_preset_frequency() {
    let (_tx, mut s) = synth_with(2);
    s.trigger(1);
    let v = &s.voices[0];
    assert!(v.active);
    assert_eq!(v.freq, Hz(60_000));
    assert!(!v.env.shape.hold);
}

#[test]
fn events_that_cannot_start_are_ignored() {
    let (_tx, mut s) = synth_with(2);
    s.handle_event(Event::NoteOn(5, 1));
    s.handle_event(Event::Trigger(0));
    s.handle_event(Event::NoteOn(0, 18));
    s.handle_event(Event::NoteOff(9, 1));
    assert_eq!(active(&s), 0);
}

#[test]
fn note_off_releases_matching_voices_only() {
    let (_tx, mut s) = synth_with(4);
    s.note_on(0, 4);
    s.note_on(0, 4);
    s.note_on(0, 5);
    s.note_off(0, 4);
    assert_eq!(s.voices[0].env.state, State::Release);
    assert_eq!(s.voices[1].env.state, State::Release);
    assert_eq!(s.voices[2].env.state, State::Attack);
}

#[test]
fn active_voices_never_exceed_the_pool() {
    let (tx, mut s) = synth_with(3);
    let mut out = vec![0i64; 256];
    for round in 0..40u32 {
        let n = (round % 18) as u8;
        tx.send(Event::NoteOn(0, n)).unwrap();
        if round % 3 == 0 {
            tx.send(Event::Trigger(1)).unwrap();
        }
        if round % 5 == 0 {
            tx.send(Event::NoteOff(0, n)).unwrap();
        }
        s.process(&mut out);
        assert!(active(&s) <= 3);
        assert_eq!(s.voices.len(), 3);
    }
}

#[test]
fn events_apply_in_send_order() {
    let (tx, mut s) = synth_with(2);
    tx.send(Event::NoteOn(0, 7)).unwrap();
    tx.send(Event::NoteOff(0, 7)).unwrap();
    let mut out = vec![0i64; 0];
    s.process(&mut out);
    assert!(s.voices[0].active);
    assert_eq!(s.voices[0].note, 7);
    assert_eq!(s.voices[0].env.state, State::Release);
}

#[test]
fn event_drain_is_capped_per_block() {
    let (tx, mut s) = synth_with(1);
    for _ in 0..MAX_EVENTS_PER_BLOCK {
        tx.send(Event::NoteOn(0, 1)).unwrap();
    }
    tx.send(Event::NoteOn(0, 5)).unwrap();
    let mut out = vec![0i64; 0];
    s.process(&mut out);
    assert_eq!(s.voices[0].note, 1);
    s.process(&mut out);
    assert_eq!(s.voices[0].note, 5);
}

#[test]
fn render_applies_master_gain() {
    let (_tx, mut s) = synth_with(1);
    let square = Instrument::builder().osc(Waveform::Square, ONE).env(0, 0, ONE, 0).build();
    s.instruments.push(square);
    s.note_on(2, 9);
    let mut out = vec![0i64; 4];
    s.render(&mut out);
    // full-scale square at full envelope, times 0.2
    assert_eq!(out, vec![3_355_443; 4]);
}

#[test]
fn voices_mix_additively() {
    let (_tx, mut s) = synth_with(2);
    let square = Instrument::builder().osc(Waveform::Square, ONE / 2).env(0, 0, ONE, 0).build();
    s.instruments.push(square);
    s.note_on(2, 9);
    let mut one = vec![0i64; 1];
    s.render(&mut one);
    s.note_on(2, 10);
    let mut two = vec![0i64; 1];
    s.render(&mut two);
    assert_eq!(one[0], 1_677_721);
    assert_eq!(two[0], 3_355_443);
}
