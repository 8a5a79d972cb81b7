use std::sync::mpsc;

use synth::event::Event;
use synth::sequencer::Sequencer;

#[test]
fn pattern_sets_one_bit_per_hit() {
    let (tx, _rx) = mpsc::channel();
    let mut seq = Sequencer::new(60, 4, 4, 0, tx);
    seq.add_channel(7, "x...x...x...x...");
    seq.add_channel(1, ".xxx.xxx.xxx.xxx");
    seq.add_channel(2, "................");
    let (id, mask) = seq.channels[0];
    assert_eq!(id, 7);
    assert_eq!(mask.count_ones(), 4);
    for i in 0..16 {
        assert_eq!(mask & (1 << i) != 0, i % 4 == 0);
    }
    assert_eq!(seq.channels[1].1, 0xeeee);
    assert_eq!(seq.channels[2].1, 0);
}

#[test]
fn new_sequencer_grid() {
    let (tx, _rx) = mpsc::channel();
    let seq = Sequencer::new(90, 3, 4, 5, tx);
    assert_eq!(seq.total_beats, 12);
    assert_eq!(seq.beat_duration, 166_666_666);
    assert_eq!(seq.current_beat, 0);
    assert_eq!(seq.last_time, 5);
}

#[test]
fn advance_counts_whole_steps() {
    let (tx, _rx) = mpsc::channel();
    let mut seq = Sequencer::new(60, 4, 4, 1_000, tx);
    seq.add_channel(3, "x...x...x...x...");
    seq.add_channel(4, "xx..............");
    let bd = seq.beat_duration;
    assert_eq!(seq.advance(1_000 + bd - 1), Vec::<usize>::new());
    let hits = seq.advance(1_000 + 6 * bd + bd / 2);
    assert_eq!(hits, vec![3, 4, 4, 3]);
    assert_eq!(seq.current_beat, 6);
    assert_eq!(seq.last_time, 1_000 + 6 * bd);
}

#[test]
fn k_steps_and_a_fraction_give_k_steps() {
    for k in [0u64, 1, 5, 16, 37] {
        for eps in [0u64, 1, 124_999_999, 249_999_999] {
            let (tx, _rx) = mpsc::channel();
            let mut seq = Sequencer::new(60, 4, 4, 0, tx);
            seq.add_channel(3, "x...x...x...x...");
            let hits = seq.advance(k * 250_000_000 + eps);
            let expected = (0..k).filter(|j| j % 4 == 0).count();
            assert_eq!(hits.len(), expected, "k={k} eps={eps}");
            assert_eq!(seq.current_beat as u64, k % 16);
        }
    }
}

#[test]
fn split_updates_match_one_update() {
    let (tx1, _r1) = mpsc::channel();
    let (tx2, _r2) = mpsc::channel();
    let mut a = Sequencer::new(100, 4, 4, 0, tx1);
    let mut b = Sequencer::new(100, 4, 4, 0, tx2);
    a.add_channel(1, "x.x..x.xx...x..x");
    b.add_channel(1, "x.x..x.xx...x..x");
    let mut split = Vec::new();
    let mut t = 0u64;
    while t < 9_000_000_000 {
        split.extend(a.advance(t));
        t += 7_777_777;
    }
    let whole = b.advance(t - 7_777_777);
    assert_eq!(split, whole);
    assert_eq!(a.last_time, b.last_time);
    assert_eq!(a.current_beat, b.current_beat);
}

#[test]
fn clock_behind_last_step_does_nothing() {
    let (tx, rx) = mpsc::channel();
    let mut seq = Sequencer::new(60, 1, 1, 1_000_000_000, tx);
    seq.add_channel(0, "x");
    seq.update(0);
    assert!(rx.try_recv().is_err());
    assert_eq!(seq.last_time, 1_000_000_000);
}

#[test]
fn update_sends_triggers_in_order() {
    let (tx, rx) = mpsc::channel();
    let mut seq = Sequencer::new(60, 2, 1, 0, tx);
    seq.add_channel(5, "x.");
    seq.add_channel(6, "xx");
    seq.update(3_500_000_000);
    let got: Vec<Event> = rx.try_iter().collect();
    assert_eq!(
        got,
        vec![Event::Trigger(5), Event::Trigger(6), Event::Trigger(6), Event::Trigger(5), Event::Trigger(6)]
    );
}

#[test]
fn update_survives_a_dropped_receiver() {
    let (tx, rx) = mpsc::channel();
    drop(rx);
    let mut seq = Sequencer::new(60, 1, 1, 0, tx);
    seq.add_channel(0, "x");
    seq.update(2_000_000_000);
    assert_eq!(seq.last_time, 2_000_000_000);
}
