//! The step sequencer: a beat clock that triggers instruments on a pattern
//! grid.
use vstd::prelude::*;

use std::sync::mpsc::Sender;

use crate::event::{post, Event};
use vstd::arithmetic::div_mod::{
    lemma_add_mod_noop, lemma_fundamental_div_mod_converse, lemma_mod_twice, lemma_small_mod,
};

verus! {

/// Nanoseconds in a minute.
pub const NANOS_PER_MINUTE: u64 = 60000000000;

/// Most steps a pattern can have: one bit of a `u16` mask per step.
pub const MAX_STEPS: usize = 16;

/// Whether bit `i` of `mask` is set.
pub open spec fn bit_set(mask: u16, i: int) -> bool {
    (mask >> (i as u16)) & 1u16 == 1u16
}

/// The mask of a pattern: bit `i` is set where character `i` is `'x'`.
pub open spec fn pattern_mask(p: Seq<char>) -> u16
    decreases p.len(),
{
    if p.len() == 0 {
        0
    } else {
        let m = pattern_mask(p.drop_last());
        if p.last() == 'x' {
            m | (1u16 << ((p.len() - 1) as u16))
        } else {
            m
        }
    }
}

/// The instruments a step triggers: those of the channels whose mask has the
/// step's bit, in channel order.
pub open spec fn step_hits(channels: Seq<(usize, u16)>, beat: int) -> Seq<usize>
    decreases channels.len(),
{
    if channels.len() == 0 {
        Seq::empty()
    } else {
        let rest = step_hits(channels.drop_last(), beat);
        if bit_set(channels.last().1, beat) {
            rest.push(channels.last().0)
        } else {
            rest
        }
    }
}

/// The instruments triggered by `k` steps starting at step `start` of a
/// `total`-step grid, step after step.
pub open spec fn hits_over(channels: Seq<(usize, u16)>, start: int, total: int, k: nat) -> Seq<
    usize,
>
    decreases k,
{
    if k == 0 {
        Seq::empty()
    } else {
        hits_over(channels, start, total, (k - 1) as nat) + step_hits(
            channels,
            (start + k - 1) % total,
        )
    }
}

/// How many whole beats of `beat` nanoseconds have passed from `last` to `now`.
pub open spec fn due_steps(last: int, beat: int, now: int) -> nat {
    if now >= last {
        ((now - last) / beat) as nat
    } else {
        0
    }
}

/// Bit `i` of a pattern's mask is set exactly where character `i` is `'x'`;
/// bits past the end of the pattern are clear.
pub proof fn lemma_pattern_mask_bits(p: Seq<char>, i: int)
    requires
        p.len() <= MAX_STEPS,
        0 <= i < MAX_STEPS,
    ensures
        bit_set(pattern_mask(p), i) == (i < p.len() && p[i] == 'x'),
    decreases p.len(),
{
    let iu = i as u16;
    if p.len() == 0 {
        let z: u16 = 0;
        assert((z >> iu) & 1u16 == 0u16) by (bit_vector)
            requires
                z == 0u16,
        ;
    } else {
        let q = p.drop_last();
        let m = pattern_mask(q);
        let j = (p.len() - 1) as u16;
        lemma_pattern_mask_bits(q, i);
        if i < q.len() {
            assert(q[i] == p[i]);
        }
        if p.last() == 'x' {
            assert(((m | (1u16 << j)) >> iu) & 1u16 == (if iu == j {
                1u16
            } else {
                (m >> iu) & 1u16
            })) by (bit_vector)
                requires
                    j < 16,
                    iu < 16,
            ;
        }
    }
}

/// Whole steps are counted exactly: reading the clock `k` steps and a
/// fraction `eps` of a step after the last step finds exactly `k` steps due.
pub proof fn lemma_steps_due(last: int, beat: int, k: nat, eps: int)
    requires
        beat > 0,
        0 <= eps < beat,
    ensures
        due_steps(last, beat, last + k * beat + eps) == k,
{
    assert(k * beat + eps >= 0) by (nonlinear_arith)
        requires k >= 0, beat > 0, eps >= 0;
    lemma_fundamental_div_mod_converse(k * beat + eps, beat, k as int, eps);
}

proof fn lemma_mod_left(x: int, y: int, t: int)
    requires
        t > 0,
    ensures
        ((x % t) + y) % t == (x + y) % t,
{
    lemma_add_mod_noop(x, y, t);
    lemma_add_mod_noop(x % t, y, t);
    lemma_mod_twice(x, t);
}

proof fn lemma_hits_concat(channels: Seq<(usize, u16)>, start: int, total: int, k1: nat, k2: nat)
    requires
        total > 0,
    ensures
        hits_over(channels, start, total, k1) + hits_over(channels, (start + k1) % total, total, k2)
            == hits_over(channels, start, total, k1 + k2),
    decreases k2,
{
    if k2 == 0 {
        assert(hits_over(channels, start, total, k1) + Seq::<usize>::empty() =~= hits_over(
            channels,
            start,
            total,
            k1,
        ));
    } else {
        let k = (k2 - 1) as nat;
        lemma_hits_concat(channels, start, total, k1, k);
        lemma_mod_left(start + k1, k2 - 1, total);
        let a = hits_over(channels, start, total, k1);
        let b = hits_over(channels, (start + k1) % total, total, k);
        let c = step_hits(channels, (start + k1 + k2 - 1) % total);
        assert(a + (b + c) =~= (a + b) + c);
        assert((k1 + k2 - 1) as nat == k1 + k);
    }
}

/// Splitting the clock reads changes nothing: moving the clock to `t1` and
/// then to `t2` takes as many steps, triggering the same instruments in the
/// same order, as moving it to `t2` at once.
pub proof fn lemma_updates_compose(
    channels: Seq<(usize, u16)>,
    last: int,
    beat: int,
    start: int,
    total: int,
    t1: int,
    t2: int,
)
    requires
        beat > 0,
        total >= 1,
        last <= t1 <= t2,
    ensures
        ({
            let k1 = due_steps(last, beat, t1);
            let k2 = due_steps(last + k1 * beat, beat, t2);
            &&& k1 + k2 == due_steps(last, beat, t2)
            &&& hits_over(channels, start, total, k1) + hits_over(
                channels,
                (start + k1) % total,
                total,
                k2,
            ) == hits_over(channels, start, total, k1 + k2)
        }),
{
    let k1 = due_steps(last, beat, t1);
    let last1 = last + k1 * beat;
    assert(last1 <= t1) by (nonlinear_arith)
        requires last1 == last + k1 * beat, k1 == (t1 - last) / beat, beat > 0, t1 >= last;
    let d = t2 - last1;
    let q2 = d / beat;
    let r2 = d % beat;
    assert(d == beat * q2 + r2 && 0 <= r2 < beat && q2 >= 0) by (nonlinear_arith)
        requires d >= 0, beat > 0, q2 == d / beat, r2 == d % beat;
    assert(t2 - last == (k1 + q2) * beat + r2) by (nonlinear_arith)
        requires d == beat * q2 + r2, d == t2 - last1, last1 == last + k1 * beat;
    lemma_fundamental_div_mod_converse(t2 - last, beat, k1 + q2, r2);
    lemma_hits_concat(channels, start, total, k1, q2 as nat);
}

/// A beat clock over a grid of `beats · sub_beats` steps. Times are in
/// nanoseconds on the caller's monotonic clock.
pub struct Sequencer {
    pub bpm: u32,
    pub beats: u8,
    pub sub_beats: u8,
    /// Length of one step, in nanoseconds.
    pub beat_duration: u64,
    pub total_beats: usize,
    pub current_beat: usize,
    /// Time of the last step, in nanoseconds.
    pub last_time: u64,
    /// `(instrument id, pattern mask)` per channel.
    pub channels: Vec<(usize, u16)>,
    pub tx: Sender<Event>,
}

impl Sequencer {
    pub open spec fn wf(&self) -> bool {
        &&& 1 <= self.total_beats <= MAX_STEPS
        &&& self.current_beat < self.total_beats
        &&& self.beat_duration > 0
    }

    /// A sequencer at `bpm` beats per minute, with `beats` beats of
    /// `sub_beats` steps, whose clock starts at `now`.
    pub fn new(bpm: u32, beats: u8, sub_beats: u8, now: u64, tx: Sender<Event>) -> (r: Sequencer)
        requires
            bpm > 0,
            1 <= beats * sub_beats <= MAX_STEPS,
            bpm * sub_beats <= NANOS_PER_MINUTE,
        ensures
            r.wf(),
            r.bpm == bpm,
            r.beats == beats,
            r.sub_beats == sub_beats,
            r.beat_duration == (NANOS_PER_MINUTE as int) / (bpm * sub_beats),
            r.total_beats == beats * sub_beats,
            r.current_beat == 0,
            r.last_time == now,
            r.channels@ == Seq::<(usize, u16)>::empty(),
    {
        assert(sub_beats >= 1) by (nonlinear_arith)
            requires 1 <= beats * sub_beats, beats >= 0, sub_beats >= 0;
        assert(beats * sub_beats <= 16);
        assert(bpm as int * sub_beats as int >= 1) by (nonlinear_arith)
            requires bpm >= 1, sub_beats >= 1;
        let per_minute: u64 = bpm as u64 * sub_beats as u64;
        let beat_duration = NANOS_PER_MINUTE / per_minute;
        assert(beat_duration >= 1) by (nonlinear_arith)
            requires beat_duration == NANOS_PER_MINUTE as int / (per_minute as int),
                1 <= per_minute <= NANOS_PER_MINUTE;
        Sequencer {
            bpm,
            beats,
            sub_beats,
            beat_duration,
            total_beats: (beats as usize) * (sub_beats as usize),
            current_beat: 0,
            last_time: now,
            channels: Vec::new(),
            tx,
        }
    }

    /// Adds a channel for instrument `inst_id` with a pattern of one
    /// character per step: `'x'` triggers, anything else rests.
    pub fn add_channel(&mut self, inst_id: usize, pat: &str)
        requires
            old(self).wf(),
            pat@.len() == old(self).total_beats,
        ensures
            final(self).wf(),
            final(self).channels@ == old(self).channels@.push((inst_id, pattern_mask(pat@))),
            final(self).total_beats == old(self).total_beats,
            final(self).current_beat == old(self).current_beat,
            final(self).last_time == old(self).last_time,
            final(self).beat_duration == old(self).beat_duration,
    {
        let n = pat.unicode_len();
        let mut mask: u16 = 0;
        let mut i: usize = 0;
        while i < n
            invariant
                n == pat@.len() <= MAX_STEPS,
                i <= n,
                mask == pattern_mask(pat@.take(i as int)),
            decreases n - i,
        {
            let c = pat.get_char(i);
            proof {
                let t = pat@.take(i + 1);
                assert(t.drop_last() =~= pat@.take(i as int));
                assert(t.last() == c);
            }
            if c == 'x' {
                mask = mask | (1u16 << (i as u16));
            }
            i = i + 1;
        }
        proof {
            assert(pat@.take(n as int) =~= pat@);
        }
        self.channels.push((inst_id, mask));
    }

    /// Moves the clock on to `now`: for every whole step that has passed
    /// since the last one, the instruments that step triggers are added to
    /// the result, and the step's time (not `now`) becomes the last time, so
    /// late calls catch up instead of drifting.
    pub fn advance(&mut self, now: u64) -> (r: Vec<usize>)
        requires
            old(self).wf(),
        ensures
            ({
                let k = due_steps(old(self).last_time as int, old(self).beat_duration as int, now as int);
                &&& final(self).last_time == old(self).last_time + k * old(self).beat_duration
                &&& final(self).current_beat == (old(self).current_beat + k) % (old(self).total_beats as int)
                &&& r@ == hits_over(
                    old(self).channels@,
                    old(self).current_beat as int,
                    old(self).total_beats as int,
                    k,
                )
            }),
            final(self).wf(),
            final(self).channels@ == old(self).channels@,
            final(self).total_beats == old(self).total_beats,
            final(self).beat_duration == old(self).beat_duration,
            final(self).bpm == old(self).bpm,
            final(self).beats == old(self).beats,
            final(self).sub_beats == old(self).sub_beats,
    {
        let ghost last0 = self.last_time as int;
        let ghost cur0 = self.current_beat as int;
        let ghost bd = self.beat_duration as int;
        let ghost total = self.total_beats as int;
        let mut out: Vec<usize> = Vec::new();
        let ghost mut k: nat = 0;
        proof {
            lemma_small_mod(cur0 as nat, total as nat);
        }
        while now >= self.last_time && now - self.last_time >= self.beat_duration
            invariant
                self.wf(),
                self.channels@ == old(self).channels@,
                self.total_beats == old(self).total_beats,
                self.beat_duration == old(self).beat_duration,
                self.bpm == old(self).bpm,
                self.beats == old(self).beats,
                self.sub_beats == old(self).sub_beats,
                last0 == old(self).last_time,
                cur0 == old(self).current_beat,
                bd == self.beat_duration,
                total == self.total_beats,
                self.last_time == last0 + k * bd,
                self.current_beat == (cur0 + k) % total,
                out@ == hits_over(self.channels@, cur0, total, k),
                last0 <= now ==> k <= due_steps(last0, bd, now as int),
                k > 0 ==> self.last_time <= now,
            decreases now - self.last_time,
        {
            let beat = self.current_beat;
            let ghost before = out@;
            let mut c: usize = 0;
            while c < self.channels.len()
                invariant
                    beat == self.current_beat,
                    self.wf(),
                    c <= self.channels@.len(),
                    out@ == before + step_hits(self.channels@.take(c as int), beat as int),
                decreases self.channels@.len() - c,
            {
                let ch = self.channels[c];
                proof {
                    let t = self.channels@.take(c + 1);
                    assert(t.drop_last() =~= self.channels@.take(c as int));
                    assert(t.last() == ch);
                }
                if (ch.1 >> (beat as u16)) & 1u16 == 1u16 {
                    out.push(ch.0);
                }
                c = c + 1;
            }
            proof {
                assert(self.channels@.take(c as int) =~= self.channels@);
                lemma_add_mod_noop(cur0 + k, 1, total);
                assert(hits_over(self.channels@, cur0, total, k + 1) == before + step_hits(
                    self.channels@,
                    (cur0 + k) % total,
                ));
                assert(self.last_time + bd <= now);
                assert((k + 1) * bd <= now - last0) by (nonlinear_arith)
                    requires self.last_time == last0 + k * bd, self.last_time + bd <= now;
                assert((now - last0) / bd >= k + 1) by (nonlinear_arith)
                    requires (k + 1) * bd <= now - last0, bd > 0;
            }
            let ghost prev_beat = self.current_beat as int;
            self.last_time = self.last_time + self.beat_duration;
            self.current_beat = (self.current_beat + 1) % self.total_beats;
            proof {
                assert(self.last_time == last0 + (k + 1) * bd) by (nonlinear_arith)
                    requires self.last_time == last0 + k * bd + bd;
                lemma_add_mod_noop(cur0 + k, 1, total);
                lemma_mod_twice(cur0 + k, total);
                if total > 1 {
                    lemma_small_mod(1, total as nat);
                } else {
                    assert(self.current_beat == 0);
                    assert((cur0 + k + 1) % total == 0);
                }
                k = k + 1;
            }
        }
        proof {
            if now as int >= last0 {
                assert(now - self.last_time < bd || now < self.last_time);
                assert(self.last_time <= now || k == 0);
                lemma_fundamental_div_mod_converse(now - last0, bd, k as int, now - self.last_time);
            }
        }
        out
    }

    /// Moves the clock on to `now`, as [`Sequencer::advance`] does, and sends
    /// a trigger for each instrument it returns, in order. A send to a
    /// receiver that is gone is dropped.
    pub fn update(&mut self, now: u64)
        requires
            old(self).wf(),
        ensures
            ({
                let k = due_steps(old(self).last_time as int, old(self).beat_duration as int, now as int);
                &&& final(self).last_time == old(self).last_time + k * old(self).beat_duration
                &&& final(self).current_beat == (old(self).current_beat + k) % (old(self).total_beats as int)
            }),
            final(self).wf(),
            final(self).channels@ == old(self).channels@,
            final(self).total_beats == old(self).total_beats,
            final(self).beat_duration == old(self).beat_duration,
    {
        let hits = self.advance(now);
        let mut i: usize = 0;
        while i < hits.len()
            invariant
                i <= hits@.len(),
            decreases hits@.len() - i,
        {
            post(&self.tx, Event::Trigger(hits[i]));
            i = i + 1;
        }
    }
}

} // verus!
