//! A voice: one sounding note, built from an instrument.
use vstd::prelude::*;

use crate::env::{env_next, Env, State};
use crate::fixed::{scale, scaled, ONE};
use crate::osc::{modulated_increment, osc_advanced, osc_new, osc_output, Osc, Waveform};
use crate::preset::{Instrument, MAX_LFOS, MAX_OSCS};
use crate::Hz;

verus! {

/// Largest magnitude of one voice's output: every oscillator at full scale.
pub const VOICE_LIMIT: i64 = 134217728;

/// The runtime state of one voice of the pool.
pub struct Voice {
    pub inst_id: usize,
    /// Whether this voice is currently producing sound.
    pub active: bool,
    pub note: u8,
    pub freq: Hz,
    pub env: Env,
    pub lfos: Vec<Osc>,
    pub oscs: Vec<Osc>,
}

/// A voice as a value: its oscillators and LFOs as sequences.
pub struct VoiceView {
    pub inst_id: usize,
    pub active: bool,
    pub note: u8,
    pub freq: Hz,
    pub env: Env,
    pub lfos: Seq<Osc>,
    pub oscs: Seq<Osc>,
}

impl View for Voice {
    type V = VoiceView;

    open spec fn view(&self) -> VoiceView {
        VoiceView {
            inst_id: self.inst_id,
            active: self.active,
            note: self.note,
            freq: self.freq,
            env: self.env,
            lfos: self.lfos@,
            oscs: self.oscs@,
        }
    }
}

/// The values the Noise waveforms of a voice take in one sample: one per LFO
/// and one per oscillator, in order (ignored by the other waveforms).
pub struct Draws {
    pub lfo: Seq<int>,
    pub osc: Seq<int>,
}

/// One draw per LFO and per oscillator, each within full scale.
pub open spec fn draws_fit(v: VoiceView, d: Draws) -> bool {
    &&& d.lfo.len() == v.lfos.len()
    &&& d.osc.len() == v.oscs.len()
    &&& forall|i: int| 0 <= i < d.lfo.len() ==> -ONE <= #[trigger] d.lfo[i] <= ONE
    &&& forall|i: int| 0 <= i < d.osc.len() ==> -ONE <= #[trigger] d.osc[i] <= ONE
}

/// All draws zero.
pub open spec fn zero_draws(v: VoiceView) -> Draws {
    Draws { lfo: Seq::new(v.lfos.len(), |i: int| 0), osc: Seq::new(v.oscs.len(), |i: int| 0) }
}

/// The sum of the LFOs' current outputs (the modulation bus), LFO `i` taking
/// `noise[i]` if it is a Noise LFO.
pub open spec fn lfo_sum(lfos: Seq<Osc>, noise: Seq<int>) -> int
    decreases lfos.len(),
{
    if lfos.len() == 0 {
        0
    } else {
        lfo_sum(lfos.drop_last(), noise.drop_last()) + osc_output(lfos.last(), noise.last())
    }
}

/// The oscillator with its increment set from the modulation `lfo`.
pub open spec fn modulated(o: Osc, lfo: int) -> Osc {
    Osc { increment: modulated_increment(o.base_increment as int, lfo) as u32, ..o }
}

/// The sum of the oscillators' outputs once each is modulated by `lfo`,
/// oscillator `i` taking `noise[i]` if it is a Noise oscillator.
pub open spec fn osc_sum(oscs: Seq<Osc>, lfo: int, noise: Seq<int>) -> int
    decreases oscs.len(),
{
    if oscs.len() == 0 {
        0
    } else {
        osc_sum(oscs.drop_last(), lfo, noise.drop_last()) + osc_output(
            modulated(oscs.last(), lfo),
            noise.last(),
        )
    }
}

/// Neither an oscillator nor an LFO of the voice draws noise.
pub open spec fn noise_free(v: VoiceView) -> bool {
    &&& forall|i: int| 0 <= i < v.lfos.len() ==> #[trigger] v.lfos[i].waveform != Waveform::Noise
    &&& forall|i: int| 0 <= i < v.oscs.len() ==> #[trigger] v.oscs[i].waveform != Waveform::Noise
}

/// The voice after one sample with draws `d`: the envelope steps; a finished
/// envelope makes the voice inactive; otherwise every LFO advances, and every
/// oscillator is modulated by the LFO sum and advances.
pub open spec fn voice_next(v: VoiceView, rate: int, d: Draws) -> VoiceView {
    let env = env_next(v.env, rate);
    if env.state == State::Finished {
        VoiceView { env, active: false, ..v }
    } else {
        let lfo = lfo_sum(v.lfos, d.lfo);
        VoiceView {
            env,
            lfos: v.lfos.map_values(|o: Osc| osc_advanced(o)),
            oscs: v.oscs.map_values(|o: Osc| osc_advanced(modulated(o, lfo))),
            ..v
        }
    }
}

/// What the voice outputs for one sample with draws `d`: the oscillator sum
/// scaled by the stepped envelope, or nothing once the envelope has finished.
pub open spec fn voice_out(v: VoiceView, rate: int, d: Draws) -> int {
    let env = env_next(v.env, rate);
    if env.state == State::Finished {
        0
    } else {
        scaled(osc_sum(v.oscs, lfo_sum(v.lfos, d.lfo), d.osc), env.amp as int)
    }
}

proof fn lemma_lfo_sum_draws(lfos: Seq<Osc>, a: Seq<int>, b: Seq<int>)
    requires
        a.len() == lfos.len(),
        b.len() == lfos.len(),
        forall|i: int| 0 <= i < lfos.len() ==> #[trigger] lfos[i].waveform != Waveform::Noise,
    ensures
        lfo_sum(lfos, a) == lfo_sum(lfos, b),
    decreases lfos.len(),
{
    if lfos.len() > 0 {
        let l = lfos.drop_last();
        assert forall|i: int| 0 <= i < l.len() implies #[trigger] l[i].waveform != Waveform::Noise by {
            assert(l[i] == lfos[i]);
        }
        lemma_lfo_sum_draws(l, a.drop_last(), b.drop_last());
        assert(lfos.last() == lfos[lfos.len() - 1]);
    }
}

proof fn lemma_osc_sum_draws(oscs: Seq<Osc>, lfo: int, a: Seq<int>, b: Seq<int>)
    requires
        a.len() == oscs.len(),
        b.len() == oscs.len(),
        forall|i: int| 0 <= i < oscs.len() ==> #[trigger] oscs[i].waveform != Waveform::Noise,
    ensures
        osc_sum(oscs, lfo, a) == osc_sum(oscs, lfo, b),
    decreases oscs.len(),
{
    if oscs.len() > 0 {
        let l = oscs.drop_last();
        assert forall|i: int| 0 <= i < l.len() implies #[trigger] l[i].waveform != Waveform::Noise by {
            assert(l[i] == oscs[i]);
        }
        lemma_osc_sum_draws(l, lfo, a.drop_last(), b.drop_last());
        assert(oscs.last() == oscs[oscs.len() - 1]);
    }
}

/// A voice that draws no noise is deterministic: whatever the draws, it
/// steps and outputs as with all draws zero.
pub proof fn lemma_noise_free_draws(v: VoiceView, rate: int, d: Draws)
    requires
        noise_free(v),
        draws_fit(v, d),
    ensures
        voice_next(v, rate, d) == voice_next(v, rate, zero_draws(v)),
        voice_out(v, rate, d) == voice_out(v, rate, zero_draws(v)),
{
    let z = zero_draws(v);
    lemma_lfo_sum_draws(v.lfos, d.lfo, z.lfo);
    lemma_osc_sum_draws(v.oscs, lfo_sum(v.lfos, d.lfo), d.osc, z.osc);
}

/// The voice as a note-on or trigger leaves it: bound to instrument `inst`,
/// active, at `freq`, with a fresh envelope and fresh LFOs and oscillators
/// from the instrument's lists; `note` is recorded when there is one.
pub open spec fn started_voice(
    v: VoiceView,
    inst: usize,
    note: Option<u8>,
    freq: Hz,
    ins: Instrument,
    rate: int,
) -> VoiceView {
    VoiceView {
        inst_id: inst,
        active: true,
        note: match note {
            Some(n) => n,
            None => v.note,
        },
        freq,
        env: Env { shape: ins.shape, state: State::Attack, amp: 0 },
        lfos: ins.lfos@.map_values(|t: (Waveform, Hz, u32)| osc_new(t.0, t.1, rate, t.2)),
        oscs: ins.oscs@.map_values(|t: (Waveform, u32)| osc_new(t.0, freq, rate, t.1)),
    }
}

impl VoiceView {
    pub open spec fn wf(&self) -> bool {
        &&& self.env.wf()
        &&& self.oscs.len() <= MAX_OSCS
        &&& self.lfos.len() <= MAX_LFOS
        &&& forall|i: int| 0 <= i < self.oscs.len() ==> (#[trigger] self.oscs[i]).wf()
        &&& forall|i: int| 0 <= i < self.lfos.len() ==> (#[trigger] self.lfos[i]).wf()
        &&& self.active ==> self.env.state != State::Finished
    }
}

impl Voice {
    /// An inactive voice with room for the largest instrument.
    pub fn new() -> (r: Voice)
        ensures
            r@.wf(),
            !r.active,
            r@.oscs.len() == 0,
            r@.lfos.len() == 0,
    {
        Voice {
            inst_id: 0,
            active: false,
            note: 0,
            freq: Hz(0),
            env: Env::new(crate::env::Shape::default()),
            lfos: Vec::with_capacity(MAX_LFOS),
            oscs: Vec::with_capacity(MAX_OSCS),
        }
    }

    /// Rebinds this voice to an instrument, reusing its storage.
    pub fn start(
        &mut self,
        inst: usize,
        note: Option<u8>,
        freq: Hz,
        instrument: &Instrument,
        sample_rate: u32,
    )
        requires
            instrument.wf(),
            sample_rate > 0,
        ensures
            final(self)@ == started_voice(old(self)@, inst, note, freq, *instrument, sample_rate as int),
            final(self)@.wf(),
    {
        let ghost rate = sample_rate as int;
        self.inst_id = inst;
        self.active = true;
        if let Some(n) = note {
            self.note = n;
        }
        self.freq = freq;
        self.env = Env::new(instrument.shape);
        self.lfos.clear();
        let mut k: usize = 0;
        while k < instrument.lfos.len()
            invariant
                instrument.wf(),
                sample_rate > 0,
                rate == sample_rate as int,
                self.inst_id == inst,
                self.active,
                self.note == (match note {
                    Some(n) => n,
                    None => old(self).note,
                }),
                self.freq == freq,
                self.env == (Env { shape: instrument.shape, state: State::Attack, amp: 0 }),
                k <= instrument.lfos@.len(),
                self.lfos@ == instrument.lfos@.take(k as int).map_values(
                    |t: (Waveform, Hz, u32)| osc_new(t.0, t.1, rate, t.2),
                ),
                forall|i: int| 0 <= i < self.lfos@.len() ==> (#[trigger] self.lfos@[i]).wf(),
            decreases instrument.lfos@.len() - k,
        {
            let t = instrument.lfos[k];
            let o = Osc::new(t.0, t.1, sample_rate, t.2);
            self.lfos.push(o);
            proof {
                assert(self.lfos@ =~= instrument.lfos@.take(k + 1).map_values(
                    |t: (Waveform, Hz, u32)| osc_new(t.0, t.1, rate, t.2),
                ));
            }
            k = k + 1;
        }
        proof {
            assert(instrument.lfos@.take(k as int) =~= instrument.lfos@);
        }
        self.oscs.clear();
        let mut k: usize = 0;
        while k < instrument.oscs.len()
            invariant
                instrument.wf(),
                sample_rate > 0,
                rate == sample_rate as int,
                self.inst_id == inst,
                self.active,
                self.note == (match note {
                    Some(n) => n,
                    None => old(self).note,
                }),
                self.freq == freq,
                self.env == (Env { shape: instrument.shape, state: State::Attack, amp: 0 }),
                self.lfos@ == instrument.lfos@.map_values(
                    |t: (Waveform, Hz, u32)| osc_new(t.0, t.1, rate, t.2),
                ),
                forall|i: int| 0 <= i < self.lfos@.len() ==> (#[trigger] self.lfos@[i]).wf(),
                k <= instrument.oscs@.len(),
                self.oscs@ == instrument.oscs@.take(k as int).map_values(
                    |t: (Waveform, u32)| osc_new(t.0, freq, rate, t.1),
                ),
                forall|i: int| 0 <= i < self.oscs@.len() ==> (#[trigger] self.oscs@[i]).wf(),
            decreases instrument.oscs@.len() - k,
        {
            let t = instrument.oscs[k];
            let o = Osc::new(t.0, freq, sample_rate, t.1);
            self.oscs.push(o);
            proof {
                assert(self.oscs@ =~= instrument.oscs@.take(k + 1).map_values(
                    |t: (Waveform, u32)| osc_new(t.0, freq, rate, t.1),
                ));
            }
            k = k + 1;
        }
        proof {
            assert(instrument.oscs@.take(k as int) =~= instrument.oscs@);
        }
    }

    /// Produces one sample of `1 / sample_rate` seconds from an active voice.
    pub fn mix_sample(&mut self, sample_rate: u32) -> (r: i64)
        requires
            old(self)@.wf(),
            sample_rate > 0,
        ensures
            final(self)@.wf(),
            exists|d: Draws|
                #![trigger voice_next(old(self)@, sample_rate as int, d)]
                draws_fit(old(self)@, d) && final(self)@ == voice_next(
                    old(self)@,
                    sample_rate as int,
                    d,
                ) && r == voice_out(old(self)@, sample_rate as int, d),
            -VOICE_LIMIT <= r <= VOICE_LIMIT,
    {
        let ghost v0 = self@;
        let ghost rate = sample_rate as int;
        let amp = self.env.next(sample_rate);
        if self.env.is_finished() {
            self.active = false;
            proof {
                let z = zero_draws(v0);
                assert(draws_fit(v0, z));
                assert(self@ == voice_next(v0, rate, z));
            }
            return 0;
        }
        let ghost mut ln: Seq<int> = Seq::empty();
        let mut lfo: i64 = 0;
        let mut i: usize = 0;
        while i < self.lfos.len()
            invariant
                i <= self.lfos@.len() == v0.lfos.len() <= MAX_LFOS,
                self.env == env_next(v0.env, rate),
                self.active == v0.active,
                self.inst_id == v0.inst_id,
                self.note == v0.note,
                self.freq == v0.freq,
                self.oscs@ == v0.oscs,
                v0.wf(),
                amp == self.env.amp,
                forall|k: int| 0 <= k < i ==> self.lfos@[k] == osc_advanced(v0.lfos[k]),
                forall|k: int| i <= k < self.lfos@.len() ==> self.lfos@[k] == v0.lfos[k],
                ln.len() == i,
                forall|k: int| 0 <= k < i ==> -ONE <= #[trigger] ln[k] <= ONE,
                lfo == lfo_sum(v0.lfos.take(i as int), ln),
                -(i * ONE) <= lfo <= i * ONE,
            decreases self.lfos@.len() - i,
        {
            let ghost before = self.lfos@[i as int];
            let v = self.lfos[i].next();
            proof {
                let n = choose|n: int| -ONE <= n <= ONE && v == osc_output(before, n);
                let t = v0.lfos.take(i + 1);
                assert(t.drop_last() =~= v0.lfos.take(i as int));
                assert(t.last() == v0.lfos[i as int]);
                assert(ln.push(n).drop_last() =~= ln);
                ln = ln.push(n);
            }
            lfo = lfo + v;
            i = i + 1;
        }
        proof {
            assert(v0.lfos.take(i as int) =~= v0.lfos);
            assert(self.lfos@ =~= v0.lfos.map_values(|o: Osc| osc_advanced(o)));
        }
        let ghost mut on: Seq<int> = Seq::empty();
        let mut sum: i64 = 0;
        let mut j: usize = 0;
        while j < self.oscs.len()
            invariant
                j <= self.oscs@.len() == v0.oscs.len() <= MAX_OSCS,
                self.env == env_next(v0.env, rate),
                self.active == v0.active,
                self.inst_id == v0.inst_id,
                self.note == v0.note,
                self.freq == v0.freq,
                self.lfos@ == v0.lfos.map_values(|o: Osc| osc_advanced(o)),
                v0.wf(),
                amp == self.env.amp,
                -(MAX_LFOS * ONE) <= lfo <= MAX_LFOS * ONE,
                ln.len() == v0.lfos.len(),
                forall|k: int| 0 <= k < ln.len() ==> -ONE <= #[trigger] ln[k] <= ONE,
                lfo == lfo_sum(v0.lfos, ln),
                forall|k: int|
                    0 <= k < j ==> self.oscs@[k] == osc_advanced(modulated(v0.oscs[k], lfo as int)),
                forall|k: int| j <= k < self.oscs@.len() ==> self.oscs@[k] == v0.oscs[k],
                on.len() == j,
                forall|k: int| 0 <= k < j ==> -ONE <= #[trigger] on[k] <= ONE,
                sum == osc_sum(v0.oscs.take(j as int), lfo as int, on),
                -(j * ONE) <= sum <= j * ONE,
            decreases self.oscs@.len() - j,
        {
            self.oscs[j].mod_freq(lfo);
            let ghost before = self.oscs@[j as int];
            let v = self.oscs[j].next();
            proof {
                let n = choose|n: int| -ONE <= n <= ONE && v == osc_output(before, n);
                let t = v0.oscs.take(j + 1);
                assert(t.drop_last() =~= v0.oscs.take(j as int));
                assert(t.last() == v0.oscs[j as int]);
                assert(on.push(n).drop_last() =~= on);
                on = on.push(n);
            }
            sum = sum + v;
            j = j + 1;
        }
        proof {
            assert(v0.oscs.take(j as int) =~= v0.oscs);
            assert(self.oscs@ =~= v0.oscs.map_values(
                |o: Osc| osc_advanced(modulated(o, lfo as int)),
            ));
            let d = Draws { lfo: ln, osc: on };
            assert(draws_fit(v0, d));
            assert(self@ == voice_next(v0, rate, d));
        }
        scale(sum, amp)
    }
}

} // verus!
