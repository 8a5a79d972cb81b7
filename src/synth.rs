//! The synthesizer: a fixed pool of voices driven by events.
use vstd::prelude::*;

use std::sync::mpsc::Receiver;

use crate::env::env_note_off;
use crate::event::{try_take, Event};
use crate::fixed::{scale, scaled};
use crate::preset::{Instrument, Kind};
use crate::voice::{
    draws_fit, started_voice, voice_next, voice_out, zero_draws, Draws, Voice, VoiceView,
    VOICE_LIMIT,
};
use crate::{pitch_millihertz, Hz};

verus! {

/// Most voices a pool can have.
pub const MAX_VOICES: usize = 1024;

/// Most events taken from the channel per processed block.
pub const MAX_EVENTS_PER_BLOCK: usize = 128;

/// The master gain applied to the mix (0.2 on the [`crate::fixed::ONE`] scale).
pub const MASTER_GAIN: u32 = 3355443;

/// Number of playable notes: note `n` sounds `n - 9` semitones from A4.
pub const NOTE_COUNT: u8 = 18;

/// The frequency of note `note`: `note - 9` semitones from A4.
pub open spec fn note_freq(note: u8) -> Hz {
    Hz(pitch_millihertz(note - 9) as u32)
}

/// The voices as values.
pub open spec fn pool_view(vs: Seq<Voice>) -> Seq<VoiceView> {
    vs.map_values(|v: Voice| v@)
}

/// Index of the first inactive voice at or after `i`, or `vs.len()` if none.
pub open spec fn first_inactive(vs: Seq<VoiceView>, i: int) -> int
    decreases vs.len() - i,
{
    if i >= vs.len() {
        vs.len() as int
    } else if !vs[i].active {
        i
    } else {
        first_inactive(vs, i + 1)
    }
}

/// Index of the quietest of the first `n` voices; the earliest on ties.
pub open spec fn quietest(vs: Seq<VoiceView>, n: int) -> int
    decreases n,
{
    if n <= 1 {
        0
    } else {
        let q = quietest(vs, n - 1);
        if vs[n - 1].env.amp < vs[q].env.amp {
            n - 1
        } else {
            q
        }
    }
}

/// The slot a new note takes: the first inactive voice, or else the quietest.
pub open spec fn voice_slot(vs: Seq<VoiceView>) -> int {
    let f = first_inactive(vs, 0);
    if f < vs.len() {
        f
    } else {
        quietest(vs, vs.len() as int)
    }
}

/// The frequency a note-on (`Some(note)`) or trigger (`None`) sounds at on an
/// instrument, or `None` when the event cannot start a voice: a pitched
/// instrument needs a note within [`NOTE_COUNT`].
pub open spec fn start_freq(ins: Instrument, note: Option<u8>) -> Option<Hz> {
    match ins.kind {
        Kind::Percussive(f) => Some(f),
        Kind::Pitched => match note {
            Some(n) => if n < NOTE_COUNT {
                Some(note_freq(n))
            } else {
                None
            },
            None => None,
        },
    }
}

/// The pool after a note-on or trigger of instrument `inst`: the chosen slot
/// is restarted, unless the instrument is unknown or the event cannot start it.
pub open spec fn pool_started(
    vs: Seq<VoiceView>,
    ins: Seq<Instrument>,
    rate: int,
    inst: usize,
    note: Option<u8>,
) -> Seq<VoiceView> {
    if inst >= ins.len() {
        vs
    } else {
        match start_freq(ins[inst as int], note) {
            Some(freq) => {
                let slot = voice_slot(vs);
                vs.update(slot, started_voice(vs[slot], inst, note, freq, ins[inst as int], rate))
            },
            None => vs,
        }
    }
}

/// Whether a note-off of `(inst, note)` releases voice `v`.
pub open spec fn releases(v: VoiceView, inst: usize, note: u8) -> bool {
    v.active && v.inst_id == inst && v.note == note
}

/// The pool after a note-off: every active voice of a pitched instrument
/// `inst` playing `note` is released; percussive voices ignore note-offs.
pub open spec fn pool_released(
    vs: Seq<VoiceView>,
    ins: Seq<Instrument>,
    inst: usize,
    note: u8,
) -> Seq<VoiceView> {
    if inst < ins.len() && ins[inst as int].kind == Kind::Pitched {
        vs.map_values(
            |v: VoiceView|
                if releases(v, inst, note) {
                    VoiceView { env: env_note_off(v.env), ..v }
                } else {
                    v
                },
        )
    } else {
        vs
    }
}

/// The pool after one event.
pub open spec fn pool_event(
    vs: Seq<VoiceView>,
    ins: Seq<Instrument>,
    rate: int,
    e: Event,
) -> Seq<VoiceView> {
    match e {
        Event::NoteOn(inst, note) => pool_started(vs, ins, rate, inst, Some(note)),
        Event::NoteOff(inst, note) => pool_released(vs, ins, inst, note),
        Event::Trigger(inst) => pool_started(vs, ins, rate, inst, None),
    }
}

/// Every instrument is well formed.
pub open spec fn instruments_wf(ins: Seq<Instrument>) -> bool {
    forall|i: int| 0 <= i < ins.len() ==> (#[trigger] ins[i]).wf()
}

/// Every voice is well formed.
pub open spec fn voices_wf(vs: Seq<VoiceView>) -> bool {
    forall|i: int| 0 <= i < vs.len() ==> (#[trigger] vs[i]).wf()
}

/// How many voices are active.
pub open spec fn active_count(vs: Seq<VoiceView>) -> nat
    decreases vs.len(),
{
    if vs.len() == 0 {
        0
    } else {
        active_count(vs.drop_last()) + if vs.last().active {
            1nat
        } else {
            0nat
        }
    }
}

/// The pool after one sample, voice `i` taking draws `ds[i]`: every active
/// voice steps.
pub open spec fn pool_next(vs: Seq<VoiceView>, rate: int, ds: Seq<Draws>) -> Seq<VoiceView> {
    Seq::new(
        vs.len(),
        |i: int|
            if vs[i].active {
                voice_next(vs[i], rate, ds[i])
            } else {
                vs[i]
            },
    )
}

/// The pool after one sample per entry of `dss`, sample `k` taking draws
/// `dss[k]`.
pub open spec fn pool_after(vs: Seq<VoiceView>, rate: int, dss: Seq<Seq<Draws>>) -> Seq<VoiceView>
    decreases dss.len(),
{
    if dss.len() == 0 {
        vs
    } else {
        pool_next(pool_after(vs, rate, dss.drop_last()), rate, dss.last())
    }
}

/// The sum of what the active voices output for one sample, voice `i` taking
/// draws `ds[i]`.
pub open spec fn pool_mix(vs: Seq<VoiceView>, rate: int, ds: Seq<Draws>) -> int
    decreases vs.len(),
{
    if vs.len() == 0 {
        0
    } else {
        pool_mix(vs.drop_last(), rate, ds.drop_last()) + if vs.last().active {
            voice_out(vs.last(), rate, ds.last())
        } else {
            0
        }
    }
}

/// Sample `k` of a block rendered from the pool `vs` with draws `dss`: the
/// mix after `k` samples, scaled by the master gain.
pub open spec fn sample_at(vs: Seq<VoiceView>, rate: int, dss: Seq<Seq<Draws>>, k: int) -> int {
    scaled(pool_mix(pool_after(vs, rate, dss.take(k)), rate, dss[k]), MASTER_GAIN as int)
}

/// Each sample's draws fit the pool as it stands at that sample.
pub open spec fn pool_draws_fit(vs: Seq<VoiceView>, rate: int, dss: Seq<Seq<Draws>>) -> bool {
    forall|k: int|
        0 <= k < dss.len() ==> {
            let p = pool_after(vs, rate, dss.take(k));
            &&& (#[trigger] dss[k]).len() == p.len()
            &&& forall|i: int| 0 <= i < p.len() ==> draws_fit(p[i], #[trigger] dss[k][i])
        }
}

/// Rendering `out.len()` samples took the pool from `before` to `after`: for
/// some draws within full scale for its Noise waveforms, every active voice
/// stepped once per sample, and every sample is [`sample_at`]. (Voices
/// without noise do not depend on the draws: see
/// [`crate::voice::lemma_noise_free_draws`].)
pub open spec fn rendered(
    before: Seq<VoiceView>,
    after: Seq<VoiceView>,
    rate: int,
    out: Seq<i64>,
) -> bool {
    &&& after.len() == before.len()
    &&& exists|dss: Seq<Seq<Draws>>|
        #![trigger pool_after(before, rate, dss)]
        {
            &&& dss.len() == out.len()
            &&& pool_draws_fit(before, rate, dss)
            &&& after == pool_after(before, rate, dss)
            &&& forall|k: int| 0 <= k < out.len() ==> #[trigger] out[k] == sample_at(before, rate, dss, k)
        }
}

/// The pool after a sequence of events, in order.
pub open spec fn pool_events(
    vs: Seq<VoiceView>,
    ins: Seq<Instrument>,
    rate: int,
    es: Seq<Event>,
) -> Seq<VoiceView>
    decreases es.len(),
{
    if es.len() == 0 {
        vs
    } else {
        pool_event(pool_events(vs, ins, rate, es.drop_last()), ins, rate, es.last())
    }
}

proof fn lemma_first_inactive(vs: Seq<VoiceView>, i: int)
    requires
        0 <= i <= vs.len(),
    ensures
        i <= first_inactive(vs, i) <= vs.len(),
        first_inactive(vs, i) < vs.len() ==> !vs[first_inactive(vs, i)].active,
        forall|k: int| i <= k < first_inactive(vs, i) ==> #[trigger] vs[k].active,
    decreases vs.len() - i,
{
    if i < vs.len() && vs[i].active {
        lemma_first_inactive(vs, i + 1);
    }
}

proof fn lemma_quietest(vs: Seq<VoiceView>, n: int)
    requires
        1 <= n <= vs.len(),
    ensures
        0 <= quietest(vs, n) < n,
        forall|k: int| 0 <= k < n ==> vs[quietest(vs, n)].env.amp <= #[trigger] vs[k].env.amp,
        forall|k: int| 0 <= k < quietest(vs, n) ==> vs[quietest(vs, n)].env.amp < #[trigger] vs[k].env.amp,
    decreases n,
{
    if n > 1 {
        lemma_quietest(vs, n - 1);
    }
}

/// A new note never steals while a voice is free: if any voice is inactive,
/// the slot chosen is inactive, and it is the first inactive one.
pub proof fn lemma_slot_prefers_inactive(vs: Seq<VoiceView>)
    requires
        exists|i: int| 0 <= i < vs.len() && !(#[trigger] vs[i]).active,
    ensures
        0 <= voice_slot(vs) < vs.len(),
        !vs[voice_slot(vs)].active,
        forall|k: int| 0 <= k < voice_slot(vs) ==> #[trigger] vs[k].active,
{
    lemma_first_inactive(vs, 0);
    let i = choose|i: int| 0 <= i < vs.len() && !(#[trigger] vs[i]).active;
    if first_inactive(vs, 0) >= vs.len() {
        assert(vs[i].active);
    }
}

/// When every voice is active, the slot chosen is one with the lowest
/// envelope amplitude, the first of them.
pub proof fn lemma_slot_steals_quietest(vs: Seq<VoiceView>)
    requires
        vs.len() >= 1,
        forall|i: int| 0 <= i < vs.len() ==> (#[trigger] vs[i]).active,
    ensures
        0 <= voice_slot(vs) < vs.len(),
        forall|k: int| 0 <= k < vs.len() ==> vs[voice_slot(vs)].env.amp <= #[trigger] vs[k].env.amp,
        forall|k: int| 0 <= k < voice_slot(vs) ==> vs[voice_slot(vs)].env.amp < #[trigger] vs[k].env.amp,
{
    lemma_first_inactive(vs, 0);
    lemma_quietest(vs, vs.len() as int);
}

/// With every voice active, a note-on or trigger that starts a voice takes
/// the quietest one: that slot is restarted, and every other voice keeps
/// sounding unchanged, so the pool stays full.
pub proof fn lemma_start_steals_quietest(
    vs: Seq<VoiceView>,
    ins: Seq<Instrument>,
    rate: int,
    inst: usize,
    note: Option<u8>,
)
    requires
        vs.len() >= 1,
        forall|i: int| 0 <= i < vs.len() ==> (#[trigger] vs[i]).active,
        inst < ins.len(),
        start_freq(ins[inst as int], note) is Some,
    ensures
        ({
            let r = pool_started(vs, ins, rate, inst, note);
            let s = voice_slot(vs);
            &&& r.len() == vs.len()
            &&& forall|k: int| 0 <= k < vs.len() ==> vs[s].env.amp <= #[trigger] vs[k].env.amp
            &&& r[s].active && r[s].inst_id == inst
            &&& forall|k: int| 0 <= k < vs.len() && k != s ==> #[trigger] r[k] == vs[k]
            &&& forall|k: int| 0 <= k < vs.len() ==> (#[trigger] r[k]).active
        }),
{
    lemma_slot_steals_quietest(vs);
}

/// No more voices are active than the pool holds.
pub proof fn lemma_active_within_pool(vs: Seq<VoiceView>)
    ensures
        active_count(vs) <= vs.len(),
    decreases vs.len(),
{
    if vs.len() > 0 {
        lemma_active_within_pool(vs.drop_last());
    }
}

/// The synthesizer: a pool of voices, the instruments they are built from, and
/// the channel that events arrive on.
pub struct Synth {
    pub voices: Vec<Voice>,
    pub instruments: Vec<Instrument>,
    pub sample_rate: u32,
    pub rx: Receiver<Event>,
}

impl Synth {
    pub open spec fn pool(&self) -> Seq<VoiceView> {
        pool_view(self.voices@)
    }

    pub open spec fn wf(&self) -> bool {
        &&& 1 <= self.voices@.len() <= MAX_VOICES
        &&& self.sample_rate > 0
        &&& voices_wf(self.pool())
        &&& instruments_wf(self.instruments@)
    }

    /// A synthesizer with `polyphony` silent voices, producing
    /// `sample_rate` samples per second.
    pub fn new(
        rx: Receiver<Event>,
        instruments: Vec<Instrument>,
        polyphony: usize,
        sample_rate: u32,
    ) -> (r: Synth)
        requires
            1 <= polyphony <= MAX_VOICES,
            sample_rate > 0,
            instruments_wf(instruments@),
        ensures
            r.wf(),
            r.voices@.len() == polyphony,
            forall|i: int|
                0 <= i < polyphony ==> !(#[trigger] r.voices@[i]).active
                    && r.voices@[i].oscs@.len() == 0 && r.voices@[i].lfos@.len() == 0,
            r.instruments@ == instruments@,
            r.sample_rate == sample_rate,
    {
        let mut voices: Vec<Voice> = Vec::with_capacity(polyphony);
        let mut i: usize = 0;
        while i < polyphony
            invariant
                i <= polyphony,
                voices@.len() == i,
                forall|k: int|
                    0 <= k < i ==> (#[trigger] voices@[k])@.wf() && !voices@[k].active
                        && voices@[k].oscs@.len() == 0 && voices@[k].lfos@.len() == 0,
            decreases polyphony - i,
        {
            voices.push(Voice::new());
            i = i + 1;
        }
        let r = Synth { voices, instruments, sample_rate, rx };
        assert(voices_wf(r.pool()));
        r
    }

    /// The slot for a new note: the first inactive voice, or else the one
    /// with the lowest envelope amplitude (the earliest on ties).
    pub fn find_voice_slot(&self) -> (r: usize)
        requires
            self.voices@.len() >= 1,
        ensures
            r == voice_slot(self.pool()),
            r < self.voices@.len(),
    {
        let ghost vs = self.pool();
        let n = self.voices.len();
        let mut i: usize = 0;
        while i < n
            invariant
                vs == self.pool(),
                n == vs.len(),
                i <= n,
                first_inactive(vs, 0) == first_inactive(vs, i as int),
            decreases n - i,
        {
            if !self.voices[i].active {
                return i;
            }
            i = i + 1;
        }
        let mut best: usize = 0;
        let mut k: usize = 1;
        while k < n
            invariant
                vs == self.pool(),
                n == vs.len(),
                first_inactive(vs, 0) == n,
                1 <= k <= n,
                best == quietest(vs, k as int),
                best < k,
            decreases n - k,
        {
            if self.voices[k].env.amp < self.voices[best].env.amp {
                best = k;
            }
            k = k + 1;
        }
        best
    }

    /// Starts a voice of instrument `inst`: with `Some(note)` for a note-on,
    /// `None` for a trigger. Does nothing for an unknown instrument, or when a
    /// pitched instrument gets no note or one outside [`NOTE_COUNT`].
    fn init_voice(&mut self, inst: usize, note: Option<u8>)
        requires
            old(self).wf(),
        ensures
            final(self).wf(),
            final(self).pool() == pool_started(
                old(self).pool(),
                old(self).instruments@,
                old(self).sample_rate as int,
                inst,
                note,
            ),
            final(self).instruments@ == old(self).instruments@,
            final(self).sample_rate == old(self).sample_rate,
            final(self).voices@.len() == old(self).voices@.len(),
    {
        if inst >= self.instruments.len() {
            return;
        }
        let freq = match self.instruments[inst].kind {
            Kind::Percussive(f) => f,
            Kind::Pitched => match note {
                Some(n) => {
                    if n >= NOTE_COUNT {
                        return;
                    }
                    Hz::from_pitch_std(n as i32 - 9)
                },
                None => {
                    return;
                },
            },
        };
        let index = self.find_voice_slot();
        let ghost before = self.pool();
        let sample_rate = self.sample_rate;
        self.voices[index].start(inst, note, freq, &self.instruments[inst], sample_rate);
        proof {
            assert(self.pool() =~= before.update(
                index as int,
                started_voice(before[index as int], inst, note, freq, self.instruments@[inst as int], sample_rate as int),
            ));
        }
    }

    pub fn note_on(&mut self, inst: usize, note: u8)
        requires
            old(self).wf(),
        ensures
            final(self).wf(),
            final(self).pool() == pool_event(
                old(self).pool(),
                old(self).instruments@,
                old(self).sample_rate as int,
                Event::NoteOn(inst, note),
            ),
            final(self).instruments@ == old(self).instruments@,
            final(self).sample_rate == old(self).sample_rate,
            final(self).voices@.len() == old(self).voices@.len(),
    {
        self.init_voice(inst, Some(note));
    }

    pub fn trigger(&mut self, inst: usize)
        requires
            old(self).wf(),
        ensures
            final(self).wf(),
            final(self).pool() == pool_event(
                old(self).pool(),
                old(self).instruments@,
                old(self).sample_rate as int,
                Event::Trigger(inst),
            ),
            final(self).instruments@ == old(self).instruments@,
            final(self).sample_rate == old(self).sample_rate,
            final(self).voices@.len() == old(self).voices@.len(),
    {
        self.init_voice(inst, None);
    }

    /// Releases every active voice of pitched instrument `inst` playing `note`.
    pub fn note_off(&mut self, inst: usize, note: u8)
        requires
            old(self).wf(),
        ensures
            final(self).wf(),
            final(self).pool() == pool_event(
                old(self).pool(),
                old(self).instruments@,
                old(self).sample_rate as int,
                Event::NoteOff(inst, note),
            ),
            final(self).instruments@ == old(self).instruments@,
            final(self).sample_rate == old(self).sample_rate,
            final(self).voices@.len() == old(self).voices@.len(),
    {
        if inst >= self.instruments.len() {
            return;
        }
        match self.instruments[inst].kind {
            Kind::Percussive(_) => {
                return;
            },
            Kind::Pitched => {},
        }
        let ghost vs = self.pool();
        let n = self.voices.len();
        let mut i: usize = 0;
        while i < n
            invariant
                n == vs.len() == self.voices@.len(),
                i <= n,
                1 <= n <= MAX_VOICES,
                self.sample_rate > 0,
                instruments_wf(self.instruments@),
                voices_wf(vs),
                self.instruments@ == old(self).instruments@,
                self.sample_rate == old(self).sample_rate,
                vs == old(self).pool(),
                forall|k: int| 0 <= k < i ==> #[trigger] self.pool()[k] == (if releases(vs[k], inst, note) {
                    VoiceView { env: env_note_off(vs[k].env), ..vs[k] }
                } else {
                    vs[k]
                }),
                forall|k: int| i <= k < n ==> #[trigger] self.pool()[k] == vs[k],
                forall|k: int| 0 <= k < n ==> (#[trigger] self.pool()[k]).wf(),
            decreases n - i,
        {
            let ghost prev = self.pool();
            let ghost pv = self.voices@;
            assert(prev[i as int] == pv[i as int]@);
            assert(prev[i as int] == vs[i as int]);
            let v = &self.voices[i];
            if v.active && v.inst_id == inst && v.note == note {
                self.voices[i].env.note_off();
                proof {
                    assert(self.voices@[i as int].env == env_note_off(pv[i as int].env));
                    assert(self.pool() =~= prev.update(
                        i as int,
                        VoiceView { env: env_note_off(vs[i as int].env), ..vs[i as int] },
                    ));
                }
            } else {
                assert(self.pool() =~= prev);
            }
            i = i + 1;
        }
        proof {
            assert(self.pool() =~= pool_released(vs, self.instruments@, inst, note));
        }
    }

    /// Applies one event to the pool.
    pub fn handle_event(&mut self, e: Event)
        requires
            old(self).wf(),
        ensures
            final(self).wf(),
            final(self).pool() == pool_event(
                old(self).pool(),
                old(self).instruments@,
                old(self).sample_rate as int,
                e,
            ),
            final(self).instruments@ == old(self).instruments@,
            final(self).sample_rate == old(self).sample_rate,
            final(self).voices@.len() == old(self).voices@.len(),
    {
        match e {
            Event::NoteOn(inst, note) => self.note_on(inst, note),
            Event::NoteOff(inst, note) => self.note_off(inst, note),
            Event::Trigger(inst) => self.trigger(inst),
        }
    }
    /// Renders one block: for each sample, every active voice steps and the
    /// sum of their outputs, scaled by [`MASTER_GAIN`], is written.
    pub fn render(&mut self, out: &mut [i64])
        requires
            old(self).wf(),
        ensures
            final(self).wf(),
            final(self).instruments@ == old(self).instruments@,
            final(self).sample_rate == old(self).sample_rate,
            final(self).voices@.len() == old(self).voices@.len(),
            final(out)@.len() == old(out)@.len(),
            rendered(old(self).pool(), final(self).pool(), old(self).sample_rate as int, final(out)@),
    {
        let ghost v0 = self.pool();
        let ghost rate = self.sample_rate as int;
        let ghost mut dss: Seq<Seq<Draws>> = Seq::empty();
        let n = self.voices.len();
        let len = out.len();
        let mut j: usize = 0;
        while j < len
            invariant
                self.wf(),
                n == self.voices@.len() == v0.len(),
                len == out@.len() == old(out)@.len(),
                j <= len,
                rate == self.sample_rate as int,
                self.instruments@ == old(self).instruments@,
                self.sample_rate == old(self).sample_rate,
                dss.len() == j,
                pool_draws_fit(v0, rate, dss),
                self.pool() == pool_after(v0, rate, dss),
                forall|k: int| 0 <= k < j ==> #[trigger] out@[k] == sample_at(v0, rate, dss, k),
            decreases len - j,
        {
            let ghost cur = self.pool();
            let ghost mut ds: Seq<Draws> = Seq::empty();
            let mut mix: i64 = 0;
            let mut i: usize = 0;
            while i < n
                invariant
                    1 <= n <= MAX_VOICES,
                    n == self.voices@.len() == cur.len(),
                    i <= n,
                    self.sample_rate > 0,
                    rate == self.sample_rate as int,
                    instruments_wf(self.instruments@),
                    self.instruments@ == old(self).instruments@,
                    self.sample_rate == old(self).sample_rate,
                    voices_wf(cur),
                    ds.len() == i,
                    forall|k: int| 0 <= k < i ==> draws_fit(cur[k], #[trigger] ds[k]),
                    forall|k: int| 0 <= k < n ==> (#[trigger] self.pool()[k]).wf(),
                    forall|k: int| 0 <= k < i ==> #[trigger] self.pool()[k] == (if cur[k].active {
                        voice_next(cur[k], rate, ds[k])
                    } else {
                        cur[k]
                    }),
                    forall|k: int| i <= k < n ==> #[trigger] self.pool()[k] == cur[k],
                    mix == pool_mix(cur.take(i as int), rate, ds),
                    -(i * VOICE_LIMIT) <= mix <= i * VOICE_LIMIT,
                decreases n - i,
            {
                let ghost prev = self.pool();
                let ghost pv = self.voices@;
                assert(prev[i as int] == pv[i as int]@);
                proof {
                    let t = cur.take(i + 1);
                    assert(t.drop_last() =~= cur.take(i as int));
                    assert(t.last() == cur[i as int]);
                }
                if self.voices[i].active {
                    let v = self.voices[i].mix_sample(self.sample_rate);
                    proof {
                        assert(self.pool() =~= prev.update(i as int, self.voices@[i as int]@));
                        let d = choose|d: Draws|
                            #![trigger voice_next(cur[i as int], rate, d)]
                            draws_fit(cur[i as int], d) && self.voices@[i as int]@ == voice_next(
                                cur[i as int],
                                rate,
                                d,
                            ) && v == voice_out(cur[i as int], rate, d);
                        assert(ds.push(d).drop_last() =~= ds);
                        ds = ds.push(d);
                    }
                    mix = mix + v;
                } else {
                    assert(self.pool() =~= prev);
                    proof {
                        let d = zero_draws(cur[i as int]);
                        assert(draws_fit(cur[i as int], d));
                        assert(ds.push(d).drop_last() =~= ds);
                        ds = ds.push(d);
                    }
                }
                i = i + 1;
            }
            proof {
                assert(cur.take(n as int) =~= cur);
                assert(self.pool() =~= pool_next(cur, rate, ds));
                let next = dss.push(ds);
                assert(next.drop_last() =~= dss);
                assert(next.take(j as int) =~= dss);
                assert forall|k: int| 0 <= k < j implies #[trigger] next.take(k) == dss.take(k) by {
                    assert(next.take(k) =~= dss.take(k));
                }
                assert forall|k: int| 0 <= k < j implies #[trigger] out@[k] == sample_at(v0, rate, next, k) by {
                    assert(next.take(k) == dss.take(k));
                    assert(next[k] == dss[k]);
                }
                assert forall|k: int| 0 <= k < next.len() implies {
                    let p = pool_after(v0, rate, next.take(k));
                    &&& (#[trigger] next[k]).len() == p.len()
                    &&& forall|i: int| 0 <= i < p.len() ==> draws_fit(p[i], #[trigger] next[k][i])
                } by {
                    if k < j {
                        assert(next.take(k) == dss.take(k));
                        assert(next[k] == dss[k]);
                    } else {
                        assert(next.take(k) == dss);
                        assert(next[k] == ds);
                    }
                }
                dss = next;
            }
            out[j] = scale(mix, MASTER_GAIN);
            proof {
                assert(dss.take(j as int) =~= dss.drop_last());
            }
            j = j + 1;
        }
    }

    /// Handles one block: takes up to [`MAX_EVENTS_PER_BLOCK`] waiting events
    /// from the channel, applying each in order, then renders `out`.
    pub fn process(&mut self, out: &mut [i64])
        requires
            old(self).wf(),
        ensures
            final(self).wf(),
            final(self).instruments@ == old(self).instruments@,
            final(self).sample_rate == old(self).sample_rate,
            final(self).voices@.len() == old(self).voices@.len(),
            final(out)@.len() == old(out)@.len(),
            exists|es: Seq<Event>|
                #![trigger pool_events(old(self).pool(), old(self).instruments@, old(self).sample_rate as int, es)]
                es.len() <= MAX_EVENTS_PER_BLOCK && rendered(
                    pool_events(old(self).pool(), old(self).instruments@, old(self).sample_rate as int, es),
                    final(self).pool(),
                    old(self).sample_rate as int,
                    final(out)@,
                ),
    {
        let ghost ins = self.instruments@;
        let ghost rate = self.sample_rate as int;
        let ghost mut es: Seq<Event> = Seq::empty();
        let mut taken: usize = 0;
        while taken < MAX_EVENTS_PER_BLOCK
            invariant
                self.wf(),
                taken <= MAX_EVENTS_PER_BLOCK,
                es.len() == taken,
                self.instruments@ == ins,
                ins == old(self).instruments@,
                rate == self.sample_rate as int,
                self.sample_rate == old(self).sample_rate,
                self.pool() == pool_events(old(self).pool(), ins, rate, es),
                self.voices@.len() == old(self).voices@.len(),
            decreases MAX_EVENTS_PER_BLOCK - taken,
        {
            match try_take(&self.rx) {
                Some(e) => {
                    self.handle_event(e);
                    proof {
                        assert(es.push(e).drop_last() =~= es);
                        es = es.push(e);
                    }
                },
                None => {
                    break;
                },
            }
            taken = taken + 1;
        }
        self.render(out);
    }
}

} // verus!
