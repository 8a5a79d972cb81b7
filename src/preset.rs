//! Instruments: the declarative presets a voice is built from.
use vstd::prelude::*;

use crate::env::{default_shape, Shape};
use crate::fixed::ONE;
use crate::osc::Waveform;
use crate::Hz;

verus! {

/// Most oscillators an instrument can have.
pub const MAX_OSCS: usize = 8;

/// Most LFOs an instrument can have.
pub const MAX_LFOS: usize = 8;

/// Whether an instrument plays the pitch of a note, or always sounds at its
/// own frequency.
#[derive(Clone, Copy, Debug, PartialEq, Eq, Structural)]
pub enum Kind {
    Pitched,
    Percussive(Hz),
}

/// A preset for a voice: its kind, envelope shape, oscillators as
/// `(waveform, gain)` and LFOs as `(waveform, frequency, depth)`, gains and
/// depths on the [`ONE`] scale.
pub struct Instrument {
    pub kind: Kind,
    pub shape: Shape,
    pub oscs: Vec<(Waveform, u32)>,
    pub lfos: Vec<(Waveform, Hz, u32)>,
}

/// The oscillator and LFO lists fit a voice, and every gain and depth is at
/// most full scale.
pub open spec fn lists_wf(oscs: Seq<(Waveform, u32)>, lfos: Seq<(Waveform, Hz, u32)>) -> bool {
    &&& oscs.len() <= MAX_OSCS
    &&& lfos.len() <= MAX_LFOS
    &&& forall|i: int| 0 <= i < oscs.len() ==> #[trigger] oscs[i].1 <= ONE
    &&& forall|i: int| 0 <= i < lfos.len() ==> #[trigger] lfos[i].2 <= ONE
}

impl Instrument {
    /// A percussive instrument is always one-shot.
    pub open spec fn wf(&self) -> bool {
        &&& self.shape.wf()
        &&& lists_wf(self.oscs@, self.lfos@)
        &&& self.kind is Percussive ==> !self.shape.hold
    }

    /// Whether the instrument is well formed: its sustain, gains and depths
    /// are at most full scale, its lists fit a voice, and a percussive
    /// instrument is one-shot.
    pub fn check(&self) -> (r: bool)
        ensures
            r == self.wf(),
    {
        if self.shape.sustain > ONE || self.oscs.len() > MAX_OSCS || self.lfos.len() > MAX_LFOS {
            return false;
        }
        if let Kind::Percussive(_) = self.kind {
            if self.shape.hold {
                return false;
            }
        }
        let mut i: usize = 0;
        while i < self.oscs.len()
            invariant
                i <= self.oscs@.len(),
                forall|k: int| 0 <= k < i ==> #[trigger] self.oscs@[k].1 <= ONE,
            decreases self.oscs@.len() - i,
        {
            if self.oscs[i].1 > ONE {
                return false;
            }
            i = i + 1;
        }
        let mut j: usize = 0;
        while j < self.lfos.len()
            invariant
                j <= self.lfos@.len(),
                forall|k: int| 0 <= k < j ==> #[trigger] self.lfos@[k].2 <= ONE,
            decreases self.lfos@.len() - j,
        {
            if self.lfos[j].2 > ONE {
                return false;
            }
            j = j + 1;
        }
        true
    }

    pub fn builder() -> (r: Builder)
        ensures
            r.kind == Kind::Pitched,
            r.shape == default_shape(),
            r.oscs@ == Seq::<(Waveform, u32)>::empty(),
            r.lfos@ == Seq::<(Waveform, Hz, u32)>::empty(),
            r.wf(),
    {
        Builder {
            kind: Kind::Pitched,
            shape: Shape::default(),
            oscs: Vec::with_capacity(MAX_OSCS),
            lfos: Vec::with_capacity(MAX_LFOS),
        }
    }
}

/// Builds an [`Instrument`] step by step.
pub struct Builder {
    pub kind: Kind,
    pub shape: Shape,
    pub oscs: Vec<(Waveform, u32)>,
    pub lfos: Vec<(Waveform, Hz, u32)>,
}

impl Builder {
    pub open spec fn wf(&self) -> bool {
        &&& self.shape.wf()
        &&& lists_wf(self.oscs@, self.lfos@)
    }

    pub fn pitched(self) -> (r: Builder)
        ensures
            r.kind == Kind::Pitched,
            r.shape == self.shape,
            r.oscs@ == self.oscs@,
            r.lfos@ == self.lfos@,
    {
        Builder { kind: Kind::Pitched, ..self }
    }

    /// A percussive instrument sounding at `freq`; it is one-shot.
    pub fn percussive(self, freq: Hz) -> (r: Builder)
        ensures
            r.kind == Kind::Percussive(freq),
            r.shape == (Shape { hold: false, ..self.shape }),
            r.oscs@ == self.oscs@,
            r.lfos@ == self.lfos@,
    {
        let b = Builder { kind: Kind::Percussive(freq), ..self };
        b.oneshot()
    }

    /// Sets the envelope: attack, decay and release in microseconds, sustain
    /// on the [`ONE`] scale; the sound is held until released.
    pub fn env(self, a: u32, d: u32, s: u32, r: u32) -> (res: Builder)
        ensures
            res.kind == self.kind,
            res.shape == (Shape { attack: a, decay: d, sustain: s, release: r, hold: true }),
            res.oscs@ == self.oscs@,
            res.lfos@ == self.lfos@,
    {
        Builder { shape: Shape { attack: a, decay: d, sustain: s, release: r, hold: true }, ..self }
    }

    /// The sound is not held: after the decay it goes straight to release.
    pub fn oneshot(self) -> (r: Builder)
        ensures
            r.kind == self.kind,
            r.shape == (Shape { hold: false, ..self.shape }),
            r.oscs@ == self.oscs@,
            r.lfos@ == self.lfos@,
    {
        let mut b = self;
        b.shape.hold = false;
        b
    }

    /// Adds an oscillator with the given waveform and gain.
    pub fn osc(self, kind: Waveform, gain: u32) -> (r: Builder)
        ensures
            r.kind == self.kind,
            r.shape == self.shape,
            r.oscs@ == self.oscs@.push((kind, gain)),
            r.lfos@ == self.lfos@,
    {
        let mut b = self;
        b.oscs.push((kind, gain));
        b
    }

    /// Adds an LFO with the given waveform, frequency and depth.
    pub fn lfo(self, kind: Waveform, freq: Hz, depth: u32) -> (r: Builder)
        ensures
            r.kind == self.kind,
            r.shape == self.shape,
            r.oscs@ == self.oscs@,
            r.lfos@ == self.lfos@.push((kind, freq, depth)),
    {
        let mut b = self;
        b.lfos.push((kind, freq, depth));
        b
    }

    /// The instrument; a percussive one is made one-shot whatever its
    /// envelope said.
    pub fn build(self) -> (r: Instrument)
        ensures
            r.kind == self.kind,
            r.shape == (if self.kind is Percussive {
                Shape { hold: false, ..self.shape }
            } else {
                self.shape
            }),
            r.oscs@ == self.oscs@,
            r.lfos@ == self.lfos@,
            self.wf() ==> r.wf(),
    {
        let mut shape = self.shape;
        if let Kind::Percussive(_) = self.kind {
            shape.hold = false;
        }
        Instrument { kind: self.kind, shape, oscs: self.oscs, lfos: self.lfos }
    }
}

/// A bass drum: a 60 Hz sine with a 1 ms attack and a 150 ms decay.
pub fn kick() -> (r: Instrument)
    ensures
        r.wf(),
        r.kind == Kind::Percussive(Hz(60000)),
        r.shape == (Shape { attack: 1000, decay: 150000, sustain: 0, release: 0, hold: false }),
        r.oscs@ == seq![(Waveform::Sine, ONE)],
        r.lfos@ == Seq::<(Waveform, Hz, u32)>::empty(),
{
    Instrument::builder()
        .percussive(Hz(60000))
        .osc(Waveform::Sine, ONE)
        .env(1000, 150000, 0, 0)
        .build()
}

/// A snare: noise over a 180 Hz sine, with a 120 ms decay.
pub fn snare() -> (r: Instrument)
    ensures
        r.wf(),
        r.kind == Kind::Percussive(Hz(180000)),
        r.shape == (Shape { attack: 1000, decay: 120000, sustain: 0, release: 0, hold: false }),
        r.oscs@ == seq![(Waveform::Noise, 3355443u32), (Waveform::Sine, 8388608u32)],
        r.lfos@ == Seq::<(Waveform, Hz, u32)>::empty(),
{
    Instrument::builder()
        .percussive(Hz(180000))
        .osc(Waveform::Noise, 3355443)
        .osc(Waveform::Sine, 8388608)
        .env(1000, 120000, 0, 0)
        .build()
}

/// A hi-hat: a short burst of noise with a 30 ms decay.
pub fn hihat() -> (r: Instrument)
    ensures
        r.wf(),
        r.kind == Kind::Percussive(Hz(0)),
        r.shape == (Shape { attack: 1000, decay: 30000, sustain: 0, release: 0, hold: false }),
        r.oscs@ == seq![(Waveform::Noise, 6710886u32)],
        r.lfos@ == Seq::<(Waveform, Hz, u32)>::empty(),
{
    Instrument::builder()
        .percussive(Hz(0))
        .osc(Waveform::Noise, 6710886)
        .env(1000, 30000, 0, 0)
        .build()
}

} // verus!
