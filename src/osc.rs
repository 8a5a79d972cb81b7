//! Oscillators: a phase accumulator read through a waveform.
//!
//! A phase is a `u32` read as a fraction of one cycle (`phase / 2^32`), so it
//! always lies in `[0, 1)` and advancing it wraps modulo one cycle.
use vstd::prelude::*;

use crate::fixed::{scale, scaled, ONE, SCALE_LIMIT};
use crate::Hz;
use vstd::arithmetic::div_mod::{
    lemma_add_mod_noop, lemma_fundamental_div_mod_converse, lemma_mod_bound, lemma_small_mod,
};

verus! {

/// One full cycle of phase.
pub const CYCLE: u64 = 4294967296;

/// Half a cycle of phase.
pub const HALF_CYCLE: u32 = 2147483648;

/// Positions per half cycle at which the sine is evaluated.
pub const SINE_STEPS: u64 = 32768;

/// The shape of an oscillator's output over one cycle.
#[derive(Clone, Copy, Debug, PartialEq, Eq, Structural)]
pub enum Waveform {
    Sine,
    Square,
    Triangle,
    Saw,
    Noise,
}

impl Default for Waveform {
    fn default() -> (r: Waveform)
        ensures
            r == Waveform::Sine,
    {
        Waveform::Sine
    }
}

/// `sin(2π · phase / 2^32)` on the [`ONE`] scale, by Bhaskara's rational
/// approximation: with `u` the position within the half cycle (in `[0, 1)`),
/// the magnitude is `16·u(1-u) / (5 - 4·u(1-u))`, and the second half cycle is
/// negative. The position is taken at `SINE_STEPS` points per half cycle.
pub open spec fn sine_value(phase: u32) -> int {
    let second = phase >= HALF_CYCLE;
    let within = if second { phase - HALF_CYCLE } else { phase as int };
    let h = within / 65536;
    let t = h * (SINE_STEPS - h);
    let m = ONE * 16 * t / (5 * SINE_STEPS * SINE_STEPS - 4 * t);
    if second {
        -m
    } else {
        m
    }
}

/// The value of a waveform at a phase, on the [`ONE`] scale; `noise` is the
/// value a Noise waveform takes.
pub open spec fn wave_value(w: Waveform, phase: u32, noise: int) -> int {
    match w {
        Waveform::Sine => sine_value(phase),
        Waveform::Square => if phase < HALF_CYCLE {
            ONE as int
        } else {
            -ONE
        },
        Waveform::Triangle => {
            let dist = if phase >= HALF_CYCLE {
                phase - HALF_CYCLE
            } else {
                HALF_CYCLE - phase
            };
            ONE - dist / 64
        },
        Waveform::Saw => phase / 128 - ONE,
        Waveform::Noise => noise,
    }
}

fn sine(phase: u32) -> (r: i32)
    ensures
        r == sine_value(phase),
        -ONE <= r <= ONE,
{
    let second = phase >= HALF_CYCLE;
    let within: u32 = if second { phase - HALF_CYCLE } else { phase };
    let h: u64 = (within / 65536) as u64;
    assert(h <= SINE_STEPS);
    assert(h * (SINE_STEPS - h) <= SINE_STEPS * SINE_STEPS) by (nonlinear_arith)
        requires h <= SINE_STEPS;
    let t: u64 = h * (SINE_STEPS - h);
    assert(4 * t <= SINE_STEPS * SINE_STEPS) by (nonlinear_arith)
        requires t == h * (SINE_STEPS - h), h <= SINE_STEPS;
    let den: u64 = 5 * SINE_STEPS * SINE_STEPS - 4 * t;
    let num: u64 = ONE as u64 * 16 * t;
    let m: u64 = num / den;
    assert(m <= ONE) by (nonlinear_arith)
        requires
            m == (num as int) / (den as int),
            num == ONE * 16 * t,
            den == 5 * SINE_STEPS * SINE_STEPS - 4 * t,
            4 * t <= SINE_STEPS * SINE_STEPS,
            den > 0;
    if second {
        -(m as i32)
    } else {
        m as i32
    }
}

impl Waveform {
    /// The waveform's value at `phase`, with `noise` standing for the random
    /// value that a Noise waveform takes.
    pub fn value(&self, phase: u32, noise: i32) -> (r: i32)
        requires
            -ONE <= noise <= ONE,
        ensures
            r == wave_value(*self, phase, noise as int),
            -ONE <= r <= ONE,
    {
        match self {
            Waveform::Sine => sine(phase),
            Waveform::Square => if phase < HALF_CYCLE {
                ONE as i32
            } else {
                -(ONE as i32)
            },
            Waveform::Triangle => {
                let dist: u32 = if phase >= HALF_CYCLE {
                    phase - HALF_CYCLE
                } else {
                    HALF_CYCLE - phase
                };
                ONE as i32 - (dist / 64) as i32
            },
            Waveform::Saw => (phase / 128) as i32 - ONE as i32,
            Waveform::Noise => noise,
        }
    }
}

/// Every waveform stays within full scale at every phase, provided the value
/// drawn for Noise does.
pub proof fn lemma_waveform_range(w: Waveform, phase: u32, noise: int)
    requires
        -ONE <= noise <= ONE,
    ensures
        -ONE <= wave_value(w, phase, noise) <= ONE,
{
    if w == Waveform::Sine {
        let second = phase >= HALF_CYCLE;
        let within = if second { phase - HALF_CYCLE } else { phase as int };
        let h = within / 65536;
        let t = h * (SINE_STEPS - h);
        assert(0 <= h <= SINE_STEPS);
        assert(0 <= 4 * t <= SINE_STEPS * SINE_STEPS) by (nonlinear_arith)
            requires t == h * (SINE_STEPS - h), 0 <= h <= SINE_STEPS;
        let den = 5 * SINE_STEPS * SINE_STEPS - 4 * t;
        let num = ONE * 16 * t;
        assert(0 <= num / den <= ONE) by (nonlinear_arith)
            requires num == ONE * 16 * t, den == 5 * SINE_STEPS * SINE_STEPS - 4 * t,
                0 <= 4 * t <= SINE_STEPS * SINE_STEPS, den > 0;
    }
}

/// Relies on `rand::random_range`: a value drawn from the thread-local
/// generator, uniformly within `lo..=hi`.
#[verifier::external_body]
fn random_in(lo: i32, hi: i32) -> (r: i32)
    requires
        lo <= hi,
    ensures
        lo <= r <= hi,
{
    rand::random_range(lo..=hi)
}

/// The phase advance per sample of a `freq` oscillator at `sample_rate`
/// samples per second, in units of `1 / 2^32` cycle, before wrapping.
pub open spec fn base_increment_of(freq: Hz, sample_rate: int) -> int {
    freq.0 * CYCLE / (sample_rate * 1000)
}

/// `base · (1 + lfo)` with `lfo` on the [`ONE`] scale (rounded toward zero),
/// reduced modulo one cycle.
pub open spec fn modulated_increment(base: int, lfo: int) -> int {
    let m = ONE + lfo;
    let q = if m >= 0 {
        base * m / ONE as int
    } else {
        -(base * (-m) / ONE as int)
    };
    q % (CYCLE as int)
}

/// An oscillator: a waveform read at a phase that advances by `increment`
/// each sample, scaled by `gain`.
#[derive(Clone, Copy, Debug)]
pub struct Osc {
    pub waveform: Waveform,
    pub phase: u32,
    pub base_increment: u64,
    pub increment: u32,
    pub gain: u32,
}

/// Upper bound of an oscillator's unwrapped increment.
pub const MAX_BASE_INCREMENT: u64 = 18446744073709552;

/// What an oscillator outputs at its current phase, given the value a Noise
/// waveform takes.
pub open spec fn osc_output(o: Osc, noise: int) -> int {
    scaled(wave_value(o.waveform, o.phase, noise), o.gain as int)
}

/// The oscillator after one sample: its phase moves on by its increment,
/// modulo one cycle.
pub open spec fn osc_advanced(o: Osc) -> Osc {
    Osc { phase: ((o.phase + o.increment) % (CYCLE as int)) as u32, ..o }
}

/// The oscillator after `n` samples.
pub open spec fn osc_after(o: Osc, n: nat) -> Osc
    decreases n,
{
    if n == 0 {
        o
    } else {
        osc_advanced(osc_after(o, (n - 1) as nat))
    }
}

/// However many samples an oscillator runs, its phase is its starting phase
/// plus that many increments, modulo one cycle: it stays in `[0, 1)` and
/// wrapping adds no drift.
pub proof fn lemma_phase_after(o: Osc, n: nat)
    ensures
        osc_after(o, n).phase as int == (o.phase + n * o.increment) % (CYCLE as int),
        0 <= osc_after(o, n).phase < CYCLE,
        osc_after(o, n) == (Osc { phase: osc_after(o, n).phase, ..o }),
    decreases n,
{
    let c = CYCLE as int;
    if n == 0 {
        lemma_small_mod(o.phase as nat, CYCLE as nat);
    } else {
        let m = (n - 1) as nat;
        lemma_phase_after(o, m);
        let x = o.phase + m * o.increment;
        lemma_add_mod_noop(x, o.increment as int, c);
        lemma_small_mod(o.increment as nat, CYCLE as nat);
        assert(x + o.increment == o.phase + n * o.increment) by (nonlinear_arith)
            requires x == o.phase + m * o.increment, n == m + 1;
        let prev = osc_after(o, m);
        let sum = prev.phase + o.increment;
        assert(sum % c == (x + o.increment) % c);
        lemma_mod_bound(sum, c);
        assert(((sum % c) as u32) as int == sum % c);
    }
}

/// A new oscillator: phase 0, advancing `freq / sample_rate` cycles per sample.
pub open spec fn osc_new(waveform: Waveform, freq: Hz, sample_rate: int, gain: u32) -> Osc {
    let base = base_increment_of(freq, sample_rate);
    Osc {
        waveform,
        phase: 0,
        base_increment: base as u64,
        increment: (base % (CYCLE as int)) as u32,
        gain,
    }
}

impl Osc {
    pub open spec fn wf(&self) -> bool {
        &&& self.gain <= ONE
        &&& self.base_increment <= MAX_BASE_INCREMENT
    }

    /// An oscillator at phase 0 advancing `freq / sample_rate` cycles per sample.
    pub fn new(waveform: Waveform, freq: Hz, sample_rate: u32, gain: u32) -> (r: Osc)
        requires
            sample_rate > 0,
            gain <= ONE,
        ensures
            r.wf(),
            r == osc_new(waveform, freq, sample_rate as int, gain),
    {
        let den: u128 = sample_rate as u128 * 1000;
        let num: u128 = freq.0 as u128 * CYCLE as u128;
        let base: u128 = num / den;
        assert(num <= 0xffff_ffff * CYCLE) by (nonlinear_arith)
            requires num == freq.0 * CYCLE, freq.0 <= 0xffff_ffff;
        assert(base <= (num as int) / 1000) by (nonlinear_arith)
            requires base == (num as int) / (den as int), den >= 1000, num >= 0;
        Osc {
            waveform,
            phase: 0,
            base_increment: base as u64,
            increment: (base % CYCLE as u128) as u32,
            gain,
        }
    }

    /// Sets the increment to the base increment scaled by `1 + lfo` (`lfo` on
    /// the [`ONE`] scale), modulo one cycle.
    pub fn mod_freq(&mut self, lfo: i64)
        requires
            old(self).wf(),
            -SCALE_LIMIT <= lfo <= SCALE_LIMIT,
        ensures
            *final(self) == (Osc {
                increment: modulated_increment(old(self).base_increment as int, lfo as int) as u32,
                ..*old(self)
            }),
    {
        let m: i128 = ONE as i128 + lfo as i128;
        let base: u128 = self.base_increment as u128;
        let mag: u128 = if m >= 0 { m as u128 } else { (-m) as u128 };
        assert(base * mag <= MAX_BASE_INCREMENT * (SCALE_LIMIT + ONE)) by (nonlinear_arith)
            requires base <= MAX_BASE_INCREMENT, mag <= SCALE_LIMIT + ONE, mag >= 0, base >= 0;
        let q: u128 = base * mag / ONE as u128;
        let r: u128 = q % CYCLE as u128;
        if m >= 0 {
            self.increment = r as u32;
        } else if r == 0 {
            proof {
                lemma_fundamental_div_mod_converse(-(q as int), CYCLE as int, -((q as int) / (CYCLE as int)), 0);
            }
            self.increment = 0;
        } else {
            proof {
                lemma_fundamental_div_mod_converse(
                    -(q as int),
                    CYCLE as int,
                    -((q as int) / (CYCLE as int)) - 1,
                    CYCLE - r,
                );
            }
            self.increment = (CYCLE as u128 - r) as u32;
        }
    }

    /// Reads the waveform at the current phase, advances the phase, and
    /// returns the value scaled by the gain. For Noise the value is drawn at
    /// random within full scale.
    pub fn next(&mut self) -> (r: i64)
        requires
            old(self).wf(),
        ensures
            *final(self) == osc_advanced(*old(self)),
            old(self).waveform != Waveform::Noise ==> r == osc_output(*old(self), 0),
            exists|n: int| -ONE <= n <= ONE && r == osc_output(*old(self), n),
            -(old(self).gain as int) <= r <= old(self).gain,
    {
        let noise: i32 = match self.waveform {
            Waveform::Noise => random_in(-(ONE as i32), ONE as i32),
            _ => 0,
        };
        let v = self.waveform.value(self.phase, noise);
        let ghost before = *self;
        proof {
            lemma_scaled_bound(v as int, self.gain as int);
        }
        self.phase = self.phase.wrapping_add(self.increment);
        let r = scale(v as i64, self.gain);
        assert(r == osc_output(before, noise as int));
        r
    }
}

/// A full-scale value scaled by `gain` stays within `gain`.
pub proof fn lemma_scaled_bound(v: int, gain: int)
    requires
        -ONE <= v <= ONE,
        0 <= gain <= ONE,
    ensures
        -gain <= scaled(v, gain) <= gain,
{
    if v >= 0 {
        assert(v * gain / (ONE as int) <= gain) by (nonlinear_arith)
            requires 0 <= v <= ONE, 0 <= gain;
        assert(v * gain / (ONE as int) >= 0) by (nonlinear_arith)
            requires 0 <= v, 0 <= gain;
    } else {
        assert((-v) * gain / (ONE as int) <= gain) by (nonlinear_arith)
            requires 0 < -v <= ONE, 0 <= gain;
        assert((-v) * gain / (ONE as int) >= 0) by (nonlinear_arith)
            requires 0 <= -v, 0 <= gain;
    }
}

} // verus!
