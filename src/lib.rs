//! A polyphonic software synthesizer with a step sequencer, in fixed-point
//! arithmetic.
use vstd::prelude::*;
use vstd::arithmetic::power2::{
    lemma2_to64, lemma_pow2_pos, lemma_pow2_strictly_increases, lemma_pow2_unfold, pow2,
};

pub mod env;
pub mod event;
pub mod fixed;
pub mod kbd;
pub mod osc;
pub mod preset;
pub mod sequencer;
pub mod synth;
pub mod voice;

verus! {

/// A frequency, in millihertz (440 Hz is `Hz(440_000)`).
#[derive(Clone, Copy, Debug, PartialEq, Eq, Structural)]
pub struct Hz(pub u32);

/// Lowest semitone offset from A4 that [`Hz::from_pitch_std`] accepts.
pub const PITCH_MIN: i32 = -120;

/// Highest semitone offset from A4 that [`Hz::from_pitch_std`] accepts.
pub const PITCH_MAX: i32 = 120;

/// `2^(k/12)` for `0 <= k < 12`, in millionths, rounded to nearest.
pub open spec fn semitone_ratio(k: int) -> int {
    if k == 0 {
        1000000
    } else if k == 1 {
        1059463
    } else if k == 2 {
        1122462
    } else if k == 3 {
        1189207
    } else if k == 4 {
        1259921
    } else if k == 5 {
        1334840
    } else if k == 6 {
        1414214
    } else if k == 7 {
        1498307
    } else if k == 8 {
        1587401
    } else if k == 9 {
        1681793
    } else if k == 10 {
        1781797
    } else {
        1887749
    }
}

/// The equal-tempered frequency `s` semitones away from A4 = 440 Hz, in
/// millihertz: the semitone within the octave comes from the ratio table, the
/// octave is a power of two (rounded down when it divides).
pub open spec fn pitch_millihertz(s: int) -> int {
    let octave = s / 12;
    let base = 440000 * semitone_ratio(s % 12) / 1000000;
    if octave >= 0 {
        base * (pow2(octave as nat) as int)
    } else {
        base / (pow2((-octave) as nat) as int)
    }
}

fn ratio_of(k: u32) -> (r: u64)
    requires
        k < 12,
    ensures
        r == semitone_ratio(k as int),
{
    let table: [u64; 12] = [
        1000000,
        1059463,
        1122462,
        1189207,
        1259921,
        1334840,
        1414214,
        1498307,
        1587401,
        1681793,
        1781797,
        1887749,
    ];
    table[k as usize]
}

/// `2^n` for small `n`.
fn power_of_two(n: u32) -> (r: u64)
    requires
        n <= 10,
    ensures
        r == pow2(n as nat),
        r <= 1024,
{
    let mut r: u64 = 1;
    let mut i: u32 = 0;
    proof {
        lemma2_to64();
    }
    while i < n
        invariant
            i <= n <= 10,
            r == pow2(i as nat),
            pow2(10) == 1024,
        decreases n - i,
    {
        proof {
            lemma_pow2_unfold((i + 1) as nat);
            if i + 1 < 10 {
                lemma_pow2_strictly_increases((i + 1) as nat, 10);
            }
        }
        r = r * 2;
        i = i + 1;
    }
    r
}

impl Hz {
    /// The equal-tempered frequency `semitones` away from A4 = 440 Hz.
    pub fn from_pitch_std(semitones: i32) -> (r: Hz)
        requires
            PITCH_MIN <= semitones <= PITCH_MAX,
        ensures
            r.0 == pitch_millihertz(semitones as int),
    {
        let shifted: u32 = (semitones + 120) as u32;
        let k: u32 = shifted % 12;
        let octave_up: u32 = shifted / 12;
        assert(semitones as int % 12 == k as int);
        assert(semitones as int / 12 == octave_up as int - 10);
        let base: u64 = 440000 * ratio_of(k) / 1000000;
        assert(base <= 830610);
        if octave_up >= 10 {
            let p = power_of_two(octave_up - 10);
            assert(base * p <= 830610 * 1024) by (nonlinear_arith)
                requires base <= 830610, p <= 1024;
            Hz((base * p) as u32)
        } else {
            let p = power_of_two(10 - octave_up);
            proof {
                lemma_pow2_pos((10 - octave_up) as nat);
            }
            Hz((base / p) as u32)
        }
    }
}

} // verus!
