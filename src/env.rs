//! The ADSR amplitude envelope.
use vstd::prelude::*;

use crate::fixed::ONE;

verus! {

/// Microseconds per second: envelope times are given in microseconds.
pub const MICROS: u64 = 1000000;

/// Below this amplitude (0.001 of full scale) a releasing envelope stops.
pub const RELEASE_FLOOR: u32 = 16777;

/// The shape of an ADSR envelope. Times are in microseconds; `sustain` is an
/// amplitude on the [`ONE`] scale; `hold` says whether the sound stays at the
/// sustain level until released.
#[derive(Clone, Copy, Debug, PartialEq, Eq, Structural)]
pub struct Shape {
    pub attack: u32,
    pub decay: u32,
    pub sustain: u32,
    pub release: u32,
    pub hold: bool,
}

impl Shape {
    pub open spec fn wf(&self) -> bool {
        self.sustain <= ONE
    }
}

/// The shape used when none is given: 10 ms attack, 20 ms decay, sustain at
/// 0.8, 200 ms release, held.
pub open spec fn default_shape() -> Shape {
    Shape { attack: 10000, decay: 20000, sustain: 13421773, release: 200000, hold: true }
}

impl Default for Shape {
    fn default() -> (r: Shape)
        ensures
            r == default_shape(),
    {
        Shape { attack: 10000, decay: 20000, sustain: 13421773, release: 200000, hold: true }
    }
}

/// The stage an envelope is in.
#[derive(Clone, Copy, Debug, PartialEq, Eq, Structural)]
pub enum State {
    Attack,
    Decay,
    Sustain,
    Release,
    Finished,
}

/// A running ADSR envelope.
#[derive(Clone, Copy, Debug)]
pub struct Env {
    pub shape: Shape,
    pub state: State,
    pub amp: u32,
}

/// `n / d` rounded up.
pub open spec fn ceil_div(n: int, d: int) -> int {
    (n + d - 1) / d
}

/// How much one sample of `1 / rate` seconds adds to the amplitude in Attack.
pub open spec fn attack_step(shape: Shape, rate: int) -> int {
    ceil_div(ONE * MICROS, rate * shape.attack)
}

/// How much one sample takes off the amplitude in Decay.
pub open spec fn decay_step(shape: Shape, rate: int) -> int {
    ceil_div((ONE - shape.sustain) * MICROS, rate * shape.decay)
}

/// Scale of the intermediate values of [`decay_factor`]: `2^40` stands for 1.
pub const EXP_ONE: u128 = 1099511627776;

/// Halvings of the exponent before the series is taken (`2^10`).
pub const EXP_HALVINGS: u128 = 1024;

/// `EXP_ONE · e^(-t / EXP_ONE)` for `0 <= t <= EXP_ONE / 32`, by the series
/// `1 - u + u²/2 - u³/6 + u⁴/24` on the [`EXP_ONE`] scale.
pub open spec fn exp_series(t: int) -> int {
    let p = EXP_ONE as int;
    let t2 = t * t / p;
    let t3 = t2 * t / p;
    let t4 = t3 * t / p;
    p + t2 / 2 + t4 / 24 - t - t3 / 6
}

/// `e` squared `k` times on the [`EXP_ONE`] scale.
pub open spec fn squared(e: int, k: nat) -> int
    decreases k,
{
    if k == 0 {
        e
    } else {
        let s = squared(e, (k - 1) as nat);
        s * s / EXP_ONE as int
    }
}

/// `e^(-num / den)` on the [`ONE`] scale, kept within `[1, ONE - 1]`. The
/// exponent is divided by `2^10`, the series taken, and the result squared
/// ten times; below `e^-17` (under one unit) the result is 1. Within the
/// clamp it is at most two units from `ONE · e^(-num / den)`.
pub open spec fn decay_factor(num: int, den: int) -> int {
    if num >= 17 * den {
        1
    } else {
        let t = num * EXP_ONE / (den * EXP_HALVINGS);
        let v = squared(exp_series(t), 10) * ONE / EXP_ONE as int;
        if v < 1 {
            1
        } else if v >= ONE {
            ONE - 1
        } else {
            v
        }
    }
}

/// The per-sample release factor, on the [`ONE`] scale: `e^(-dt / release)`
/// for `dt = 1 / rate`, as [`decay_factor`] gives it.
pub open spec fn release_factor(shape: Shape, rate: int) -> int {
    decay_factor(MICROS as int, rate * shape.release)
}

/// The envelope after one step of `1 / rate` seconds.
pub open spec fn env_next(e: Env, rate: int) -> Env {
    match e.state {
        State::Attack => {
            let a = if e.shape.attack > 0 {
                e.amp + attack_step(e.shape, rate)
            } else {
                ONE as int
            };
            if a >= ONE {
                Env { amp: ONE, state: State::Decay, ..e }
            } else {
                Env { amp: a as u32, ..e }
            }
        },
        State::Decay => {
            let a = if e.shape.decay > 0 {
                e.amp - decay_step(e.shape, rate)
            } else {
                e.amp as int
            };
            if a <= e.shape.sustain {
                Env {
                    amp: e.shape.sustain,
                    state: if e.shape.hold {
                        State::Sustain
                    } else {
                        State::Release
                    },
                    ..e
                }
            } else {
                Env { amp: a as u32, ..e }
            }
        },
        State::Sustain => e,
        State::Release => {
            let a = if e.shape.release > 0 {
                e.amp * release_factor(e.shape, rate) / ONE as int
            } else {
                e.amp as int
            };
            if a <= RELEASE_FLOOR {
                Env { amp: 0, state: State::Finished, ..e }
            } else {
                Env { amp: a as u32, ..e }
            }
        },
        State::Finished => e,
    }
}

/// The envelope after a note-off: any stage but Finished moves to Release.
pub open spec fn env_note_off(e: Env) -> Env {
    if e.state != State::Finished {
        Env { state: State::Release, ..e }
    } else {
        e
    }
}

/// The envelope after `n` steps of `1 / rate` seconds.
pub open spec fn env_after(e: Env, rate: int, n: nat) -> Env
    decreases n,
{
    if n == 0 {
        e
    } else {
        env_after(env_next(e, rate), rate, (n - 1) as nat)
    }
}

/// `amount · MICROS / (rate · duration)` rounded up: the share of `amount`
/// covered by one sample of `1 / rate` seconds within `duration` microseconds.
fn per_sample(amount: u32, rate: u32, duration: u32) -> (r: u64)
    requires
        rate > 0,
        duration > 0,
    ensures
        r == ceil_div(amount * MICROS, rate * duration),
        r <= amount * MICROS,
{
    assert(amount as int * MICROS as int <= 0xffff_ffff * 1000000) by (nonlinear_arith)
        requires amount <= 0xffff_ffff, amount >= 0, MICROS == 1000000;
    let n: u128 = amount as u128 * MICROS as u128;
    assert(rate as int * duration as int >= 1) by (nonlinear_arith)
        requires rate >= 1, duration >= 1;
    assert(rate as int * duration as int <= 0xffff_ffff * 0xffff_ffff) by (nonlinear_arith)
        requires rate <= 0xffff_ffff, duration <= 0xffff_ffff, rate >= 0, duration >= 0;
    let d: u128 = rate as u128 * duration as u128;
    let q: u128 = (n + d - 1) / d;
    assert(q <= n) by (nonlinear_arith)
        requires q == (n + d - 1) / (d as int), d >= 1, n >= 0;
    q as u64
}

/// One step keeps an envelope well formed.
pub proof fn lemma_env_next_wf(e: Env, rate: int)
    requires
        e.wf(),
        rate > 0,
    ensures
        env_next(e, rate).wf(),
{
    let sh = e.shape;
    if e.state == State::Attack && sh.attack > 0 {
        assert(attack_step(sh, rate) >= 0) by (nonlinear_arith)
            requires rate > 0, sh.attack > 0;
    }
    if e.state == State::Decay && sh.decay > 0 {
        assert(decay_step(sh, rate) >= 0) by (nonlinear_arith)
            requires rate > 0, sh.decay > 0, sh.sustain <= ONE;
    }
    if e.state == State::Release && sh.release > 0 {
        let f = release_factor(sh, rate);
        assert(0 <= f <= ONE);
        assert(e.amp * f / ONE as int <= e.amp) by (nonlinear_arith)
            requires 0 <= f <= ONE, e.amp >= 0;
        assert(e.amp * f / ONE as int >= 0) by (nonlinear_arith)
            requires 0 <= f, e.amp >= 0;
    }
}

/// The envelope stays well formed over any number of steps.
pub proof fn lemma_env_after_wf(e: Env, rate: int, n: nat)
    requires
        e.wf(),
        rate > 0,
    ensures
        env_after(e, rate, n).wf(),
        env_after(e, rate, n).shape == e.shape,
    decreases n,
{
    if n > 0 {
        lemma_env_next_wf(e, rate);
        lemma_env_after_wf(env_next(e, rate), rate, (n - 1) as nat);
    }
}

/// In Attack the amplitude never falls, and never passes full scale.
pub proof fn lemma_attack_rises(e: Env, rate: int)
    requires
        e.wf(),
        rate > 0,
        e.state == State::Attack,
    ensures
        e.amp <= env_next(e, rate).amp <= ONE,
{
    if e.shape.attack > 0 {
        assert(attack_step(e.shape, rate) >= 0) by (nonlinear_arith)
            requires rate > 0, e.shape.attack > 0;
    }
}

/// In Decay the amplitude never rises, and never falls below the sustain level.
pub proof fn lemma_decay_falls(e: Env, rate: int)
    requires
        e.wf(),
        rate > 0,
        e.state == State::Decay,
    ensures
        e.shape.sustain <= env_next(e, rate).amp <= e.amp,
{
    lemma_env_next_wf(e, rate);
    if e.shape.decay > 0 {
        assert(decay_step(e.shape, rate) >= 0) by (nonlinear_arith)
            requires rate > 0, e.shape.decay > 0, e.shape.sustain <= ONE;
    }
}

/// A releasing envelope whose amplitude is below `n` is finished after `n`
/// steps.
proof fn lemma_release_within(e: Env, rate: int, n: nat)
    requires
        e.wf(),
        rate > 0,
        e.shape.release > 0,
        e.state == State::Release || e.state == State::Finished,
        e.amp < n,
    ensures
        env_after(e, rate, n).state == State::Finished,
    decreases n,
{
    let next = env_next(e, rate);
    lemma_env_next_wf(e, rate);
    if e.state == State::Release {
        let f = release_factor(e.shape, rate);
        assert(1 <= f < ONE);
        if e.amp > 0 {
            assert(e.amp * f / (ONE as int) < e.amp) by (nonlinear_arith)
                requires 0 <= f < ONE, e.amp > 0;
        }
        assert(next.state == State::Finished || next.amp < e.amp);
    }
    if n > 1 {
        lemma_release_within(next, rate, (n - 1) as nat);
    } else {
        assert(next.state == State::Finished);
    }
}

/// Whatever point a note-off comes at, an envelope with a positive release
/// time reaches Finished: from the start of its attack, after any number of
/// steps, a note-off and then `ONE + 1` more steps leave it finished.
pub proof fn lemma_envelope_terminates(shape: Shape, rate: int, steps: nat)
    requires
        shape.wf(),
        rate > 0,
        shape.release > 0,
    ensures
        env_after(
            env_note_off(env_after(Env { shape, state: State::Attack, amp: 0 }, rate, steps)),
            rate,
            (ONE + 1) as nat,
        ).state == State::Finished,
{
    let start = Env { shape, state: State::Attack, amp: 0 };
    lemma_env_after_wf(start, rate, steps);
    let released = env_note_off(env_after(start, rate, steps));
    lemma_release_within(released, rate, (ONE + 1) as nat);
}

/// The release factor for `1 / rate` seconds of a `release` microsecond
/// release.
fn release_factor_of(rate: u32, release: u32) -> (r: u64)
    requires
        rate > 0,
        release > 0,
    ensures
        r == decay_factor(MICROS as int, rate * release),
        1 <= r < ONE,
{
    let p: u128 = EXP_ONE;
    let num: u128 = MICROS as u128;
    assert(rate as int * release as int >= 1) by (nonlinear_arith)
        requires rate >= 1, release >= 1;
    assert(rate as int * release as int <= 0xffff_ffff * 0xffff_ffff) by (nonlinear_arith)
        requires rate <= 0xffff_ffff, release <= 0xffff_ffff, rate >= 0, release >= 0;
    let den: u128 = rate as u128 * release as u128;
    if num >= 17 * den {
        return 1;
    }
    let t: u128 = num * p / (den * EXP_HALVINGS);
    assert(t * 60 <= p) by (nonlinear_arith)
        requires
            t == (num * p) / (den * EXP_HALVINGS) as int,
            num < 17 * den,
            den >= 1,
            p == EXP_ONE,
            EXP_HALVINGS == 1024;
    assert(t * t <= p * p) by (nonlinear_arith)
        requires t * 60 <= p, t >= 0;
    let t2: u128 = t * t / p;
    assert(t2 * 60 <= t) by (nonlinear_arith)
        requires t2 == (t * t) / (p as int), t * 60 <= p, t >= 0, p > 0;
    assert(t2 * t <= p * p) by (nonlinear_arith)
        requires t2 <= t, t * 60 <= p, t2 >= 0, t >= 0;
    let t3: u128 = t2 * t / p;
    assert(t2 <= t);
    assert(t3 <= t2) by (nonlinear_arith)
        requires t3 == (t2 * t) / (p as int), t <= p, t2 >= 0, t >= 0, p > 0;
    assert(t3 * t <= p * p) by (nonlinear_arith)
        requires t3 <= t, t * 60 <= p, t3 >= 0, t >= 0;
    let t4: u128 = t3 * t / p;
    assert(t4 <= t3) by (nonlinear_arith)
        requires t4 == (t3 * t) / (p as int), t <= p, t3 >= 0, t >= 0, p > 0;
    let mut e: u128 = p + t2 / 2 + t4 / 24 - t - t3 / 6;
    assert(e == exp_series(t as int));
    let mut i: usize = 0;
    while i < 10
        invariant
            i <= 10,
            p == EXP_ONE,
            e <= p,
            e == squared(exp_series(t as int), i as nat),
        decreases 10 - i,
    {
        assert(e * e / (p as int) <= e) by (nonlinear_arith)
            requires e <= p, e >= 0, p > 0;
        e = e * e / p;
        i = i + 1;
    }
    assert(e * (ONE as int) / (p as int) <= ONE) by (nonlinear_arith)
        requires e <= p, e >= 0, p > 0;
    let v: u128 = e * ONE as u128 / p;
    if v < 1 {
        1
    } else if v >= ONE as u128 {
        ONE as u64 - 1
    } else {
        v as u64
    }
}

impl Env {
    pub open spec fn wf(&self) -> bool {
        &&& self.shape.wf()
        &&& self.amp <= ONE
        &&& self.state == State::Decay ==> self.amp >= self.shape.sustain
        &&& self.state == State::Sustain ==> self.amp == self.shape.sustain
        &&& self.state == State::Finished ==> self.amp == 0
    }

    pub fn new(shape: Shape) -> (r: Env)
        ensures
            r == (Env { shape, state: State::Attack, amp: 0 }),
    {
        Env { shape, state: State::Attack, amp: 0 }
    }

    /// Starts the release from whatever amplitude the envelope has reached.
    pub fn note_off(&mut self)
        ensures
            *final(self) == env_note_off(*old(self)),
    {
        if self.state != State::Finished {
            self.state = State::Release;
        }
    }

    /// Advances the envelope by one sample of `1 / sample_rate` seconds and
    /// returns the new amplitude.
    pub fn next(&mut self, sample_rate: u32) -> (r: u32)
        requires
            old(self).wf(),
            sample_rate > 0,
        ensures
            *final(self) == env_next(*old(self), sample_rate as int),
            final(self).wf(),
            r == final(self).amp,
    {
        match self.state {
            State::Attack => {
                let a: u64 = if self.shape.attack > 0 {
                    self.amp as u64 + per_sample(ONE, sample_rate, self.shape.attack)
                } else {
                    ONE as u64
                };
                if a >= ONE as u64 {
                    self.amp = ONE;
                    self.state = State::Decay;
                } else {
                    self.amp = a as u32;
                }
            },
            State::Decay => {
                if self.shape.decay > 0 {
                    let step = per_sample(ONE - self.shape.sustain, sample_rate, self.shape.decay);
                    if step + self.shape.sustain as u64 >= self.amp as u64 {
                        self.amp = self.shape.sustain;
                        self.state = if self.shape.hold {
                            State::Sustain
                        } else {
                            State::Release
                        };
                    } else {
                        self.amp = self.amp - step as u32;
                    }
                } else if self.amp <= self.shape.sustain {
                    self.amp = self.shape.sustain;
                    self.state = if self.shape.hold {
                        State::Sustain
                    } else {
                        State::Release
                    };
                }
            },
            State::Sustain => {},
            State::Release => {
                let a: u64 = if self.shape.release > 0 {
                    let factor = release_factor_of(sample_rate, self.shape.release);
                    assert(self.amp as int * factor <= ONE as int * ONE as int) by (nonlinear_arith)
                        requires self.amp <= ONE, factor <= ONE, factor >= 0;
                    assert(self.amp as int * factor / ONE as int <= self.amp) by (nonlinear_arith)
                        requires factor <= ONE, self.amp >= 0, factor >= 0;
                    self.amp as u64 * factor / ONE as u64
                } else {
                    self.amp as u64
                };
                if a <= RELEASE_FLOOR as u64 {
                    self.amp = 0;
                    self.state = State::Finished;
                } else {
                    self.amp = a as u32;
                }
            },
            State::Finished => {},
        }
        self.amp
    }

    pub fn is_finished(&self) -> (r: bool)
        ensures
            r == (self.state == State::Finished),
    {
        self.state == State::Finished
    }
}

} // verus!
