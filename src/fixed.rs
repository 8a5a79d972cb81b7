//! Fixed-point arithmetic shared by the signal chain.
//!
//! Amplitudes, gains and sample values are integers on a scale where [`ONE`]
//! stands for 1.0.
use vstd::prelude::*;

verus! {

/// Full scale: the integer that stands for an amplitude of 1.0.
pub const ONE: u32 = 16777216;

/// Largest magnitude accepted by [`scale`] (2^39, room for many summed voices).
pub const SCALE_LIMIT: i64 = 549755813888;

/// `x · f` with `f` read on the [`ONE`] scale, rounded toward zero.
pub open spec fn scaled(x: int, f: int) -> int {
    if x >= 0 {
        x * f / ONE as int
    } else {
        -((-x) * f / ONE as int)
    }
}

/// Multiplies `x` by the fraction `f / ONE`, rounding toward zero.
pub fn scale(x: i64, f: u32) -> (r: i64)
    requires
        -SCALE_LIMIT <= x <= SCALE_LIMIT,
        f <= ONE,
    ensures
        r == scaled(x as int, f as int),
        -SCALE_LIMIT <= r <= SCALE_LIMIT,
        x >= 0 ==> 0 <= r <= x,
        x < 0 ==> x <= r <= 0,
{
    let m: u64 = if x >= 0 { x as u64 } else { (-x) as u64 };
    proof {
        assert(m as int * f as int <= SCALE_LIMIT as int * ONE as int) by (nonlinear_arith)
            requires m <= SCALE_LIMIT, f <= ONE, m >= 0, f >= 0;
        assert(m as int * f as int / ONE as int <= m as int) by (nonlinear_arith)
            requires f <= ONE, m >= 0, f >= 0;
        assert(m as int * f as int / ONE as int >= 0) by (nonlinear_arith)
            requires m >= 0, f >= 0;
    }
    let q: u64 = m * (f as u64) / (ONE as u64);
    if x >= 0 {
        q as i64
    } else {
        -(q as i64)
    }
}

} // verus!
