//! The timing model: conversion from a musical position on the fixed
//! 192-ticks-per-measure grid to milliseconds, and from milliseconds to the
//! engine's tempo-scaled integer delta-time unit.
//!
//! Milliseconds per beat are `60000 / bpm` (integer division, quarter-note
//! beats); a measure is four beats (fixed 4/4); a tick is 1/192 of a
//! measure. Every conversion truncates toward zero; a value beyond the
//! 32-bit range is clamped to `u32::MAX`, as a float-to-integer cast would
//! clamp it.

use vstd::prelude::*;

verus! {

use vstd::arithmetic::div_mod::lemma_div_is_ordered;
use vstd::arithmetic::mul::lemma_mul_inequality;

/// A value clamped to the `u32` range from above.
pub open spec fn sat32(v: int) -> int {
    if v > u32::MAX {
        u32::MAX as int
    } else {
        v
    }
}

/// Whole milliseconds in one measure: four quarter-note beats of
/// `60000 / bpm` milliseconds each.
pub open spec fn ms_per_measure(bpm: u32) -> int {
    (60000 as int / bpm as int) * 4
}

/// Exact millisecond value of a grid position, truncated toward zero:
/// whole measures plus the truncated fractional-tick contribution.
pub open spec fn ms_exact(measure: int, tick: int, bpm: u32) -> int {
    measure * ms_per_measure(bpm) + tick * ms_per_measure(bpm) / 192
}

/// Exact delta-time value of a millisecond count: `ms * 0.008 * bpm`
/// truncated toward zero, written over integers as `ms * bpm / 125`.
pub open spec fn dt_exact(ms: int, bpm: int) -> int {
    ms * bpm / 125
}

/// Milliseconds at `(measure, tick)` of a chart played at `bpm`, clamped to
/// the `u32` range.
pub fn measure_tick_to_ms(measure: u32, tick: u32, bpm: u32) -> (r: u32)
    requires
        bpm >= 1,
    ensures
        r == sat32(ms_exact(measure as int, tick as int, bpm)),
{
    let mpb: u32 = 60000 / bpm;
    let mpm: u32 = mpb * 4;
    assert(mpm == ms_per_measure(bpm));
    assert(measure as int * mpm as int <= 0xffff_ffff * 240000) by (nonlinear_arith)
        requires
            measure <= 0xffff_ffff,
            mpm <= 240000,
            0 <= measure as int,
            0 <= mpm as int,
    ;
    assert(tick as int * mpm as int <= 0xffff_ffff * 240000) by (nonlinear_arith)
        requires
            tick <= 0xffff_ffff,
            mpm <= 240000,
            0 <= tick as int,
            0 <= mpm as int,
    ;
    let whole: u64 = (measure as u64) * (mpm as u64);
    let frac: u64 = ((tick as u64) * (mpm as u64)) / 192;
    assert(frac <= 0xffff_ffff * 240000) by {
        lemma_div_is_ordered(tick as int * mpm as int, (0xffff_ffff * 240000 * 192) as int, 192);
    }
    let total: u64 = whole + frac;
    if total > 0xffff_ffff {
        u32::MAX
    } else {
        total as u32
    }
}

/// Delta-time units for `ms` milliseconds at `bpm`, clamped to the `u32`
/// range.
pub fn ms_to_dt(ms: u32, bpm: u32) -> (r: u32)
    ensures
        r == sat32(dt_exact(ms as int, bpm as int)),
{
    assert(ms as int * bpm as int <= 0xffff_ffff * 0xffff_ffff) by (nonlinear_arith)
        requires
            0 <= ms as int <= 0xffff_ffff,
            0 <= bpm as int <= 0xffff_ffff,
    ;
    let p: u64 = (ms as u64) * (bpm as u64);
    let d: u64 = p / 125;
    if d > 0xffff_ffff {
        u32::MAX
    } else {
        d as u32
    }
}

/// For a fixed tempo, the millisecond conversion is non-decreasing in
/// `(measure, tick)` lexicographic order, for positions whose tick lies on
/// the 192-slot grid.
pub proof fn lemma_ms_monotone(m1: int, t1: int, m2: int, t2: int, bpm: u32)
    requires
        bpm >= 1,
        0 <= m1,
        0 <= t1,
        0 <= t2,
        (m1 < m2 && t1 < 192) || (m1 == m2 && t1 <= t2),
    ensures
        ms_exact(m1, t1, bpm) <= ms_exact(m2, t2, bpm),
        sat32(ms_exact(m1, t1, bpm)) <= sat32(ms_exact(m2, t2, bpm)),
{
    let mpm = ms_per_measure(bpm);
    assert(mpm >= 0);
    if m1 == m2 {
        lemma_mul_inequality(t1, t2, mpm);
        lemma_div_is_ordered(t1 * mpm, t2 * mpm, 192);
    } else {
        lemma_mul_inequality(t1, 192, mpm);
        lemma_div_is_ordered(t1 * mpm, 192 * mpm, 192);
        assert(192 * mpm / 192 == mpm) by (nonlinear_arith);
        assert(t1 * mpm / 192 <= mpm);
        lemma_mul_inequality(m1 + 1, m2, mpm);
        assert((m1 + 1) * mpm == m1 * mpm + mpm) by (nonlinear_arith);
        assert(t2 * mpm >= 0) by (nonlinear_arith)
            requires
                0 <= t2,
                0 <= mpm,
        ;
        lemma_div_is_ordered(0, t2 * mpm, 192);
    }
}

/// For a fixed tempo, the delta-time conversion is non-decreasing in the
/// millisecond value.
pub proof fn lemma_dt_monotone(ms1: int, ms2: int, bpm: int)
    requires
        0 <= ms1 <= ms2,
        0 <= bpm,
    ensures
        dt_exact(ms1, bpm) <= dt_exact(ms2, bpm),
        sat32(dt_exact(ms1, bpm)) <= sat32(dt_exact(ms2, bpm)),
{
    lemma_mul_inequality(ms1, ms2, bpm);
    lemma_div_is_ordered(ms1 * bpm, ms2 * bpm, 125);
}

} // verus!
