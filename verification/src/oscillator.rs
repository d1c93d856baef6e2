//! The sine oscillator: a waveform sample from a pitch, a sample index and
//! the render sample rate.
//!
//! The phase is taken from the product of pitch and index, so nothing
//! accumulates and nothing drifts: the same inputs always give the same
//! sample. The sine itself is Bhaskara's rational approximation, which is
//! exact at every quarter of the cycle and within a fifth of a percent of
//! full scale elsewhere.

use crate::types::{NoteFreq, Playhead, GAIN_ONE};
use vstd::arithmetic::div_mod::{
    lemma_div_is_ordered, lemma_div_multiples_vanish, lemma_mod_bound, lemma_small_mod,
};
use vstd::prelude::*;

verus! {

/// Number of micro-hertz in one hertz.
pub const MICRO: u64 = 1_000_000;

/// Number of phase steps in one cycle at `rate` samples per second. Pitch
/// times index counts these steps.
pub open spec fn cycle(rate: u32) -> int {
    rate * MICRO
}

/// Position within the cycle, in phase steps, of sample `index` of a tone of
/// `freq` micro-hertz. Without a sample rate the phase stays at zero.
pub open spec fn phase_of(freq: NoteFreq, index: Playhead, rate: u32) -> int {
    if rate == 0 {
        0
    } else {
        (freq * index) % cycle(rate)
    }
}

/// One arch of the sine over `half` phase steps, in millionths: zero at both
/// ends and unity in the middle.
pub open spec fn arch(p: int, half: int) -> int {
    16 * GAIN_ONE * (p * (half - p)) / (5 * (half * half) - 4 * (p * (half - p)))
}

/// The sine at `phase` steps into a cycle of `2 * half` steps, in
/// millionths: an arch upwards, then the same arch downwards.
pub open spec fn sine(phase: int, half: int) -> int {
    if phase < half {
        arch(phase, half)
    } else {
        -arch(phase - half, half)
    }
}

/// The waveform sample of a tone of `freq` micro-hertz at sample `index`,
/// in millionths of full scale. Without a sample rate there is no sound.
pub open spec fn sample_of(freq: NoteFreq, index: Playhead, rate: u32) -> int {
    if rate == 0 {
        0
    } else {
        sine(phase_of(freq, index, rate), cycle(rate) / 2)
    }
}

/// An arch stays between zero and unity, starts at zero, and has a positive
/// divisor.
pub proof fn lemma_arch_bounds(p: int, half: int)
    requires
        0 <= p <= half,
        0 < half,
    ensures
        0 <= p * (half - p) <= half * half,
        0 < 4 * (half * half) <= 5 * (half * half) - 4 * (p * (half - p)),
        0 <= arch(p, half) <= GAIN_ONE,
        arch(0, half) == 0,
{
    let one = GAIN_ONE as int;
    let q = p * (half - p);
    let d = 5 * (half * half) - 4 * q;
    assert(0 <= q && 4 * q <= half * half && 0 < half * half) by (nonlinear_arith)
        requires
            0 <= p <= half,
            0 < half,
            q == p * (half - p),
    ;
    assert(16 * one * q <= one * d) by (nonlinear_arith)
        requires
            4 * q <= half * half,
            d == 5 * (half * half) - 4 * q,
            one == 1_000_000,
    ;
    assert(0 <= 16 * one * q) by (nonlinear_arith)
        requires
            0 <= q,
            one == 1_000_000,
    ;
    lemma_div_is_ordered(0, 16 * one * q, d);
    lemma_div_is_ordered(16 * one * q, one * d, d);
    assert(one * d == d * one) by (nonlinear_arith);
    lemma_div_multiples_vanish(one, d);
    assert(0int / d == 0) by (nonlinear_arith)
        requires
            0 < d,
    ;
    let d0 = 5 * (half * half) - 4 * (0 * (half - 0));
    assert(16 * one * (0 * (half - 0)) == 0) by (nonlinear_arith);
    assert(0int / d0 == 0) by (nonlinear_arith)
        requires
            0 < d0,
    ;
}

/// In the middle of an arch the sine is at full scale.
pub proof fn lemma_arch_peak(quarter: int)
    requires
        0 < quarter,
    ensures
        arch(quarter, 2 * quarter) == GAIN_ONE,
{
    let one = GAIN_ONE as int;
    let half = 2 * quarter;
    let q = quarter * (half - quarter);
    let d = 5 * (half * half) - 4 * q;
    assert(q == quarter * quarter);
    assert(half * half == 4 * (quarter * quarter)) by (nonlinear_arith)
        requires
            half == 2 * quarter,
    ;
    assert(d == 16 * q);
    assert(0 < q) by (nonlinear_arith)
        requires
            q == quarter * quarter,
            0 < quarter,
    ;
    assert(16 * one * q == d * one) by (nonlinear_arith)
        requires
            d == 16 * q,
    ;
    lemma_div_multiples_vanish(one, d);
}

/// The sine stays within full scale.
pub proof fn lemma_sine_bounds(phase: int, half: int)
    requires
        0 <= phase < 2 * half,
    ensures
        -GAIN_ONE <= sine(phase, half) <= GAIN_ONE,
        sine(0, half) == 0,
{
    if phase < half {
        lemma_arch_bounds(phase, half);
    } else {
        lemma_arch_bounds(phase - half, half);
    }
    lemma_arch_bounds(0, half);
}

/// The sine has the symmetries of a sine: half a cycle later it has the
/// opposite value, and each arch is the mirror image of itself.
pub proof fn lemma_sine_symmetry(phase: int, half: int)
    requires
        0 <= phase < half,
    ensures
        sine(phase + half, half) == -sine(phase, half),
        arch(half - phase, half) == arch(phase, half),
{
    assert((half - phase) * (half - (half - phase)) == phase * (half - phase))
        by (nonlinear_arith);
}

/// A tone starts at zero, whatever its pitch, and every sample of it stays
/// within full scale.
pub proof fn lemma_sample_bounds(freq: NoteFreq, index: Playhead, rate: u32)
    ensures
        -GAIN_ONE <= sample_of(freq, index, rate) <= GAIN_ONE,
        sample_of(freq, 0, rate) == 0,
        rate > 0 ==> 0 <= phase_of(freq, index, rate) < cycle(rate),
        rate > 0 ==> 2 * (cycle(rate) / 2) == cycle(rate),
{
    if rate > 0 {
        let c = cycle(rate);
        assert(c == 2 * (rate * 500_000) && c > 0) by (nonlinear_arith)
            requires
                c == rate * 1_000_000,
                rate > 0,
        ;
        lemma_mod_bound(freq * index, c);
        lemma_sine_bounds(phase_of(freq, index, rate), c / 2);
        assert(freq * 0 == 0);
        lemma_small_mod(0, c as nat);
        lemma_sine_bounds(0, c / 2);
    }
}

/// The oscillator of one voice.
#[derive(Clone, Copy, Debug, PartialEq, Eq, Structural)]
pub struct SineOsc {
    /// Pitch in micro-hertz.
    pub freq: NoteFreq,
}

impl SineOsc {
    /// An oscillator at `freq` micro-hertz.
    pub fn new(freq: NoteFreq) -> (osc: SineOsc)
        ensures
            osc.freq == freq,
    {
        SineOsc { freq }
    }

    /// Position of sample `index` within the cycle, in phase steps.
    pub fn phase(&self, index: Playhead, rate: u32) -> (phase: u64)
        ensures
            phase == phase_of(self.freq, index, rate),
            rate > 0 ==> phase < cycle(rate),
    {
        if rate == 0 {
            return 0;
        }
        proof {
            lemma_sample_bounds(self.freq, index, rate);
            assert(self.freq * index <= 0xFFFF_FFFF_FFFF_FFFF * 0xFFFF_FFFF_FFFF_FFFF)
                by (nonlinear_arith)
                requires
                    0 <= self.freq <= 0xFFFF_FFFF_FFFF_FFFF,
                    0 <= index <= 0xFFFF_FFFF_FFFF_FFFF,
            ;
            assert(rate * MICRO <= 0xFFFF_FFFF * 1_000_000) by (nonlinear_arith)
                requires
                    rate <= 0xFFFF_FFFF,
                    MICRO == 1_000_000,
            ;
        }
        let turns: u128 = (self.freq as u128) * (index as u128);
        let steps: u64 = (rate as u64) * MICRO;
        (turns % (steps as u128)) as u64
    }

    /// The waveform sample at sample `index`, in millionths of full scale.
    pub fn sample(&self, index: Playhead, rate: u32) -> (sample: i32)
        ensures
            sample == sample_of(self.freq, index, rate),
            -GAIN_ONE <= sample <= GAIN_ONE,
    {
        if rate == 0 {
            return 0;
        }
        proof {
            lemma_sample_bounds(self.freq, index, rate);
        }
        let phase: u64 = self.phase(index, rate);
        let half: u64 = (rate as u64) * 500_000;
        assert(half == cycle(rate) / 2 && 0 < half < 0x8_0000_0000_0000) by (nonlinear_arith)
            requires
                half == rate * 500_000,
                cycle(rate) == rate * 1_000_000,
                0 < rate <= 0xFFFF_FFFF,
        ;
        if phase < half {
            half_wave(phase, half) as i32
        } else {
            -(half_wave(phase - half, half) as i32)
        }
    }
}

/// One arch of the sine: the value at `p` steps into an arch of `half` steps.
pub fn half_wave(p: u64, half: u64) -> (value: u32)
    requires
        p <= half,
        0 < half < 0x8_0000_0000_0000,
    ensures
        value == arch(p as int, half as int),
        value <= GAIN_ONE,
{
    proof {
        lemma_arch_bounds(p as int, half as int);
        assert(half * half < 0x8_0000_0000_0000 * 0x8_0000_0000_0000) by (nonlinear_arith)
            requires
                0 < half < 0x8_0000_0000_0000,
        ;
    }
    let h: u128 = half as u128;
    let q: u128 = (p as u128) * ((half - p) as u128);
    let divisor: u128 = 5 * (h * h) - 4 * q;
    let scaled: u128 = 16 * (GAIN_ONE as u128) * q / divisor;
    scaled as u32
}

} // verus!
