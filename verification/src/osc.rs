//! The oscillator: a pure function from (instrument, sample index, frequency)
//! to a fixed-point amplitude, evaluated in exact integer arithmetic.
//!
//! Amplitudes are scaled so that [`AMPLITUDE_UNIT`] stands for 1.0. At sample
//! `i` of a rate-`rate` render, a note of `freq_mhz` millihertz has completed
//! exactly `freq_mhz * i / (1000 * rate)` periods; the fractional part of
//! that ratio is carried as an exact remainder, so the square and saw
//! waveforms are computed without any rounding. The sine waveform reads one
//! period from a caller-supplied [`SineTable`], the library's stand-in for
//! the transcendental sine.

use vstd::arithmetic::div_mod::{
    lemma_div_is_ordered, lemma_div_pos_is_pos, lemma_fundamental_div_mod,
    lemma_fundamental_div_mod_converse, lemma_mod_division_less_than_divisor,
    lemma_multiply_divide_lt,
};
use vstd::arithmetic::mul::{lemma_mul_nonnegative, lemma_mul_upper_bound};
use vstd::prelude::*;

use crate::song::Instrument;

verus! {

/// Fixed-point amplitude scale: this value stands for an amplitude of 1.0,
/// and is also the largest magnitude the oscillator ever returns.
pub const AMPLITUDE_UNIT: i32 = 32767;

/// One full period of the sine waveform, sampled at evenly spaced phases and
/// quantized to the fixed-point amplitude scale. The renderer looks phases
/// up here instead of computing a transcendental function.
pub struct SineTable {
    pub samples: Vec<i16>,
}

impl SineTable {
    /// A valid table has at least one entry, starts at phase 0 with
    /// amplitude 0 (the sine of 0), and stays within the amplitude scale.
    pub open spec fn wf(self) -> bool {
        &&& self.samples@.len() >= 1
        &&& self.samples@[0] == 0i16
        &&& forall|k: int|
            0 <= k < self.samples@.len() ==> -32767 <= #[trigger] self.samples@[k] <= 32767
    }

    /// Validates and wraps one period of sine samples; `None` exactly when
    /// the samples do not form a valid table.
    pub fn new(samples: Vec<i16>) -> (r: Option<SineTable>)
        ensures
            match r {
                Some(t) => t.wf() && t.samples@ == samples@,
                None => !(SineTable { samples }).wf(),
            },
    {
        if samples.len() == 0 {
            return None;
        }
        if samples[0] != 0 {
            return None;
        }
        let mut k: usize = 0;
        while k < samples.len()
            invariant
                k <= samples@.len(),
                forall|j: int| 0 <= j < k ==> -32767 <= #[trigger] samples@[j] <= 32767,
            decreases samples@.len() - k,
        {
            let v: i16 = samples[k];
            if v < -32767 {
                return None;
            }
            k += 1;
        }
        Some(SineTable { samples })
    }
}

/// The denominator of the exact phase ratio `freq_mhz * i / (1000 * rate)`.
pub open spec fn period_denominator(rate: u32) -> int {
    1000 * rate
}

/// The exact fractional phase at sample `i`, as a remainder against
/// [`period_denominator`]: `phase_rem / period_denominator` is the position
/// within the current waveform period, in `[0, 1)`.
pub open spec fn phase_rem(freq_mhz: u64, i: int, rate: u32) -> int {
    (freq_mhz * i) % period_denominator(rate)
}

/// The amplitude of `instrument` at sample `i`, on the fixed-point scale:
/// - sine: the table entry for the current fractional phase;
/// - square: plus full scale while the number of completed half-periods is
///   even, minus full scale while it is odd;
/// - saw: a rising ramp, `2 * frac - 1` scaled by [`AMPLITUDE_UNIT`] and
///   rounded down, restarting at every period boundary.
pub open spec fn spec_eval(
    instrument: Instrument,
    i: int,
    rate: u32,
    freq_mhz: u64,
    table: Seq<i16>,
) -> int {
    let p = period_denominator(rate);
    match instrument {
        Instrument::Sine => table[table.len() * phase_rem(freq_mhz, i, rate) / p] as int,
        Instrument::Square => if ((2 * freq_mhz * i) / p) % 2 == 0 {
            32767
        } else {
            -32767
        },
        Instrument::Saw => 32767 * (2 * phase_rem(freq_mhz, i, rate) - p) / p,
    }
}

/// Evaluates `instrument` at sample `i`, exactly as [`spec_eval`] states;
/// the result never leaves the fixed-point amplitude range.
pub fn eval(instrument: Instrument, i: u64, rate: u32, freq_mhz: u64, table: &SineTable) -> (r:
    i32)
    requires
        rate >= 1,
        freq_mhz >= 1,
        table.wf(),
    ensures
        r == spec_eval(instrument, i as int, rate, freq_mhz, table.samples@),
        -32767 <= r <= 32767,
{
    let period: u128 = 1000 * (rate as u128);
    proof {
        lemma_mul_upper_bound(freq_mhz as int, u64::MAX as int, i as int, u64::MAX as int);
    }
    let ticks: u128 = (freq_mhz as u128) * (i as u128);
    let rem: u128 = ticks % period;
    proof {
        lemma_mod_division_less_than_divisor(ticks as int, period as int);
    }
    match instrument {
        Instrument::Sine => {
            let len: usize = table.samples.len();
            proof {
                assert((len as int) * (rem as int) < (period as int) * (len as int))
                    by (nonlinear_arith)
                    requires
                        0 < len as int,
                        0 <= rem as int,
                        (rem as int) < (period as int),
                ;
                assert((len as int) * (rem as int) <= (usize::MAX as int) * (1000 * (
                u32::MAX as int))) by (nonlinear_arith)
                    requires
                        0 <= len as int <= usize::MAX as int,
                        0 <= rem as int,
                        (rem as int) <= 1000 * (u32::MAX as int),
                ;
            }
            let scaled: u128 = (len as u128) * rem;
            let idx_wide: u128 = scaled / period;
            proof {
                lemma_multiply_divide_lt(scaled as int, period as int, len as int);
            }
            let idx: usize = idx_wide as usize;
            let v: i16 = table.samples[idx];
            v as i32
        },
        Instrument::Square => {
            let doubled: u128 = 2 * rem;
            let ghost p = period as int;
            let ghost t = ticks as int;
            let ghost q = t / p;
            let ghost rm = t % p;
            proof {
                lemma_fundamental_div_mod(t, p);
                assert(2 * (freq_mhz as int) * (i as int) == 2 * t) by (nonlinear_arith)
                    requires
                        t == (freq_mhz as int) * (i as int),
                ;
                assert(2 * t == (2 * q) * p + 2 * rm) by (nonlinear_arith)
                    requires
                        t == p * q + rm,
                ;
                if 2 * rm < p {
                    lemma_fundamental_div_mod_converse(2 * t, p, 2 * q, 2 * rm);
                    lemma_fundamental_div_mod_converse(2 * q, 2, q, 0);
                } else {
                    assert(2 * t == (2 * q + 1) * p + (2 * rm - p)) by (nonlinear_arith)
                        requires
                            2 * t == (2 * q) * p + 2 * rm,
                    ;
                    lemma_fundamental_div_mod_converse(2 * t, p, 2 * q + 1, 2 * rm - p);
                    lemma_fundamental_div_mod_converse(2 * q + 1, 2, q, 1);
                }
            }
            if doubled < period {
                32767
            } else {
                -32767
            }
        },
        Instrument::Saw => {
            let doubled: u128 = 2 * rem;
            if doubled >= period {
                let num: u128 = 32767 * (doubled - period);
                proof {
                    assert((num as int) < (period as int) * 32767);
                    lemma_multiply_divide_lt(num as int, period as int, 32767);
                }
                let v: u128 = num / period;
                v as i32
            } else {
                let num: u128 = 32767 * (period - doubled);
                let ghost p = period as int;
                let ghost m = num as int;
                let ghost q0 = m / p;
                let ghost r0 = m % p;
                proof {
                    lemma_fundamental_div_mod(m, p);
                    lemma_mod_division_less_than_divisor(m, p);
                    // the spec's numerator is the negation of `num`
                    assert(32767 * (2 * (rem as int) - p) == -m);
                    if r0 == 0 {
                        assert(-m == (-q0) * p + 0) by (nonlinear_arith)
                            requires
                                m == p * q0 + r0,
                                r0 == 0,
                        ;
                        assert(m + p - 1 == q0 * p + (p - 1)) by (nonlinear_arith)
                            requires
                                m == p * q0 + r0,
                                r0 == 0,
                        ;
                        lemma_fundamental_div_mod_converse(-m, p, -q0, 0);
                        lemma_fundamental_div_mod_converse(m + p - 1, p, q0, p - 1);
                    } else {
                        assert(-m == (-(q0 + 1)) * p + (p - r0)) by (nonlinear_arith)
                            requires
                                m == p * q0 + r0,
                        ;
                        assert(m + p - 1 == (q0 + 1) * p + (r0 - 1)) by (nonlinear_arith)
                            requires
                                m == p * q0 + r0,
                        ;
                        lemma_fundamental_div_mod_converse(-m, p, -(q0 + 1), p - r0);
                        lemma_fundamental_div_mod_converse(m + p - 1, p, q0 + 1, r0 - 1);
                    }
                    assert(m + p - 1 < p * 32768);
                    lemma_multiply_divide_lt(m + p - 1, p, 32768);
                }
                let v: u128 = (num + period - 1) / period;
                let out: i32 = -(v as i32);
                out
            }
        },
    }
}

/// At the very first sample the instruments start at their characteristic
/// amplitudes: sine at 0, square at plus full scale, saw at minus full scale.
pub proof fn lemma_eval_at_start(rate: u32, freq_mhz: u64, table: Seq<i16>)
    requires
        rate >= 1,
        freq_mhz >= 1,
        table.len() >= 1,
        table[0] == 0i16,
    ensures
        spec_eval(Instrument::Sine, 0, rate, freq_mhz, table) == 0,
        spec_eval(Instrument::Square, 0, rate, freq_mhz, table) == 32767,
        spec_eval(Instrument::Saw, 0, rate, freq_mhz, table) == -32767,
{
    let p = period_denominator(rate);
    assert(freq_mhz * 0 == 0);
    assert(2 * freq_mhz * 0 == 0);
    lemma_fundamental_div_mod_converse(0, p, 0, 0);
    assert(phase_rem(freq_mhz, 0, rate) == 0);
    assert(table.len() * 0 == 0);
    lemma_fundamental_div_mod_converse(0, 2, 0, 0);
    assert(32767 * (2 * 0 - p) == -32767 * p);
    lemma_fundamental_div_mod_converse(-32767 * p, p, -32767, 0);
}

/// The oscillator never leaves the fixed-point amplitude range, whatever the
/// sample index and frequency.
pub proof fn lemma_spec_eval_range(
    instrument: Instrument,
    i: int,
    rate: u32,
    freq_mhz: u64,
    table: Seq<i16>,
)
    requires
        rate >= 1,
        i >= 0,
        table.len() >= 1,
        forall|k: int| 0 <= k < table.len() ==> -32767 <= #[trigger] table[k] <= 32767,
    ensures
        -32767 <= spec_eval(instrument, i, rate, freq_mhz, table) <= 32767,
{
    let p = period_denominator(rate);
    lemma_mul_nonnegative(freq_mhz as int, i);
    lemma_mod_division_less_than_divisor(freq_mhz * i, p);
    let rem = phase_rem(freq_mhz, i, rate);
    match instrument {
        Instrument::Sine => {
            let l = table.len() as int;
            assert(l * rem < p * l) by (nonlinear_arith)
                requires
                    0 < l,
                    0 <= rem,
                    rem < p,
            ;
            lemma_mul_nonnegative(l, rem);
            lemma_multiply_divide_lt(l * rem, p, l);
            lemma_div_pos_is_pos(l * rem, p);
            assert(-32767 <= table[l * rem / p] <= 32767);
        },
        Instrument::Square => {},
        Instrument::Saw => {
            let num = 32767 * (2 * rem - p);
            if 2 * rem >= p {
                assert(num < p * 32767);
                lemma_multiply_divide_lt(num, p, 32767);
                lemma_div_pos_is_pos(num, p);
            } else {
                lemma_div_is_ordered(-32767 * p, num, p);
                lemma_fundamental_div_mod_converse(-32767 * p, p, -32767, 0);
                lemma_div_is_ordered(num, 0, p);
                lemma_fundamental_div_mod_converse(0, p, 0, 0);
            }
        },
    }
}

} // verus!
