//! Pulse detection: from a normalized signal to pulse periods.
//!
//! A sample is a rising point when it lies above the sample before it. The
//! distance from one rising point back to the rising point before it (or to
//! the start of the signal) is a candidate period. A candidate is kept when
//! it is 5 to 50 samples long and the amplitude has dropped by at least the
//! noise threshold since the earlier rising point. The last sample of a
//! signal is never examined.

use vstd::prelude::*;
use crate::signal::Signal;

verus! {

/// The shortest period that is kept, in samples.
pub const MIN_PERIOD: u32 = 5;

/// The longest period that is kept, in samples.
pub const MAX_PERIOD: u32 = 50;

/// A fraction `num / den`, used for the noise threshold.
#[derive(Clone, Copy, Debug, PartialEq, Eq, Structural)]
pub struct Ratio {
    pub num: i64,
    pub den: u32,
}

impl Ratio {
    /// The denominator is positive, so the fraction denotes a number.
    pub open spec fn wf(&self) -> bool {
        self.den >= 1
    }
}

/// One accepted pulse period.
#[derive(Clone, Copy, Debug, PartialEq, Eq, Structural)]
pub struct Period {
    /// The distance in samples back to the rising point before this one.
    pub length: u32,
    /// The index of the sample at which the pulse was found.
    pub position: u64,
}

/// Sample `i` lies above the sample before it.
pub open spec fn rising(samples: Seq<int>, i: int) -> bool {
    1 <= i < samples.len() && samples[i] > samples[i - 1]
}

/// The last rising point before sample `i`, or 0 where there is none.
pub open spec fn previous_rise(samples: Seq<int>, i: int) -> int
    decreases i,
{
    if i <= 1 {
        0
    } else if rising(samples, i - 1) {
        i - 1
    } else {
        previous_rise(samples, i - 1)
    }
}

/// A drop in amplitude of `drop / scale` is at least the threshold
/// `num / den`. Both denominators being positive, the two fractions are
/// compared by cross multiplication.
pub open spec fn deep_enough(drop: int, scale: int, threshold: Ratio) -> bool {
    drop * threshold.den >= threshold.num * scale
}

/// Sample `i` ends a period that is kept: it is a rising point, the
/// distance to the rising point before it is within bounds, and the
/// amplitude has dropped far enough since then.
pub open spec fn accepted(samples: Seq<int>, scale: int, threshold: Ratio, i: int) -> bool {
    let length = i - previous_rise(samples, i);
    &&& rising(samples, i)
    &&& MIN_PERIOD <= length <= MAX_PERIOD
    &&& deep_enough(samples[previous_rise(samples, i)] - samples[i], scale, threshold)
}

/// The period that ends at sample `i`.
pub open spec fn period_at(samples: Seq<int>, i: int) -> Period {
    Period { length: (i - previous_rise(samples, i)) as u32, position: i as u64 }
}

/// The periods that are kept among the samples before index `n`, in the
/// order of their positions.
pub open spec fn detected(samples: Seq<int>, scale: int, threshold: Ratio, n: int) -> Seq<Period>
    decreases n,
{
    if n <= 1 {
        Seq::empty()
    } else {
        let before = detected(samples, scale, threshold, n - 1);
        if accepted(samples, scale, threshold, n - 1) {
            before.push(period_at(samples, n - 1))
        } else {
            before
        }
    }
}

/// The periods of a whole signal: every sample but the last is examined.
pub open spec fn periods_of(samples: Seq<int>, scale: int, threshold: Ratio) -> Seq<Period> {
    detected(samples, scale, threshold, samples.len() - 1)
}

/// The positions of a period sequence never decrease.
pub open spec fn positions_ordered(periods: Seq<Period>) -> bool {
    forall|j: int, k: int|
        0 <= j <= k < periods.len() ==> (#[trigger] periods[j]).position <= (
        #[trigger] periods[k]).position
}

/// The last rising point before `i` lies before `i`.
pub proof fn lemma_previous_rise_bounds(samples: Seq<int>, i: int)
    requires
        1 <= i,
    ensures
        0 <= previous_rise(samples, i) < i,
    decreases i,
{
    if i > 1 && !rising(samples, i - 1) {
        lemma_previous_rise_bounds(samples, i - 1);
    }
}

/// No detected period is shorter than 5 or longer than 50 samples; each
/// lies at a position from 1 up to but not including `n`, ends at a rising
/// point that is as far from the rising point before it as the period is
/// long, and positions increase strictly along the sequence.
pub proof fn lemma_detected_periods(samples: Seq<int>, scale: int, threshold: Ratio, n: int)
    requires
        n <= samples.len(),
        samples.len() <= u64::MAX,
    ensures
        forall|k: int|
            0 <= k < detected(samples, scale, threshold, n).len() ==> {
                let p = #[trigger] detected(samples, scale, threshold, n)[k];
                &&& MIN_PERIOD <= p.length <= MAX_PERIOD
                &&& 1 <= p.position < n
                &&& accepted(samples, scale, threshold, p.position as int)
                &&& p.length == p.position - previous_rise(samples, p.position as int)
            },
        forall|j: int, k: int|
            0 <= j < k < detected(samples, scale, threshold, n).len() ==> (#[trigger] detected(
                samples,
                scale,
                threshold,
                n,
            )[j]).position < (#[trigger] detected(samples, scale, threshold, n)[k]).position,
        positions_ordered(detected(samples, scale, threshold, n)),
        detected(samples, scale, threshold, n).len() <= if n <= 1 {
            0
        } else {
            n - 1
        },
    decreases n,
{
    if n > 1 {
        lemma_detected_periods(samples, scale, threshold, n - 1);
        lemma_previous_rise_bounds(samples, n - 1);
    }
}

/// Checks that the positions of a period sequence never decrease.
pub fn positions_in_order(periods: &Vec<Period>) -> (ok: bool)
    ensures
        ok == positions_ordered(periods@),
{
    let mut i: usize = 1;
    while i < periods.len()
        invariant
            1 <= i,
            forall|j: int, k: int|
                0 <= j <= k < i && k < periods@.len() ==> (#[trigger] periods@[j]).position <= (
                #[trigger] periods@[k]).position,
        decreases periods.len() - i,
    {
        if periods[i - 1].position > periods[i].position {
            return false;
        }
        assert forall|j: int, k: int| 0 <= j <= k < i + 1 && k < periods@.len() implies (
        #[trigger] periods@[j]).position <= (#[trigger] periods@[k]).position by {
            if k == i && j < i {
                assert(periods@[j].position <= periods@[i - 1].position);
            }
        }
        i += 1;
    }
    true
}

/// Measures the pulse periods of a signal.
///
/// The result holds, in the order of their positions, exactly the periods
/// that are kept. None is shorter than 5 or longer than 50 samples, and the
/// positions increase strictly. A signal of fewer than two samples has no
/// periods. The denominators of the signal and of the threshold must be
/// positive.
pub fn analyze_signal(data: &Signal, threshold: Ratio) -> (periods: Vec<Period>)
    requires
        data.wf(),
        threshold.wf(),
    ensures
        periods@ == periods_of(data@.samples, data@.scale, threshold),
        forall|k: int|
            0 <= k < periods@.len() ==> MIN_PERIOD <= (#[trigger] periods@[k]).length
                <= MAX_PERIOD,
        forall|k: int|
            0 <= k < periods@.len() ==> 1 <= (#[trigger] periods@[k]).position
                < data@.samples.len() - 1,
        forall|j: int, k: int|
            0 <= j < k < periods@.len() ==> (#[trigger] periods@[j]).position < (
            #[trigger] periods@[k]).position,
        positions_ordered(periods@),
{
    let ghost samples = data@.samples;
    let ghost scale = data@.scale;
    let n: usize = data.samples.len();
    let mut periods: Vec<Period> = Vec::new();
    proof {
        lemma_detected_periods(samples, scale, threshold, n as int - 1);
    }
    if n < 2 {
        return periods;
    }
    let mut last_max_index: usize = 0;
    let mut last_max: i64 = data.samples[0];
    let mut last_sample: i64 = data.samples[0];
    let mut i: usize = 1;
    while i < n - 1
        invariant
            1 <= i <= n - 1,
            n == data.samples@.len(),
            samples == data@.samples,
            scale == data@.scale,
            last_max_index == previous_rise(samples, i as int),
            last_max == samples[last_max_index as int],
            last_sample == samples[i - 1],
            last_max_index < i,
            periods@ == detected(samples, scale, threshold, i as int),
        decreases n - i,
    {
        let x: i64 = data.samples[i];
        assert(samples[i as int] == x);
        proof {
            lemma_previous_rise_bounds(samples, i as int + 1);
        }
        if x > last_sample {
            let length: usize = i - last_max_index;
            if length >= 5 && length <= 50 {
                let drop: i128 = last_max as i128 - x as i128;
                let den: i128 = threshold.den as i128;
                let num: i128 = threshold.num as i128;
                let unit: i128 = data.scale as i128;
                assert(-0x1_0000_0000_0000_0000_0000_0000 <= drop * den
                    <= 0x1_0000_0000_0000_0000_0000_0000) by (nonlinear_arith)
                    requires
                        -0x1_0000_0000_0000_0000 <= drop <= 0x1_0000_0000_0000_0000,
                        0 <= den <= 0x1_0000_0000,
                ;
                assert(-0x8000_0000_0000_0000 * 0xFFFF_FFFF_FFFF_FFFF <= num * unit
                    <= 0x7FFF_FFFF_FFFF_FFFF * 0xFFFF_FFFF_FFFF_FFFF) by (nonlinear_arith)
                    requires
                        -0x8000_0000_0000_0000 <= num <= 0x7FFF_FFFF_FFFF_FFFF,
                        0 <= unit <= 0xFFFF_FFFF_FFFF_FFFF,
                ;
                if drop * den >= num * unit {
                    periods.push(Period { length: length as u32, position: i as u64 });
                }
            }
            last_max_index = i;
            last_max = x;
        }
        last_sample = x;
        i += 1;
    }
    periods
}

} // verus!
