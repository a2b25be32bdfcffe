//! The normalized signal and the sample encodings it is made from.
//!
//! An amplitude is kept as an exact fraction: a signed numerator over a
//! denominator that the whole signal shares. Normalizing integer levels
//! `v` over their lowest level `lo` and highest level `hi` gives
//! `2 (v - lo) / (hi - lo) - 1`, which is `(2 v - lo - hi) / (hi - lo)`.

use vstd::prelude::*;
use crate::error::DecodeError;
use crate::single::{fixed_from_single, fixed_of_single, FIXED_POINT_SCALE};

verus! {

/// An amplitude sequence. Sample `i` has the amplitude
/// `samples[i] / scale`.
#[derive(Clone, Debug, PartialEq, Eq)]
pub struct Signal {
    /// The numerators, one for each sample.
    pub samples: Vec<i64>,
    /// The denominator that all samples share.
    pub scale: u64,
}

/// What a `Signal` stands for.
pub struct SignalView {
    pub samples: Seq<int>,
    pub scale: int,
}

impl View for Signal {
    type V = SignalView;

    open spec fn view(&self) -> SignalView {
        SignalView {
            samples: Seq::new(self.samples@.len(), |i: int| self.samples@[i] as int),
            scale: self.scale as int,
        }
    }
}

impl Signal {
    /// The denominator is positive, so every sample denotes a number.
    pub open spec fn wf(&self) -> bool {
        self.scale >= 1
    }
}

/// Raw samples as a wave container holds them.
#[derive(Clone, Debug, PartialEq, Eq)]
pub enum SampleData {
    /// Unsigned 8-bit levels.
    Eight(Vec<u8>),
    /// Signed 16-bit levels.
    Sixteen(Vec<i16>),
    /// Signed 24-bit levels, each in the upper three bytes of its word.
    TwentyFour(Vec<i32>),
    /// Single-precision amplitudes, each as its IEEE 754 bit pattern.
    ThirtyTwoFloat(Vec<u32>),
    /// No samples at all.
    Empty,
}

/// What a `SampleData` stands for: integer levels, bit patterns, or nothing.
pub enum SampleView {
    Eight(Seq<u8>),
    Sixteen(Seq<i16>),
    TwentyFour(Seq<i32>),
    ThirtyTwoFloat(Seq<u32>),
    Empty,
}

impl View for SampleData {
    type V = SampleView;

    open spec fn view(&self) -> SampleView {
        match *self {
            SampleData::Eight(v) => SampleView::Eight(v@),
            SampleData::Sixteen(v) => SampleView::Sixteen(v@),
            SampleData::TwentyFour(v) => SampleView::TwentyFour(v@),
            SampleData::ThirtyTwoFloat(v) => SampleView::ThirtyTwoFloat(v@),
            SampleData::Empty => SampleView::Empty,
        }
    }
}

/// The lowest level of a sequence; 0 for the empty sequence.
pub open spec fn lowest(levels: Seq<int>) -> int
    decreases levels.len(),
{
    if levels.len() == 0 {
        0
    } else if levels.len() == 1 {
        levels[0]
    } else {
        let rest = lowest(levels.drop_last());
        if levels.last() < rest {
            levels.last()
        } else {
            rest
        }
    }
}

/// The highest level of a sequence; 0 for the empty sequence.
pub open spec fn highest(levels: Seq<int>) -> int
    decreases levels.len(),
{
    if levels.len() == 0 {
        0
    } else if levels.len() == 1 {
        levels[0]
    } else {
        let rest = highest(levels.drop_last());
        if levels.last() > rest {
            levels.last()
        } else {
            rest
        }
    }
}

/// The levels are there but all the same: there is no range to divide by.
pub open spec fn is_flat(levels: Seq<int>) -> bool {
    levels.len() > 0 && lowest(levels) == highest(levels)
}

/// The normalized signal of integer levels: numerator `2 v - lo - hi` for
/// each level `v`, over the denominator `hi - lo`. No levels give the empty
/// signal over the denominator 1.
pub open spec fn normalized(levels: Seq<int>) -> SignalView {
    if levels.len() == 0 {
        SignalView { samples: Seq::empty(), scale: 1 }
    } else {
        SignalView {
            samples: Seq::new(
                levels.len(),
                |i: int| 2 * levels[i] - lowest(levels) - highest(levels),
            ),
            scale: highest(levels) - lowest(levels),
        }
    }
}

/// The levels of a 32-bit sequence as mathematical integers.
pub open spec fn int_levels(levels: Seq<i32>) -> Seq<int> {
    Seq::new(levels.len(), |i: int| levels[i] as int)
}

/// The lowest level is a level of the sequence and no level is below it;
/// likewise the highest.
pub proof fn lemma_lowest_highest(levels: Seq<int>)
    requires
        levels.len() > 0,
    ensures
        forall|i: int| 0 <= i < levels.len() ==> lowest(levels) <= #[trigger] levels[i],
        forall|i: int| 0 <= i < levels.len() ==> #[trigger] levels[i] <= highest(levels),
        exists|i: int| 0 <= i < levels.len() && #[trigger] levels[i] == lowest(levels),
        exists|i: int| 0 <= i < levels.len() && #[trigger] levels[i] == highest(levels),
        lowest(levels) <= highest(levels),
    decreases levels.len(),
{
    if levels.len() == 1 {
        assert(levels[0] == lowest(levels));
        assert(levels[0] == highest(levels));
    } else {
        let front = levels.drop_last();
        lemma_lowest_highest(front);
        let last = levels.len() - 1;
        assert forall|i: int| 0 <= i < levels.len() implies lowest(levels) <= #[trigger] levels[i]
            && levels[i] <= highest(levels) by {
            if i < last {
                assert(front[i] == levels[i]);
            }
        }
        let a = choose|i: int| 0 <= i < front.len() && #[trigger] front[i] == lowest(front);
        assert(front[a] == levels[a]);
        if levels.last() < lowest(front) {
            assert(levels[last] == lowest(levels));
        } else {
            assert(levels[a] == lowest(levels));
        }
        let b = choose|i: int| 0 <= i < front.len() && #[trigger] front[i] == highest(front);
        assert(front[b] == levels[b]);
        if levels.last() > highest(front) {
            assert(levels[last] == highest(levels));
        } else {
            assert(levels[b] == highest(levels));
        }
    }
}

/// Normalization sends the lowest level to exactly -1 and the highest to
/// exactly +1, and every level to an amplitude between them: the numerator
/// of a lowest level is minus the denominator, that of a highest level is
/// the denominator, and these are the least and the greatest numerator.
pub proof fn lemma_normalized_extremes(levels: Seq<int>)
    requires
        levels.len() > 0,
        !is_flat(levels),
    ensures
        normalized(levels).scale >= 1,
        normalized(levels).samples.len() == levels.len(),
        forall|i: int|
            0 <= i < levels.len() && levels[i] == lowest(levels) ==> #[trigger] normalized(
                levels,
            ).samples[i] == -normalized(levels).scale,
        forall|i: int|
            0 <= i < levels.len() && levels[i] == highest(levels) ==> #[trigger] normalized(
                levels,
            ).samples[i] == normalized(levels).scale,
        lowest(normalized(levels).samples) == -normalized(levels).scale,
        highest(normalized(levels).samples) == normalized(levels).scale,
{
    lemma_lowest_highest(levels);
    let out = normalized(levels).samples;
    let scale = normalized(levels).scale;
    lemma_lowest_highest(out);
    let a = choose|i: int| 0 <= i < levels.len() && #[trigger] levels[i] == lowest(levels);
    let b = choose|i: int| 0 <= i < levels.len() && #[trigger] levels[i] == highest(levels);
    assert(out[a] == -scale);
    assert(out[b] == scale);
    let c = choose|i: int| 0 <= i < out.len() && #[trigger] out[i] == lowest(out);
    let d = choose|i: int| 0 <= i < out.len() && #[trigger] out[i] == highest(out);
    assert(lowest(levels) <= levels[c] <= highest(levels));
    assert(lowest(levels) <= levels[d] <= highest(levels));
    assert(lowest(out) <= out[a]);
    assert(out[b] <= highest(out));
}

/// The fixed-point signal of single-precision bit patterns.
pub open spec fn fixed_signal(patterns: Seq<u32>) -> SignalView {
    SignalView {
        samples: Seq::new(patterns.len(), |i: int| fixed_of_single(patterns[i])),
        scale: FIXED_POINT_SCALE as int,
    }
}

/// What normalizing gives for each encoding: integer levels are mapped
/// onto [-1, 1] and fail when they are flat; bit patterns pass through as
/// fixed-point amplitudes; no samples give the empty signal.
pub open spec fn normalize_outcome(data: SampleView) -> Result<SignalView, DecodeError> {
    match data {
        SampleView::Eight(v) => levels_outcome(Seq::new(v.len(), |i: int| v[i] as int)),
        SampleView::Sixteen(v) => levels_outcome(Seq::new(v.len(), |i: int| v[i] as int)),
        SampleView::TwentyFour(v) => levels_outcome(Seq::new(v.len(), |i: int| v[i] as int)),
        SampleView::ThirtyTwoFloat(v) => Ok(fixed_signal(v)),
        SampleView::Empty => Ok(SignalView { samples: Seq::empty(), scale: 1 }),
    }
}

/// Normalizing integer levels: an error for flat levels, else the
/// normalized signal.
pub open spec fn levels_outcome(levels: Seq<int>) -> Result<SignalView, DecodeError> {
    if is_flat(levels) {
        Err(DecodeError::ZeroRange)
    } else {
        Ok(normalized(levels))
    }
}

/// Whether an executable result is the outcome that a specification names.
pub open spec fn signal_result_is(
    res: Result<Signal, DecodeError>,
    outcome: Result<SignalView, DecodeError>,
) -> bool {
    match (res, outcome) {
        (Ok(signal), Ok(view)) => signal@ == view,
        (Err(e), Err(f)) => e == f,
        _ => false,
    }
}

/// Normalises integer levels onto [-1, 1].
///
/// Fails with `ZeroRange` exactly when there are levels and they are all
/// the same. A successful signal has a positive denominator.
pub fn normalize_levels(levels: &Vec<i32>) -> (res: Result<Signal, DecodeError>)
    ensures
        signal_result_is(res, levels_outcome(int_levels(levels@))),
        res matches Ok(signal) ==> signal.wf(),
{
    let ghost ints = int_levels(levels@);
    let n: usize = levels.len();
    if n == 0 {
        let signal = Signal { samples: Vec::new(), scale: 1 };
        assert(signal@.samples =~= Seq::<int>::empty());
        return Ok(signal);
    }
    let mut lo: i32 = levels[0];
    let mut hi: i32 = levels[0];
    let mut i: usize = 1;
    assert(ints.take(1).len() == 1 && ints.take(1)[0] == levels[0]);
    while i < n
        invariant
            1 <= i <= n,
            n == levels.len(),
            ints == int_levels(levels@),
            lo == lowest(ints.take(i as int)),
            hi == highest(ints.take(i as int)),
        decreases n - i,
    {
        let v: i32 = levels[i];
        proof {
            let next = ints.take(i + 1);
            assert(next.drop_last() =~= ints.take(i as int));
            assert(next.last() == v);
        }
        if v < lo {
            lo = v;
        }
        if v > hi {
            hi = v;
        }
        i += 1;
    }
    assert(ints.take(n as int) =~= ints);
    if lo == hi {
        return Err(DecodeError::ZeroRange);
    }
    proof {
        lemma_lowest_highest(ints);
    }
    let scale: u64 = (hi as i64 - lo as i64) as u64;
    let mut samples: Vec<i64> = Vec::new();
    let mut j: usize = 0;
    while j < n
        invariant
            j <= n,
            n == levels.len(),
            ints == int_levels(levels@),
            lo == lowest(ints),
            hi == highest(ints),
            samples@.len() == j,
            forall|k: int| 0 <= k < j ==> samples@[k] == 2 * ints[k] - lo - hi,
        decreases n - j,
    {
        let v: i64 = levels[j] as i64;
        samples.push(2 * v - lo as i64 - hi as i64);
        j += 1;
    }
    let signal = Signal { samples, scale };
    assert(signal@.samples =~= normalized(ints).samples);
    Ok(signal)
}

/// Normalises raw samples of any encoding into a signal.
///
/// Integer levels are mapped onto [-1, 1]; this fails with `ZeroRange`
/// exactly when there are levels and they are all the same.
/// Single-precision samples are taken as already normalized and pass
/// through, each as its fixed-point amplitude. No samples give the empty
/// signal.
pub fn normalize(data: &SampleData) -> (res: Result<Signal, DecodeError>)
    ensures
        signal_result_is(res, normalize_outcome(data@)),
        res matches Ok(signal) ==> signal.wf(),
{
    match data {
        SampleData::Eight(v) => {
            let mut levels: Vec<i32> = Vec::new();
            let mut i: usize = 0;
            while i < v.len()
                invariant
                    i <= v.len(),
                    levels@.len() == i,
                    forall|k: int| 0 <= k < i ==> levels@[k] == v@[k],
                decreases v.len() - i,
            {
                levels.push(v[i] as i32);
                i += 1;
            }
            assert(int_levels(levels@) =~= Seq::new(v@.len(), |i: int| v@[i] as int));
            normalize_levels(&levels)
        },
        SampleData::Sixteen(v) => {
            let mut levels: Vec<i32> = Vec::new();
            let mut i: usize = 0;
            while i < v.len()
                invariant
                    i <= v.len(),
                    levels@.len() == i,
                    forall|k: int| 0 <= k < i ==> levels@[k] == v@[k],
                decreases v.len() - i,
            {
                levels.push(v[i] as i32);
                i += 1;
            }
            assert(int_levels(levels@) =~= Seq::new(v@.len(), |i: int| v@[i] as int));
            normalize_levels(&levels)
        },
        SampleData::TwentyFour(v) => {
            assert(int_levels(v@) =~= Seq::new(v@.len(), |i: int| v@[i] as int));
            normalize_levels(v)
        },
        SampleData::ThirtyTwoFloat(v) => {
            let mut samples: Vec<i64> = Vec::new();
            let mut i: usize = 0;
            while i < v.len()
                invariant
                    i <= v.len(),
                    samples@.len() == i,
                    forall|k: int| 0 <= k < i ==> samples@[k] == fixed_of_single(v@[k]),
                decreases v.len() - i,
            {
                samples.push(fixed_from_single(v[i]));
                i += 1;
            }
            let signal = Signal { samples, scale: FIXED_POINT_SCALE };
            assert(signal@.samples =~= fixed_signal(v@).samples);
            Ok(signal)
        },
        SampleData::Empty => {
            let signal = Signal { samples: Vec::new(), scale: 1 };
            assert(signal@.samples =~= Seq::<int>::empty());
            Ok(signal)
        },
    }
}

} // verus!
