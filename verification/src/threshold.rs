//! Threshold estimation: the line between short and long pulses.
//!
//! The period lengths are put in ascending order. With `k` an eighth of
//! their number, rounded down, the threshold is the mean of the length at
//! index `k` and the length at index `count - k`. It is kept doubled, so
//! that it stays an integer.

use vstd::prelude::*;
use vstd::relations::{sorted_by, total_ordering};
use vstd::seq_lib::lemma_sorted_unique;
use crate::error::DecodeError;
use crate::pulse::Period;

verus! {

/// The fewest periods from which a threshold can be estimated.
pub const MIN_PERIODS: usize = 8;

/// A classification threshold of `doubled / 2` samples.
#[derive(Clone, Copy, Debug, PartialEq, Eq, Structural)]
pub struct Threshold {
    /// Twice the threshold.
    pub doubled: u64,
}

/// The order of lengths: at most.
pub open spec fn at_most() -> spec_fn(u32, u32) -> bool {
    |a: u32, b: u32| a <= b
}

/// The lengths in ascending order.
pub open spec fn ascending(lengths: Seq<u32>) -> Seq<u32> {
    lengths.sort_by(at_most())
}

/// Twice the threshold of at least eight lengths: the sum of the two
/// lengths that stand an eighth of the count from either end of the
/// ascending order.
pub open spec fn threshold_doubled(lengths: Seq<u32>) -> int {
    let k = lengths.len() as int / 8;
    ascending(lengths)[k] + ascending(lengths)[lengths.len() - k]
}

/// What estimation gives: an error for fewer than eight lengths, else the
/// threshold.
pub open spec fn threshold_outcome(lengths: Seq<u32>) -> Result<Threshold, DecodeError> {
    if lengths.len() < MIN_PERIODS {
        Err(DecodeError::TooFewPeriods)
    } else {
        Ok(Threshold { doubled: threshold_doubled(lengths) as u64 })
    }
}

/// The lengths of a period sequence.
pub open spec fn lengths_of(periods: Seq<Period>) -> Seq<u32> {
    Seq::new(periods.len(), |i: int| periods[i].length)
}

/// `at_most` is a total order.
pub proof fn lemma_at_most_total()
    ensures
        total_ordering(at_most()),
{
    let r = at_most();
    assert(vstd::relations::reflexive(r));
    assert(vstd::relations::antisymmetric(r));
    assert(vstd::relations::transitive(r));
    assert(vstd::relations::strongly_connected(r));
}

/// Any ascending rearrangement of the lengths is their ascending order, so
/// the threshold can be read from it.
pub proof fn lemma_ascending_is(lengths: Seq<u32>, sorted: Seq<u32>)
    requires
        sorted.to_multiset() == lengths.to_multiset(),
        forall|i: int, j: int| 0 <= i <= j < sorted.len() ==> sorted[i] <= sorted[j],
    ensures
        ascending(lengths) == sorted,
        ascending(lengths).len() == lengths.len(),
{
    lemma_at_most_total();
    lengths.lemma_sort_by_ensures(at_most());
    assert(sorted_by(sorted, at_most()));
    lemma_sorted_unique(sorted, ascending(lengths), at_most());
    lengths.to_multiset_ensures();
    sorted.to_multiset_ensures();
}

/// How often a value occurs in a sequence of lengths.
pub open spec fn occurrences(lengths: Seq<u32>, value: u32) -> nat
    decreases lengths.len(),
{
    if lengths.len() == 0 {
        0
    } else if lengths.last() == value {
        occurrences(lengths.drop_last(), value) + 1
    } else {
        occurrences(lengths.drop_last(), value)
    }
}

/// A value occurs in a sequence as often as the multiset of the sequence
/// counts it.
pub proof fn lemma_occurrences_count(lengths: Seq<u32>, value: u32)
    ensures
        occurrences(lengths, value) == lengths.to_multiset().count(value),
    decreases lengths.len(),
{
    lengths.to_multiset_ensures();
    if lengths.len() == 0 {
        assert(!lengths.contains(value));
    } else {
        let front = lengths.drop_last();
        lemma_occurrences_count(front, value);
        front.to_multiset_ensures();
        assert(front.push(lengths.last()) =~= lengths);
        if lengths.last() == value {
            vstd::multiset::lemma_insert_increases_count_by_1(front.to_multiset(), value);
        } else {
            vstd::multiset::lemma_insert_other_elements_unchanged(
                front.to_multiset(),
                lengths.last(),
                value,
            );
        }
    }
}

/// A value that occurs only at indices from `lo` up to but not including
/// `hi` occurs at most `hi - lo` times.
pub proof fn lemma_occurrences_within(lengths: Seq<u32>, value: u32, lo: int, hi: int)
    requires
        0 <= lo <= hi <= lengths.len(),
        forall|i: int| 0 <= i < lo || hi <= i < lengths.len() ==> lengths[i] != value,
    ensures
        occurrences(lengths, value) <= hi - lo,
    decreases lengths.len(),
{
    if lengths.len() > 0 {
        let front = lengths.drop_last();
        let last = lengths.len() - 1;
        if hi <= last {
            lemma_occurrences_within(front, value, lo, hi);
        } else if lo <= last {
            lemma_occurrences_within(front, value, lo, last);
        } else {
            lemma_occurrences_within(front, value, last, last);
        }
    }
}

/// The threshold lies between the two populations of a bimodal recording.
/// Where the lengths take only two values, the shorter one more often than
/// an eighth of the count and the longer one at least as often as an eighth
/// of the count, rounded down, the threshold is the mean of the two values,
/// and so strictly between them.
pub proof fn lemma_threshold_between(lengths: Seq<u32>, short: u32, long: u32)
    requires
        lengths.len() >= MIN_PERIODS,
        short < long,
        forall|i: int| 0 <= i < lengths.len() ==> lengths[i] == short || lengths[i] == long,
        occurrences(lengths, short) > lengths.len() / 8,
        occurrences(lengths, long) >= lengths.len() / 8,
    ensures
        threshold_doubled(lengths) == short + long,
        2 * short < threshold_doubled(lengths) < 2 * long,
{
    let sorted = ascending(lengths);
    let n = lengths.len() as int;
    let k = n / 8;
    lemma_at_most_total();
    lengths.lemma_sort_by_ensures(at_most());
    lengths.to_multiset_ensures();
    sorted.to_multiset_ensures();
    lemma_occurrences_count(lengths, short);
    lemma_occurrences_count(lengths, long);
    lemma_occurrences_count(sorted, short);
    lemma_occurrences_count(sorted, long);
    assert forall|i: int| 0 <= i < n implies sorted[i] == short || sorted[i] == long by {
        assert(sorted.contains(sorted[i]));
        assert(lengths.contains(sorted[i]));
        let j = choose|j: int| 0 <= j < lengths.len() && lengths[j] == sorted[i];
        assert(lengths[j] == short || lengths[j] == long);
    }
    if sorted[k] != short {
        assert forall|i: int| k <= i < n implies sorted[i] != short by {
            if k < i {
                assert(at_most()(sorted[k], sorted[i]));
            }
        }
        lemma_occurrences_within(sorted, short, 0, k);
    }
    if sorted[n - k] != long {
        assert forall|i: int| 0 <= i < n - k + 1 implies sorted[i] != long by {
            if i < n - k {
                assert(at_most()(sorted[i], sorted[n - k]));
            }
        }
        lemma_occurrences_within(sorted, long, n - k + 1, n);
    }
}

/// The threshold never leaves the range of the lengths: where every length
/// is at least `lo` and at most `hi`, so is the threshold.
pub proof fn lemma_threshold_within(lengths: Seq<u32>, lo: u32, hi: u32)
    requires
        lengths.len() >= MIN_PERIODS,
        forall|i: int| 0 <= i < lengths.len() ==> lo <= #[trigger] lengths[i] && lengths[i] <= hi,
    ensures
        2 * lo <= threshold_doubled(lengths) <= 2 * hi,
{
    let sorted = ascending(lengths);
    let n = lengths.len() as int;
    lemma_at_most_total();
    lengths.lemma_sort_by_ensures(at_most());
    lengths.to_multiset_ensures();
    sorted.to_multiset_ensures();
    assert forall|i: int| 0 <= i < n implies lo <= #[trigger] sorted[i] && sorted[i] <= hi by {
        assert(sorted.contains(sorted[i]));
        assert(lengths.contains(sorted[i]));
        let j = choose|j: int| 0 <= j < lengths.len() && lengths[j] == sorted[i];
        assert(lo <= lengths[j] <= hi);
    }
}

/// `slice::sort` of the standard library on a vector of lengths. It
/// rearranges the vector in place: afterwards the vector holds the same
/// values, each as often as before, in ascending order.
#[verifier::external_body]
fn sort_lengths(values: &mut Vec<u32>)
    ensures
        final(values)@.to_multiset() == old(values)@.to_multiset(),
        forall|i: int, j: int|
            0 <= i <= j < final(values)@.len() ==> final(values)@[i] <= final(values)@[j],
{
    values.sort();
}

/// The lengths of periods, in the order of the periods.
pub fn period_lengths(periods: &Vec<Period>) -> (lengths: Vec<u32>)
    ensures
        lengths@ == lengths_of(periods@),
{
    let mut lengths: Vec<u32> = Vec::new();
    let mut i: usize = 0;
    while i < periods.len()
        invariant
            i <= periods.len(),
            lengths@.len() == i,
            forall|k: int| 0 <= k < i ==> lengths@[k] == periods@[k].length,
        decreases periods.len() - i,
    {
        lengths.push(periods[i].length);
        i += 1;
    }
    assert(lengths@ =~= lengths_of(periods@));
    lengths
}

/// Estimates the classification threshold from period lengths.
///
/// Fails with `TooFewPeriods` exactly when there are fewer than eight
/// lengths. The order of the lengths does not matter.
pub fn compute_threshold(periods: &Vec<u32>) -> (res: Result<Threshold, DecodeError>)
    ensures
        res == threshold_outcome(periods@),
{
    let n: usize = periods.len();
    if n < MIN_PERIODS {
        return Err(DecodeError::TooFewPeriods);
    }
    let mut sorted: Vec<u32> = Vec::new();
    let mut i: usize = 0;
    while i < n
        invariant
            i <= n,
            n == periods.len(),
            sorted@ == periods@.take(i as int),
        decreases n - i,
    {
        sorted.push(periods[i]);
        assert(periods@.take(i as int).push(periods@[i as int]) =~= periods@.take(i + 1));
        i += 1;
    }
    assert(periods@.take(n as int) =~= periods@);
    sort_lengths(&mut sorted);
    proof {
        lemma_ascending_is(periods@, sorted@);
    }
    let octile: usize = n / 8;
    let doubled: u64 = sorted[octile] as u64 + sorted[n - octile] as u64;
    Ok(Threshold { doubled })
}

} // verus!
