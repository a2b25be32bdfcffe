//! Gap detection: from periods to a symbol stream with gap markers.
//!
//! A period at or below the threshold is a short pulse and reads as the bit
//! 1; a longer one reads as the bit 0. More than 100 short pulses in a row
//! are the tone of an inter-record gap. The long pulse that ends such a
//! streak is preceded in the stream by a gap marker: the time in
//! milliseconds from the long pulse before the streak (or from the start of
//! the signal) to this one. A marker is always above 1, so that it cannot be
//! taken for a bit: a gap of less than 2 milliseconds is marked 2.

use vstd::prelude::*;
use crate::container::{bit_values, lemma_bit_values_push};
use crate::pulse::{positions_ordered, Period};
use crate::threshold::Threshold;

verus! {

/// The number of short pulses in a row that a gap must exceed.
pub const GAP_STREAK: usize = 100;

/// The period is at or below the threshold.
pub open spec fn is_short(period: Period, threshold: Threshold) -> bool {
    2 * period.length <= threshold.doubled
}

/// The bit of a period: 1 for a short pulse, 0 for a long one.
pub open spec fn pulse_bit(period: Period, threshold: Threshold) -> u16 {
    if is_short(period, threshold) {
        1
    } else {
        0
    }
}

/// The smallest value of a gap marker. The values below it are the bits.
pub const SMALLEST_MARKER: u16 = 2;

/// A span of samples in whole milliseconds at a sampling rate above 0, cut
/// off towards zero.
pub open spec fn whole_ms(elapsed: int, sample_rate: u32) -> int {
    elapsed * 1000 / (sample_rate as int)
}

/// The value that marks a gap of a span of samples: the span in whole
/// milliseconds, held within 2 and 65535. A marker is never taken for a
/// bit: a gap of less than 2 milliseconds is marked 2. At the rate 0 an
/// empty span is marked 2 and any other span 65535.
pub open spec fn marker_value(elapsed: int, sample_rate: u32) -> u16 {
    if sample_rate == 0 {
        if elapsed == 0 {
            SMALLEST_MARKER
        } else {
            u16::MAX
        }
    } else if whole_ms(elapsed, sample_rate) > u16::MAX {
        u16::MAX
    } else if whole_ms(elapsed, sample_rate) < SMALLEST_MARKER {
        SMALLEST_MARKER
    } else {
        whole_ms(elapsed, sample_rate) as u16
    }
}

/// The number of short pulses in a row that end the first `n` periods.
pub open spec fn streak_after(periods: Seq<Period>, threshold: Threshold, n: int) -> int
    decreases n,
{
    if n <= 0 {
        0
    } else if is_short(periods[n - 1], threshold) {
        streak_after(periods, threshold, n - 1) + 1
    } else {
        0
    }
}

/// The position of the last long pulse among the first `n` periods, or 0
/// where there is none.
pub open spec fn boundary_after(periods: Seq<Period>, threshold: Threshold, n: int) -> int
    decreases n,
{
    if n <= 0 {
        0
    } else if is_short(periods[n - 1], threshold) {
        boundary_after(periods, threshold, n - 1)
    } else {
        periods[n - 1].position as int
    }
}

/// Period `i` is a long pulse that ends a gap.
pub open spec fn ends_gap(periods: Seq<Period>, threshold: Threshold, i: int) -> bool {
    !is_short(periods[i], threshold) && streak_after(periods, threshold, i) > GAP_STREAK
}

/// The marker of the gap that period `i` ends.
pub open spec fn gap_marker(
    periods: Seq<Period>,
    threshold: Threshold,
    sample_rate: u32,
    i: int,
) -> u16 {
    marker_value(periods[i].position - boundary_after(periods, threshold, i), sample_rate)
}

/// The symbols of the first `n` periods: the bit of each period in order,
/// with the marker of a gap before the bit of the period that ends it.
pub open spec fn irg_symbols(
    periods: Seq<Period>,
    threshold: Threshold,
    sample_rate: u32,
    n: int,
) -> Seq<u16>
    decreases n,
{
    if n <= 0 {
        Seq::empty()
    } else {
        let before = irg_symbols(periods, threshold, sample_rate, n - 1);
        if ends_gap(periods, threshold, n - 1) {
            before.push(gap_marker(periods, threshold, sample_rate, n - 1)).push(0)
        } else {
            before.push(pulse_bit(periods[n - 1], threshold))
        }
    }
}

/// The streak is never longer than the periods seen, and the boundary is
/// the position of one of them or 0.
pub proof fn lemma_streak_boundary(periods: Seq<Period>, threshold: Threshold, n: int)
    requires
        0 <= n <= periods.len(),
        positions_ordered(periods),
    ensures
        0 <= streak_after(periods, threshold, n) <= n,
        0 <= boundary_after(periods, threshold, n),
        forall|i: int|
            n <= i < periods.len() ==> boundary_after(periods, threshold, n) <= (
            #[trigger] periods[i]).position,
    decreases n,
{
    if n > 0 {
        lemma_streak_boundary(periods, threshold, n - 1);
        assert forall|i: int| n <= i < periods.len() implies boundary_after(
            periods,
            threshold,
            n,
        ) <= (#[trigger] periods[i]).position by {
            assert(periods[n - 1].position <= periods[i].position);
        }
    }
}

/// The bits of the first `n` periods: whether each is a short pulse.
pub open spec fn period_bits(periods: Seq<Period>, threshold: Threshold, n: int) -> Seq<bool> {
    Seq::new(n as nat, |i: int| is_short(periods[i], threshold))
}

/// Every gap marker lies within 2 and 65535, so none is a bit.
pub proof fn lemma_marker_range(elapsed: int, sample_rate: u32)
    ensures
        SMALLEST_MARKER <= marker_value(elapsed, sample_rate) <= u16::MAX,
{
}

/// Gap markers and bits stay apart. The symbols of the first `n` periods
/// hold at least one symbol for each period, and their bits, read in order
/// with the markers left out, are the bits of the periods: no marker is
/// read as a bit and no bit is lost.
pub proof fn lemma_irg_bits(periods: Seq<Period>, threshold: Threshold, sample_rate: u32, n: int)
    requires
        0 <= n <= periods.len(),
    ensures
        irg_symbols(periods, threshold, sample_rate, n).len() >= n,
        bit_values(
            irg_symbols(periods, threshold, sample_rate, n),
            irg_symbols(periods, threshold, sample_rate, n).len() as int,
        ) == period_bits(periods, threshold, n),
    decreases n,
{
    let now = irg_symbols(periods, threshold, sample_rate, n);
    if n == 0 {
        assert(bit_values(now, 0) =~= period_bits(periods, threshold, 0));
    } else {
        lemma_irg_bits(periods, threshold, sample_rate, n - 1);
        let before = irg_symbols(periods, threshold, sample_rate, n - 1);
        let bits = bit_values(before, before.len() as int);
        if ends_gap(periods, threshold, n - 1) {
            let marker = gap_marker(periods, threshold, sample_rate, n - 1);
            lemma_bit_values_push(before, marker);
            lemma_bit_values_push(before.push(marker), 0);
            assert(bits.push(false) =~= period_bits(periods, threshold, n));
        } else {
            lemma_bit_values_push(before, pulse_bit(periods[n - 1], threshold));
            assert(bits.push(is_short(periods[n - 1], threshold)) =~= period_bits(
                periods,
                threshold,
                n,
            ));
        }
    }
}

/// The value that marks a gap of a span of samples: the span in whole
/// milliseconds, raised to 2 where it is less and held at 65535 where it is
/// more.
pub fn marker_for(elapsed: u64, sample_rate: u32) -> (marker: u16)
    ensures
        marker == marker_value(elapsed as int, sample_rate),
        marker >= SMALLEST_MARKER,
{
    if sample_rate == 0 {
        if elapsed == 0 {
            SMALLEST_MARKER
        } else {
            u16::MAX
        }
    } else {
        let whole: u128 = elapsed as u128 * 1000 / (sample_rate as u128);
        if whole > u16::MAX as u128 {
            u16::MAX
        } else if whole < SMALLEST_MARKER as u128 {
            SMALLEST_MARKER
        } else {
            whole as u16
        }
    }
}

/// Classifies periods and marks inter-record gaps.
///
/// The result holds one bit for each period, in order, and before the bit
/// of each long pulse that ends a streak of more than 100 short pulses the
/// marker of that gap. Every marker lies within 2 and 65535, so the bits
/// of the result, with the markers left out, are the bits of the periods.
/// The positions of the periods must not decrease, as those of measured
/// periods never do; `positions_in_order` tells whether they do.
pub fn measure_irg(periods: &Vec<Period>, threshold: Threshold, sample_rate: u32) -> (symbols: Vec<
    u16,
>)
    requires
        positions_ordered(periods@),
    ensures
        symbols@ == irg_symbols(periods@, threshold, sample_rate, periods@.len() as int),
        forall|i: int|
            0 <= i < periods@.len() && #[trigger] ends_gap(periods@, threshold, i)
                ==> SMALLEST_MARKER <= gap_marker(periods@, threshold, sample_rate, i) <= u16::MAX,
        bit_values(symbols@, symbols@.len() as int) == period_bits(
            periods@,
            threshold,
            periods@.len() as int,
        ),
{
    proof {
        lemma_irg_bits(periods@, threshold, sample_rate, periods@.len() as int);
    }
    let mut symbols: Vec<u16> = Vec::new();
    let mut streak: usize = 0;
    let mut boundary: u64 = 0;
    let mut i: usize = 0;
    while i < periods.len()
        invariant
            i <= periods.len(),
            positions_ordered(periods@),
            streak == streak_after(periods@, threshold, i as int),
            boundary == boundary_after(periods@, threshold, i as int),
            symbols@ == irg_symbols(periods@, threshold, sample_rate, i as int),
        decreases periods.len() - i,
    {
        let period: Period = periods[i];
        proof {
            lemma_streak_boundary(periods@, threshold, i as int);
        }
        if 2 * (period.length as u64) <= threshold.doubled {
            streak += 1;
            symbols.push(1);
        } else {
            if streak > GAP_STREAK {
                symbols.push(marker_for(period.position - boundary, sample_rate));
            }
            streak = 0;
            boundary = period.position;
            symbols.push(0);
        }
        i += 1;
    }
    symbols
}

} // verus!
