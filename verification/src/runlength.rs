//! Run-length reconstruction: from pulses to bit cells.
//!
//! One bit is recorded as several pulses in a row: nominally 6.5 pulses for
//! a 0 and 8.45 pulses for a 1. A run of equal bits is therefore worth the
//! run length divided by the nominal cell length, rounded to the nearest
//! whole number with halves rounded up. In integers that is
//! `(4 run + 13) / 26` for a 0 and `(40 run + 169) / 338` for a 1. A run
//! worth more than 10 cells is taken as damaged and dropped. Gap markers
//! pass through where they stand and take no part in the runs around them.

use vstd::prelude::*;
use crate::irg::{ends_gap, gap_marker, irg_symbols, measure_irg, SMALLEST_MARKER};
use crate::pulse::{positions_ordered, Period};
use crate::threshold::Threshold;

verus! {

/// The most bit cells that one run may be worth.
pub const MAX_CELLS: u32 = 10;

/// The number of bit cells that a run of `run` pulses of a bit is worth.
pub open spec fn cell_count(bit: u16, run: int) -> int {
    if bit == 0 {
        (4 * run + 13) / 26
    } else {
        (40 * run + 169) / 338
    }
}

/// What a run contributes to the stream: a gap marker itself; for a run of
/// bits as many copies of the bit as the run is worth, or nothing where
/// that is more than 10.
pub open spec fn collapsed(bit_value: u16, run: int) -> Seq<u16> {
    if bit_value > 1 {
        seq![bit_value]
    } else if cell_count(bit_value, run) > MAX_CELLS {
        Seq::empty()
    } else {
        Seq::new(cell_count(bit_value, run) as nat, |i: int| bit_value)
    }
}

/// The run that is open between two symbols: its bit and its length so
/// far. Before the first bit the length is 0.
pub struct RunState {
    pub bit: u16,
    pub run: int,
}

/// The open run after the first `n` symbols of a stream.
pub open spec fn run_after(symbols: Seq<u16>, n: int) -> RunState
    decreases n,
{
    if n <= 0 {
        RunState { bit: 0, run: 0 }
    } else {
        let st = run_after(symbols, n - 1);
        let x = symbols[n - 1];
        if x > 1 {
            st
        } else if st.run > 0 && st.bit == x {
            RunState { bit: x, run: st.run + 1 }
        } else {
            RunState { bit: x, run: 1 }
        }
    }
}

/// What one symbol adds to the output: a marker itself; a bit that differs
/// from the open run what that run is worth; a bit that continues the open
/// run nothing.
pub open spec fn emitted_by(st: RunState, x: u16) -> Seq<u16> {
    if x > 1 {
        seq![x]
    } else if st.run > 0 && st.bit == x {
        Seq::empty()
    } else {
        collapsed(st.bit, st.run)
    }
}

/// The output for the first `n` symbols of a stream, the open run not yet
/// counted.
pub open spec fn collapsed_prefix(symbols: Seq<u16>, n: int) -> Seq<u16>
    decreases n,
{
    if n <= 0 {
        Seq::empty()
    } else {
        collapsed_prefix(symbols, n - 1) + emitted_by(run_after(symbols, n - 1), symbols[n - 1])
    }
}

/// The reconstructed stream of a whole symbol stream: the output for all
/// symbols, then what the run that is open at the end is worth.
pub open spec fn collapse_of(symbols: Seq<u16>) -> Seq<u16> {
    let last = run_after(symbols, symbols.len() as int);
    collapsed_prefix(symbols, symbols.len() as int) + collapsed(last.bit, last.run)
}

/// The cell count is the run length over the nominal cell length, rounded
/// to the nearest whole number, halves up: for a 0 with 6.5 pulses to the
/// cell `count - 1/2 <= run / 6.5 < count + 1/2`, and likewise for a 1 with
/// 8.45 pulses to the cell. Both are stated here multiplied out.
pub proof fn lemma_cell_count_rounds(bit: u16, run: int)
    requires
        bit <= 1,
        run >= 0,
    ensures
        cell_count(bit, run) >= 0,
        bit == 0 ==> 13 * (2 * cell_count(bit, run) - 1) <= 4 * run < 13 * (2 * cell_count(
            bit,
            run,
        ) + 1),
        bit == 1 ==> 169 * (2 * cell_count(bit, run) - 1) <= 40 * run < 169 * (2 * cell_count(
            bit,
            run,
        ) + 1),
{
}

/// No run is open before the first bit, and an open run is never longer
/// than the stream so far.
pub proof fn lemma_run_bounds(symbols: Seq<u16>, n: int)
    requires
        0 <= n <= symbols.len(),
    ensures
        0 <= run_after(symbols, n).run <= n,
        run_after(symbols, n).bit <= 1,
    decreases n,
{
    if n > 0 {
        lemma_run_bounds(symbols, n - 1);
    }
}

/// What the first `n` symbols of a stream give depends on those symbols
/// alone.
pub proof fn lemma_collapse_prefix(a: Seq<u16>, b: Seq<u16>, n: int)
    requires
        n <= a.len(),
        n <= b.len(),
        forall|i: int| 0 <= i < n ==> a[i] == b[i],
    ensures
        run_after(a, n) == run_after(b, n),
        collapsed_prefix(a, n) == collapsed_prefix(b, n),
    decreases n,
{
    if n > 0 {
        lemma_collapse_prefix(a, b, n - 1);
    }
}

/// `count` copies of a symbol.
pub open spec fn run_of(symbol: u16, count: nat) -> Seq<u16> {
    Seq::new(count, |i: int| symbol)
}

/// The state and the output after a stream and `count` more copies of a
/// bit that does not continue the stream's open run: the new run is open
/// with `count` pulses, and the run before it has been written out.
proof fn lemma_run_appended(stream: Seq<u16>, bit: u16, count: nat)
    requires
        bit <= 1,
        count >= 1,
        run_after(stream, stream.len() as int).run == 0 || run_after(
            stream,
            stream.len() as int,
        ).bit != bit,
    ensures
        run_after(stream + run_of(bit, count), (stream.len() + count) as int) == (RunState {
            bit,
            run: count as int,
        }),
        collapsed_prefix(stream + run_of(bit, count), (stream.len() + count) as int) == collapsed_prefix(
            stream,
            stream.len() as int,
        ) + collapsed(
            run_after(stream, stream.len() as int).bit,
            run_after(stream, stream.len() as int).run,
        ),
    decreases count,
{
    let n = stream.len() as int;
    let whole = stream + run_of(bit, count);
    if count == 1 {
        lemma_collapse_prefix(whole, stream, n);
    } else {
        let shorter = stream + run_of(bit, (count - 1) as nat);
        lemma_run_appended(stream, bit, (count - 1) as nat);
        lemma_collapse_prefix(whole, shorter, n + count - 1);
        let kept = collapsed_prefix(shorter, n + count - 1);
        assert(kept + Seq::<u16>::empty() =~= kept);
    }
}

/// Appending a run to a stream appends what the run is worth. Where the
/// bit of the run differs from the bit of the run that the stream ends in,
/// the reconstructed stream is that of the stream followed by the cells of
/// the appended run.
pub proof fn lemma_collapse_appended_run(stream: Seq<u16>, bit: u16, count: nat)
    requires
        bit <= 1,
        count >= 1,
        run_after(stream, stream.len() as int).run == 0 || run_after(
            stream,
            stream.len() as int,
        ).bit != bit,
    ensures
        collapse_of(stream + run_of(bit, count)) == collapse_of(stream) + collapsed(
            bit,
            count as int,
        ),
        run_after(stream + run_of(bit, count), (stream.len() + count) as int) == (RunState {
            bit,
            run: count as int,
        }),
{
    lemma_run_appended(stream, bit, count);
}

/// A gap marker at the end of a stream comes out before the run that is
/// open at that point, and leaves that run open.
pub proof fn lemma_collapse_appended_marker(stream: Seq<u16>, marker: u16)
    requires
        marker > 1,
    ensures
        collapsed_prefix(stream.push(marker), (stream.len() + 1) as int) == collapsed_prefix(
            stream,
            stream.len() as int,
        ).push(marker),
        run_after(stream.push(marker), (stream.len() + 1) as int) == run_after(
            stream,
            stream.len() as int,
        ),
{
    let n = stream.len() as int;
    lemma_collapse_prefix(stream.push(marker), stream, n);
    assert(collapsed_prefix(stream, n) + seq![marker] =~= collapsed_prefix(stream, n).push(
        marker,
    ));
}

/// The stream of a sequence of runs, each given by its bit and its number
/// of pulses.
pub open spec fn runs_stream(runs: Seq<(u16, nat)>) -> Seq<u16>
    decreases runs.len(),
{
    if runs.len() == 0 {
        Seq::empty()
    } else {
        runs_stream(runs.drop_last()) + run_of(runs.last().0, runs.last().1)
    }
}

/// What a sequence of runs is worth: the cells of each run in order.
pub open spec fn runs_cells(runs: Seq<(u16, nat)>) -> Seq<u16>
    decreases runs.len(),
{
    if runs.len() == 0 {
        Seq::empty()
    } else {
        runs_cells(runs.drop_last()) + collapsed(runs.last().0, runs.last().1 as int)
    }
}

/// The runs are runs of bits, none is empty, and neighbours differ in their
/// bit.
pub open spec fn runs_alternate(runs: Seq<(u16, nat)>) -> bool {
    &&& forall|i: int| 0 <= i < runs.len() ==> (#[trigger] runs[i]).0 <= 1 && runs[i].1 >= 1
    &&& forall|i: int| 0 <= i < runs.len() - 1 ==> (#[trigger] runs[i]).0 != runs[i + 1].0
}

/// Reconstruction replaces every run by its cells. A stream without gap
/// markers is a sequence of runs whose neighbours differ, and its
/// reconstructed stream holds for each run, in order, as many copies of
/// its bit as the run is worth, or none where that is more than 10.
pub proof fn lemma_collapse_runs(runs: Seq<(u16, nat)>)
    requires
        runs_alternate(runs),
    ensures
        collapse_of(runs_stream(runs)) == runs_cells(runs),
        runs.len() > 0 ==> run_after(runs_stream(runs), runs_stream(runs).len() as int) == (
        RunState { bit: runs.last().0, run: runs.last().1 as int }),
        runs.len() == 0 ==> run_after(runs_stream(runs), runs_stream(runs).len() as int).run == 0,
    decreases runs.len(),
{
    if runs.len() == 0 {
        assert(collapse_of(runs_stream(runs)) =~= runs_cells(runs));
    } else {
        let front = runs.drop_last();
        assert(runs_alternate(front)) by {
            assert forall|i: int| 0 <= i < front.len() implies (#[trigger] front[i]).0 <= 1
                && front[i].1 >= 1 by {
                assert(front[i] == runs[i]);
            }
            assert forall|i: int| 0 <= i < front.len() - 1 implies (#[trigger] front[i]).0
                != front[i + 1].0 by {
                assert(front[i] == runs[i]);
                assert(front[i + 1] == runs[i + 1]);
            }
        }
        lemma_collapse_runs(front);
        if front.len() > 0 {
            assert(front.last() == runs[runs.len() - 2]);
            assert(runs[runs.len() - 2].0 != runs[runs.len() - 1].0);
        }
        lemma_collapse_appended_run(runs_stream(front), runs.last().0, runs.last().1);
    }
}

/// Appends to a stream what a run is worth.
///
/// A gap marker is appended as it is. A run of bits is appended as its
/// cell count of copies of the bit, or not at all where the count is more
/// than 10.
pub fn write_collapsed_data(bit_value: u16, cluster_length: u32, data_vec: &mut Vec<u16>)
    ensures
        final(data_vec)@ == old(data_vec)@ + collapsed(bit_value, cluster_length as int),
{
    if bit_value > 1 {
        data_vec.push(bit_value);
        assert(data_vec@ =~= old(data_vec)@ + seq![bit_value]);
        return ;
    }
    let num_bits: u64 = if bit_value == 0 {
        (4 * (cluster_length as u64) + 13) / 26
    } else {
        (40 * (cluster_length as u64) + 169) / 338
    };
    if num_bits > MAX_CELLS as u64 {
        assert(data_vec@ =~= old(data_vec)@ + Seq::<u16>::empty());
        return ;
    }
    let mut i: u64 = 0;
    while i < num_bits
        invariant
            i <= num_bits,
            data_vec@ == old(data_vec)@ + Seq::new(i as nat, |k: int| bit_value),
        decreases num_bits - i,
    {
        data_vec.push(bit_value);
        assert(Seq::new(i as nat, |k: int| bit_value).push(bit_value) =~= Seq::new(
            (i + 1) as nat,
            |k: int| bit_value,
        ));
        i += 1;
    }
}

/// Collapses the runs of a symbol stream into bit cells.
pub fn collapse_runs(symbols: &Vec<u16>) -> (bits: Vec<u16>)
    ensures
        bits@ == collapse_of(symbols@),
{
    let mut bits: Vec<u16> = Vec::new();
    let mut last_bit: u16 = 0;
    let mut run: usize = 0;
    let mut i: usize = 0;
    while i < symbols.len()
        invariant
            i <= symbols.len(),
            last_bit <= 1,
            run == run_after(symbols@, i as int).run,
            last_bit == run_after(symbols@, i as int).bit,
            bits@ == collapsed_prefix(symbols@, i as int),
        decreases symbols.len() - i,
    {
        let x: u16 = symbols[i];
        proof {
            lemma_run_bounds(symbols@, i as int);
        }
        if x > 1 {
            write_collapsed_data(x, 1, &mut bits);
        } else if run > 0 && last_bit == x {
            run += 1;
            assert(bits@ + Seq::<u16>::empty() =~= bits@);
        } else {
            flush_run(last_bit, run, &mut bits);
            last_bit = x;
            run = 1;
        }
        i += 1;
    }
    flush_run(last_bit, run, &mut bits);
    bits
}

/// Appends what a run of any length is worth.
fn flush_run(bit: u16, run: usize, bits: &mut Vec<u16>)
    requires
        bit <= 1,
    ensures
        final(bits)@ == old(bits)@ + collapsed(bit, run as int),
{
    if run > u32::MAX as usize {
        assert(bits@ + Seq::<u16>::empty() =~= bits@);
    } else {
        write_collapsed_data(bit, run as u32, bits);
    }
}

/// Turns measured periods into the reconstructed bit stream: the periods
/// are classified, gaps are marked, and runs are collapsed into bit cells.
/// Every gap marker lies within 2 and 65535. The positions of the periods
/// must not decrease.
pub fn normal_to_raw_binary(periods: &Vec<Period>, threshold: Threshold, sample_rate: u32) -> (bits:
    Vec<u16>)
    requires
        positions_ordered(periods@),
    ensures
        bits@ == collapse_of(
            irg_symbols(periods@, threshold, sample_rate, periods@.len() as int),
        ),
        forall|i: int|
            0 <= i < periods@.len() && #[trigger] ends_gap(periods@, threshold, i)
                ==> SMALLEST_MARKER <= gap_marker(periods@, threshold, sample_rate, i) <= u16::MAX,
{
    let pulses: Vec<u16> = measure_irg(periods, threshold, sample_rate);
    collapse_runs(&pulses)
}

} // verus!
