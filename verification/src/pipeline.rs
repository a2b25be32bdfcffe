//! The whole decoding, from samples to data chunks.
//!
//! Every stage is a function of its arguments alone, and so is their
//! composition: the same samples, sampling rate and noise threshold always
//! decode to the same chunks.

use vstd::prelude::*;
use crate::container::container_bytes;
use crate::error::DecodeError;
use crate::frame::{chunk_views, extract_data, extracted, ChunkView, DataChunk, CHUNK_BYTES};
use crate::irg::irg_symbols;
use crate::pulse::{analyze_signal, periods_of, Period, Ratio};
use crate::runlength::{collapse_of, normal_to_raw_binary};
use crate::signal::{normalize, normalize_outcome, SampleData, SampleView, Signal, SignalView};
use crate::threshold::{compute_threshold, lengths_of, period_lengths, threshold_outcome, Threshold};
use crate::wave::{container_walkable, read_wav_data, wav_contents, WavAudio};

verus! {

/// The noise threshold that recordings are decoded with: a pulse counts
/// when the amplitude has dropped by at least three tenths.
pub open spec fn nominal_noise() -> Ratio {
    Ratio { num: 3, den: 10 }
}

/// The chunks that a signal frames into, given its periods' threshold.
pub open spec fn framed(periods: Seq<Period>, threshold: Threshold, sample_rate: u32) -> Seq<
    ChunkView,
> {
    let symbols = collapse_of(irg_symbols(periods, threshold, sample_rate, periods.len() as int));
    extracted(symbols, symbols.len() as int)
}

/// What decoding a normalized signal gives: the chunks, or the error of
/// threshold estimation.
pub open spec fn signal_outcome(signal: SignalView, sample_rate: u32, noise: Ratio) -> Result<
    Seq<ChunkView>,
    DecodeError,
> {
    let periods = periods_of(signal.samples, signal.scale, noise);
    match threshold_outcome(lengths_of(periods)) {
        Err(e) => Err(e),
        Ok(threshold) => Ok(framed(periods, threshold, sample_rate)),
    }
}

/// What decoding raw samples gives: the chunks, or the error of the first
/// stage that fails.
pub open spec fn decode_outcome(data: SampleView, sample_rate: u32, noise: Ratio) -> Result<
    Seq<ChunkView>,
    DecodeError,
> {
    match normalize_outcome(data) {
        Err(e) => Err(e),
        Ok(signal) => signal_outcome(signal, sample_rate, noise),
    }
}

/// What decoding the bytes of a wave container gives.
pub open spec fn container_outcome(bytes: Seq<u8>) -> Result<Seq<ChunkView>, DecodeError> {
    if !container_walkable(bytes) {
        Err(DecodeError::UnreadableWav)
    } else {
        match wav_contents(bytes) {
            None => Err(DecodeError::UnreadableWav),
            Some(audio) => decode_outcome(audio.samples, audio.sampling_rate, nominal_noise()),
        }
    }
}

/// Whether an executable result is the outcome that a specification names.
pub open spec fn chunks_result_is(
    res: Result<Vec<DataChunk>, DecodeError>,
    outcome: Result<Seq<ChunkView>, DecodeError>,
) -> bool {
    match (res, outcome) {
        (Ok(chunks), Ok(views)) => chunk_views(chunks@) == views,
        (Err(e), Err(f)) => e == f,
        _ => false,
    }
}

/// Two runs on the same samples with the same parameters end alike. Both
/// fail with the same error, or both give the same chunks, which encode to
/// the same bytes.
pub proof fn lemma_reruns_agree(
    data: SampleView,
    sample_rate: u32,
    noise: Ratio,
    first: Result<Vec<DataChunk>, DecodeError>,
    second: Result<Vec<DataChunk>, DecodeError>,
)
    requires
        chunks_result_is(first, decode_outcome(data, sample_rate, noise)),
        chunks_result_is(second, decode_outcome(data, sample_rate, noise)),
    ensures
        match (first, second) {
            (Ok(a), Ok(b)) => chunk_views(a@) == chunk_views(b@) && container_bytes(
                chunk_views(a@),
                a@.len() as int,
            ) == container_bytes(chunk_views(b@), b@.len() as int),
            (Err(e), Err(f)) => e == f,
            _ => false,
        },
{
    if let (Ok(a), Ok(b)) = (first, second) {
        assert(chunk_views(a@).len() == a@.len());
        assert(chunk_views(b@).len() == b@.len());
    }
}

/// Decodes a normalized signal into data chunks.
///
/// Fails with `TooFewPeriods` exactly when the signal has fewer than eight
/// periods. The denominators of the signal and of the noise threshold must
/// be positive.
pub fn decode_signal(signal: &Signal, sample_rate: u32, noise: Ratio) -> (res: Result<
    Vec<DataChunk>,
    DecodeError,
>)
    requires
        signal.wf(),
        noise.wf(),
    ensures
        chunks_result_is(res, signal_outcome(signal@, sample_rate, noise)),
        res matches Ok(chunks) ==> forall|k: int|
            0 <= k < chunks@.len() ==> (#[trigger] chunks@[k]).data@.len() == CHUNK_BYTES,
{
    let periods: Vec<Period> = analyze_signal(signal, noise);
    let lengths: Vec<u32> = period_lengths(&periods);
    match compute_threshold(&lengths) {
        Err(e) => Err(e),
        Ok(threshold) => {
            let binary: Vec<u16> = normal_to_raw_binary(&periods, threshold, sample_rate);
            Ok(extract_data(binary))
        },
    }
}

/// Decodes raw samples into data chunks.
///
/// Fails with `ZeroRange` exactly when the samples are integer levels that
/// are all the same, and otherwise with `TooFewPeriods` exactly when the
/// signal has fewer than eight periods. Every chunk has 132 payload bytes.
/// The denominator of the noise threshold must be positive.
pub fn decode_samples(data: &SampleData, sample_rate: u32, noise: Ratio) -> (res: Result<
    Vec<DataChunk>,
    DecodeError,
>)
    requires
        noise.wf(),
    ensures
        chunks_result_is(res, decode_outcome(data@, sample_rate, noise)),
        res matches Ok(chunks) ==> forall|k: int|
            0 <= k < chunks@.len() ==> (#[trigger] chunks@[k]).data@.len() == CHUNK_BYTES,
{
    match normalize(data) {
        Err(e) => Err(e),
        Ok(signal) => decode_signal(&signal, sample_rate, noise),
    }
}

/// Decodes what a wave container holds, at its sampling rate and with the
/// nominal noise threshold of three tenths.
pub fn process_wav(audio: &WavAudio) -> (res: Result<Vec<DataChunk>, DecodeError>)
    ensures
        chunks_result_is(
            res,
            decode_outcome(audio@.samples, audio@.sampling_rate, nominal_noise()),
        ),
        res matches Ok(chunks) ==> forall|k: int|
            0 <= k < chunks@.len() ==> (#[trigger] chunks@[k]).data@.len() == CHUNK_BYTES,
{
    decode_samples(&audio.samples, audio.sampling_rate, Ratio { num: 3, den: 10 })
}

/// Decodes the bytes of a wave container into data chunks.
///
/// Fails with `UnreadableWav` exactly when the bytes are not walkable or
/// the parser turns them away, and otherwise as `process_wav` does.
pub fn decode_wav(bytes: &Vec<u8>) -> (res: Result<Vec<DataChunk>, DecodeError>)
    ensures
        chunks_result_is(res, container_outcome(bytes@)),
        res matches Ok(chunks) ==> forall|k: int|
            0 <= k < chunks@.len() ==> (#[trigger] chunks@[k]).data@.len() == CHUNK_BYTES,
{
    match read_wav_data(bytes) {
        Err(e) => Err(e),
        Ok(audio) => process_wav(&audio),
    }
}

} // verus!
