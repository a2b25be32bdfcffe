//! Reading a wave container from bytes.
//!
//! The container is parsed by the `wav` crate. That parser walks the chunks
//! of the RIFF form and stops the program on a chunk header that is cut
//! short or on a chunk tag that is not UTF-8 text. The walk is therefore
//! checked here first, and bytes that do not pass are turned away as
//! unreadable before the parser sees them.

use vstd::prelude::*;
use vstd::slice::slice_subrange;
use vstd::utf8::valid_utf8;
#[allow(deprecated)]
use wav::BitDepth;
use crate::error::DecodeError;
use crate::signal::{SampleData, SampleView};

verus! {

/// What a wave container holds: the part of its header that decoding
/// needs, and its samples.
#[derive(Clone, Debug, PartialEq, Eq)]
pub struct WavAudio {
    /// The number of channels.
    pub channel_count: u16,
    /// The sampling rate in hertz.
    pub sampling_rate: u32,
    /// The samples.
    pub samples: SampleData,
}

/// What a `WavAudio` stands for.
pub struct WavAudioView {
    pub channel_count: u16,
    pub sampling_rate: u32,
    pub samples: SampleView,
}

impl View for WavAudio {
    type V = WavAudioView;

    open spec fn view(&self) -> WavAudioView {
        WavAudioView {
            channel_count: self.channel_count,
            sampling_rate: self.sampling_rate,
            samples: self.samples@,
        }
    }
}

/// The four bytes at `at` as a number, low byte first.
pub open spec fn le_u32(bytes: Seq<u8>, at: int) -> int {
    bytes[at] + 256 * bytes[at + 1] + 65536 * bytes[at + 2] + 16777216 * bytes[at + 3]
}

/// The four bytes at `at` are text: a valid UTF-8 encoding.
pub open spec fn text_tag(bytes: Seq<u8>, at: int) -> bool {
    valid_utf8(bytes.subrange(at, at + 4))
}

/// The four bytes at `at` are the given ones.
pub open spec fn has_tag(bytes: Seq<u8>, at: int, a: u8, b: u8, c: u8, d: u8) -> bool {
    bytes[at] == a && bytes[at + 1] == b && bytes[at + 2] == c && bytes[at + 3] == d
}

/// The tag at `at` is that of the format chunk, `fmt ` with a space.
pub open spec fn is_fmt(bytes: Seq<u8>, at: int) -> bool {
    has_tag(bytes, at, 0x66, 0x6d, 0x74, 0x20)
}

/// The tag at `at` is that of the data chunk, `data`.
pub open spec fn is_data(bytes: Seq<u8>, at: int) -> bool {
    has_tag(bytes, at, 0x64, 0x61, 0x74, 0x61)
}

/// The tag at `at` is the form type `WAVE`.
pub open spec fn is_wave(bytes: Seq<u8>, at: int) -> bool {
    has_tag(bytes, at, 0x57, 0x41, 0x56, 0x45)
}

/// The number of bytes from offset `cur` to offset `end`; 0 where `cur` is
/// at or past `end`.
pub open spec fn left_to_walk(cur: int, end: int) -> nat {
    if cur < end {
        (end - cur) as nat
    } else {
        0
    }
}

/// The chunks from offset `cur` on can be walked until both the format
/// chunk and the data chunk have been met or the offset `end` is reached:
/// every chunk header on the way lies within the bytes and has a tag that
/// is text, and the first format chunk and the first data chunk lie within the
/// bytes as a whole. A chunk is followed by the next after its eight header
/// bytes, its contents, and one more byte where its length is odd.
pub open spec fn chain_walkable(
    bytes: Seq<u8>,
    cur: int,
    end: int,
    seen_fmt: bool,
    seen_data: bool,
) -> bool
    decreases left_to_walk(cur, end),
{
    if cur >= end || (seen_fmt && seen_data) {
        true
    } else if cur < 0 || cur + 8 > bytes.len() {
        false
    } else if !text_tag(bytes, cur) {
        false
    } else {
        let len = le_u32(bytes, cur + 4);
        let first = (is_fmt(bytes, cur) && !seen_fmt) || (is_data(bytes, cur) && !seen_data);
        if first && cur + 8 + len > bytes.len() {
            false
        } else {
            chain_walkable(
                bytes,
                cur + 8 + len + len % 2,
                end,
                seen_fmt || is_fmt(bytes, cur),
                seen_data || is_data(bytes, cur),
            )
        }
    }
}

/// The bytes can be handed to the parser. Fewer than twelve bytes can: the
/// parser finds no form in them. Otherwise the form type must be text,
/// and where it is `WAVE` the chunks must be walkable from offset 12 to the
/// end that the form's length field gives.
pub open spec fn container_walkable(bytes: Seq<u8>) -> bool {
    bytes.len() < 12 || (text_tag(bytes, 8) && (!is_wave(bytes, 8) || chain_walkable(
        bytes,
        12,
        4 + le_u32(bytes, 4),
        false,
        false,
    )))
}

/// What `wav::read` makes of a container with these bytes: the header
/// fields and the samples that it returns, or `None` where it reports an
/// error.
pub uninterp spec fn wav_contents(bytes: Seq<u8>) -> Option<WavAudioView>;

/// The error type of the standard library's input and output, which
/// `wav::read` returns.
#[verifier::external_type_specification]
#[verifier::external_body]
pub struct ExIoError(std::io::Error);

/// `wav::read` on a cursor over the bytes. The parser reads nothing but
/// these bytes, so what it returns is `wav_contents` of them: the channel
/// count and sampling rate of the header and the samples in their
/// encoding, single-precision samples as their bit patterns, or its error.
/// The bytes must be walkable, since the parser stops the program on a
/// chunk header that is cut short and on a tag that `std::str::from_utf8`
/// does not accept.
#[allow(deprecated)]
#[verifier::external_body]
fn wav_read(bytes: &Vec<u8>) -> (res: Result<WavAudio, std::io::Error>)
    requires
        container_walkable(bytes@),
    ensures
        match res {
            Ok(audio) => wav_contents(bytes@) == Some(audio@),
            Err(_) => wav_contents(bytes@).is_none(),
        },
{
    let (header, data) = wav::read(&mut std::io::Cursor::new(bytes))?;
    let samples = match data {
        BitDepth::Eight(v) => SampleData::Eight(v),
        BitDepth::Sixteen(v) => SampleData::Sixteen(v),
        BitDepth::TwentyFour(v) => SampleData::TwentyFour(v),
        BitDepth::ThirtyTwoFloat(v) => SampleData::ThirtyTwoFloat(
            v.iter().map(|x| x.to_bits()).collect(),
        ),
        BitDepth::Empty => SampleData::Empty,
    };
    Ok(WavAudio { channel_count: header.channel_count, sampling_rate: header.sampling_rate, samples })
}

/// Reads four bytes as a number, low byte first.
fn read_le_u32(bytes: &Vec<u8>, at: usize) -> (value: u32)
    requires
        at + 4 <= bytes.len(),
    ensures
        value == le_u32(bytes@, at as int),
{
    bytes[at] as u32 + 256 * (bytes[at + 1] as u32) + 65536 * (bytes[at + 2] as u32) + 16777216 * (
    bytes[at + 3] as u32)
}

/// `std::str::from_utf8` of the standard library, asked only whether it
/// succeeds. It accepts a slice exactly when the bytes are valid UTF-8.
#[verifier::external_body]
fn is_text(tag: &[u8]) -> (ok: bool)
    ensures
        ok == valid_utf8(tag@),
{
    std::str::from_utf8(tag).is_ok()
}

/// Whether the four bytes at `at` are text.
fn tag_is_text(bytes: &Vec<u8>, at: usize) -> (ok: bool)
    requires
        at + 4 <= bytes.len(),
    ensures
        ok == text_tag(bytes@, at as int),
{
    is_text(slice_subrange(bytes.as_slice(), at, at + 4))
}

/// Whether the four bytes at `at` are the given ones.
fn tag_is(bytes: &Vec<u8>, at: usize, a: u8, b: u8, c: u8, d: u8) -> (ok: bool)
    requires
        at + 4 <= bytes.len(),
    ensures
        ok == has_tag(bytes@, at as int, a, b, c, d),
{
    bytes[at] == a && bytes[at + 1] == b && bytes[at + 2] == c && bytes[at + 3] == d
}

/// Checks that the bytes can be handed to the parser.
pub fn check_container(bytes: &Vec<u8>) -> (ok: bool)
    ensures
        ok == container_walkable(bytes@),
{
    let n: usize = bytes.len();
    if n < 12 {
        return true;
    }
    if !tag_is_text(bytes, 8) {
        return false;
    }
    if !tag_is(bytes, 8, 0x57, 0x41, 0x56, 0x45) {
        return true;
    }
    let end: u64 = 4 + read_le_u32(bytes, 4) as u64;
    let mut cur: u64 = 12;
    let mut seen_fmt: bool = false;
    let mut seen_data: bool = false;
    while cur < end && !(seen_fmt && seen_data)
        invariant
            n == bytes@.len(),
            12 <= cur,
            end <= 0x1_0000_0003,
            container_walkable(bytes@) == chain_walkable(
                bytes@,
                cur as int,
                end as int,
                seen_fmt,
                seen_data,
            ),
        decreases left_to_walk(cur as int, end as int),
    {
        if cur + 8 > n as u64 {
            return false;
        }
        let at: usize = cur as usize;
        if !tag_is_text(bytes, at) {
            return false;
        }
        let len: u64 = read_le_u32(bytes, at + 4) as u64;
        let fmt: bool = tag_is(bytes, at, 0x66, 0x6d, 0x74, 0x20);
        let data: bool = tag_is(bytes, at, 0x64, 0x61, 0x74, 0x61);
        if ((fmt && !seen_fmt) || (data && !seen_data)) && cur + 8 + len > n as u64 {
            return false;
        }
        cur = cur + 8 + len + len % 2;
        seen_fmt = seen_fmt || fmt;
        seen_data = seen_data || data;
    }
    true
}

/// Reads a wave container from its bytes.
///
/// Succeeds exactly when the bytes are walkable and the parser accepts
/// them, and then returns what the parser found. Everything else is
/// `UnreadableWav`.
pub fn read_wav_data(bytes: &Vec<u8>) -> (res: Result<WavAudio, DecodeError>)
    ensures
        match res {
            Ok(audio) => container_walkable(bytes@) && wav_contents(bytes@) == Some(audio@),
            Err(e) => e == DecodeError::UnreadableWav && (!container_walkable(bytes@)
                || wav_contents(bytes@).is_none()),
        },
{
    if !check_container(bytes) {
        return Err(DecodeError::UnreadableWav);
    }
    parsed_or_unreadable(wav_read(bytes))
}

/// Turns the parser's answer into the library's: its error becomes
/// `UnreadableWav`, what it found is kept.
pub fn parsed_or_unreadable(answer: Result<WavAudio, std::io::Error>) -> (res: Result<WavAudio, DecodeError>)
    ensures
        match answer {
            Ok(audio) => res == Ok::<WavAudio, DecodeError>(audio),
            Err(_) => res == Err::<WavAudio, DecodeError>(DecodeError::UnreadableWav),
        },
{
    match answer {
        Ok(audio) => Ok(audio),
        Err(_) => Err(DecodeError::UnreadableWav),
    }
}

} // verus!
