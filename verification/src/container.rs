//! Output encoding: bits and chunks as the bytes of a container.
//!
//! Bits are packed eight to a byte with the first bit in the most
//! significant place; the last byte is filled up with zero bits. Every
//! two-byte field is written with its high byte first.

use vstd::prelude::*;
use crate::frame::{chunk_views, ChunkView, DataChunk};

verus! {

/// Bit `i` of a sequence as a number; 0 beyond its end.
pub open spec fn bit_at(bits: Seq<bool>, i: int) -> int {
    if 0 <= i < bits.len() && bits[i] {
        1
    } else {
        0
    }
}

/// Byte `j` of the packed bits: bits `8 j` to `8 j + 7`, the first in the
/// most significant place.
pub open spec fn packed_byte(bits: Seq<bool>, j: int) -> int {
    128 * bit_at(bits, 8 * j) + 64 * bit_at(bits, 8 * j + 1) + 32 * bit_at(bits, 8 * j + 2) + 16
        * bit_at(bits, 8 * j + 3) + 8 * bit_at(bits, 8 * j + 4) + 4 * bit_at(bits, 8 * j + 5) + 2
        * bit_at(bits, 8 * j + 6) + bit_at(bits, 8 * j + 7)
}

/// The packed bits: one byte for every eight bits, the last one padded
/// with zero bits.
pub open spec fn packed(bits: Seq<bool>) -> Seq<u8> {
    Seq::new(((bits.len() + 7) / 8) as nat, |j: int| packed_byte(bits, j) as u8)
}

/// The bits among the first `n` symbols of a stream, gap markers left out.
pub open spec fn bit_values(symbols: Seq<u16>, n: int) -> Seq<bool>
    decreases n,
{
    if n <= 0 {
        Seq::empty()
    } else if symbols[n - 1] > 1 {
        bit_values(symbols, n - 1)
    } else {
        bit_values(symbols, n - 1).push(symbols[n - 1] == 1)
    }
}

/// The bits among the first `n` symbols depend on those symbols alone.
pub proof fn lemma_bit_values_prefix(a: Seq<u16>, b: Seq<u16>, n: int)
    requires
        n <= a.len(),
        n <= b.len(),
        forall|i: int| 0 <= i < n ==> a[i] == b[i],
    ensures
        bit_values(a, n) == bit_values(b, n),
    decreases n,
{
    if n > 0 {
        lemma_bit_values_prefix(a, b, n - 1);
    }
}

/// One more symbol adds its bit, or nothing where it is a gap marker.
pub proof fn lemma_bit_values_push(symbols: Seq<u16>, symbol: u16)
    ensures
        bit_values(symbols.push(symbol), (symbols.len() + 1) as int) == if symbol > 1 {
            bit_values(symbols, symbols.len() as int)
        } else {
            bit_values(symbols, symbols.len() as int).push(symbol == 1)
        },
{
    lemma_bit_values_prefix(symbols.push(symbol), symbols, symbols.len() as int);
}

/// A two-byte field, high byte first.
pub open spec fn be16(value: u16) -> Seq<u8> {
    seq![(value / 256) as u8, (value % 256) as u8]
}

/// The bytes of one chunk: the gap length as a two-byte field, then the
/// payload.
pub open spec fn chunk_bytes(chunk: ChunkView) -> Seq<u8> {
    be16(chunk.irg_length) + chunk.data
}

/// The bytes of the first `n` chunks, one after another in order.
pub open spec fn container_bytes(chunks: Seq<ChunkView>, n: int) -> Seq<u8>
    decreases n,
{
    if n <= 0 {
        Seq::empty()
    } else {
        container_bytes(chunks, n - 1) + chunk_bytes(chunks[n - 1])
    }
}

/// The tag of the block that opens a tape image.
pub open spec fn fuji_tag() -> Seq<u8> {
    seq![0x46u8, 0x55u8, 0x4au8, 0x49u8]
}

/// The tag of a block that sets the baud rate.
pub open spec fn baud_tag() -> Seq<u8> {
    seq![0x62u8, 0x61u8, 0x75u8, 0x64u8]
}

/// The tag of a block that holds a record.
pub open spec fn data_tag() -> Seq<u8> {
    seq![0x64u8, 0x61u8, 0x74u8, 0x61u8]
}

/// A block of a tape image: the tag, the payload length and an auxiliary
/// value as two-byte fields, then the payload.
pub open spec fn tape_block(tag: Seq<u8>, aux: u16, payload: Seq<u8>) -> Seq<u8> {
    tag + be16(payload.len() as u16) + be16(aux) + payload
}

/// The bits of a symbol stream in order, gap markers left out.
pub fn bits_of_symbols(symbols: &Vec<u16>) -> (bits: Vec<bool>)
    ensures
        bits@ == bit_values(symbols@, symbols@.len() as int),
{
    let mut bits: Vec<bool> = Vec::new();
    let mut i: usize = 0;
    while i < symbols.len()
        invariant
            i <= symbols.len(),
            bits@ == bit_values(symbols@, i as int),
        decreases symbols.len() - i,
    {
        let x: u16 = symbols[i];
        if x <= 1 {
            bits.push(x == 1);
        }
        i += 1;
    }
    bits
}

/// Bit `i` as a number; 0 beyond the end.
fn bit_or_zero(bits: &Vec<bool>, i: usize) -> (b: u8)
    ensures
        b == bit_at(bits@, i as int),
{
    if i < bits.len() && bits[i] {
        1
    } else {
        0
    }
}

/// Packs bits into bytes, the first bit of each byte in the most
/// significant place, the last byte padded with zero bits.
pub fn pack_bits(bits: &Vec<bool>) -> (bytes: Vec<u8>)
    ensures
        bytes@ == packed(bits@),
{
    let n: usize = bits.len();
    let count: usize = n / 8 + if n % 8 == 0 {
        0
    } else {
        1
    };
    let mut bytes: Vec<u8> = Vec::new();
    let mut j: usize = 0;
    while j < count
        invariant
            j <= count,
            n == bits@.len(),
            count == (n + 7) / 8,
            bytes@.len() == j,
            forall|k: int| 0 <= k < j ==> bytes@[k] == packed_byte(bits@, k) as u8,
        decreases count - j,
    {
        let base: usize = 8 * j;
        let byte: u8 = 128 * bit_or_zero(bits, base) + 64 * bit_or_zero(bits, base + 1) + 32
            * bit_or_zero(bits, base + 2) + 16 * bit_or_zero(bits, base + 3) + 8 * bit_or_zero(
            bits,
            base + 4,
        ) + 4 * bit_or_zero(bits, base + 5) + 2 * bit_or_zero(bits, base + 6) + bit_or_zero(
            bits,
            base + 7,
        );
        bytes.push(byte);
        j += 1;
    }
    assert(bytes@ =~= packed(bits@));
    bytes
}

/// Appends a two-byte field, high byte first.
fn push_be16(out: &mut Vec<u8>, value: u16)
    ensures
        final(out)@ == old(out)@ + be16(value),
{
    out.push((value / 256) as u8);
    out.push((value % 256) as u8);
    assert(out@ =~= old(out)@ + be16(value));
}

/// Appends bytes.
fn push_bytes(out: &mut Vec<u8>, bytes: &Vec<u8>)
    ensures
        final(out)@ == old(out)@ + bytes@,
{
    let mut i: usize = 0;
    assert(out@ =~= old(out)@ + bytes@.take(0));
    while i < bytes.len()
        invariant
            i <= bytes.len(),
            out@ == old(out)@ + bytes@.take(i as int),
        decreases bytes.len() - i,
    {
        out.push(bytes[i]);
        assert(out@ =~= old(out)@ + bytes@.take(i + 1));
        i += 1;
    }
    assert(bytes@.take(bytes.len() as int) =~= bytes@);
}

/// Encodes one chunk: its gap length, high byte first, then its payload.
pub fn encode_chunk(chunk: &DataChunk) -> (bytes: Vec<u8>)
    ensures
        bytes@ == chunk_bytes(chunk@),
{
    let mut bytes: Vec<u8> = Vec::new();
    push_be16(&mut bytes, chunk.irg_length);
    push_bytes(&mut bytes, &chunk.data);
    assert(bytes@ =~= chunk_bytes(chunk@));
    bytes
}

/// Encodes chunks one after another, in their order.
pub fn encode_chunks(chunks: &Vec<DataChunk>) -> (bytes: Vec<u8>)
    ensures
        bytes@ == container_bytes(chunk_views(chunks@), chunks@.len() as int),
{
    let mut bytes: Vec<u8> = Vec::new();
    let mut i: usize = 0;
    while i < chunks.len()
        invariant
            i <= chunks.len(),
            bytes@ == container_bytes(chunk_views(chunks@), i as int),
        decreases chunks.len() - i,
    {
        let ghost before = bytes@;
        push_be16(&mut bytes, chunks[i].irg_length);
        push_bytes(&mut bytes, &chunks[i].data);
        assert(bytes@ =~= before + chunk_bytes(chunk_views(chunks@)[i as int]));
        i += 1;
    }
    bytes
}

/// The block that opens a tape image: the tag and four zero bytes.
pub fn fuji_block() -> (bytes: Vec<u8>)
    ensures
        bytes@ == tape_block(fuji_tag(), 0, Seq::empty()),
{
    let mut bytes: Vec<u8> = Vec::new();
    bytes.push(0x46);
    bytes.push(0x55);
    bytes.push(0x4a);
    bytes.push(0x49);
    push_be16(&mut bytes, 0);
    push_be16(&mut bytes, 0);
    assert(bytes@ =~= tape_block(fuji_tag(), 0, Seq::empty()));
    bytes
}

/// The block that sets the baud rate: the tag, a zero length, and the rate
/// as the auxiliary value.
pub fn baud_block(baud_rate: u16) -> (bytes: Vec<u8>)
    ensures
        bytes@ == tape_block(baud_tag(), baud_rate, Seq::empty()),
{
    let mut bytes: Vec<u8> = Vec::new();
    bytes.push(0x62);
    bytes.push(0x61);
    bytes.push(0x75);
    bytes.push(0x64);
    push_be16(&mut bytes, 0);
    push_be16(&mut bytes, baud_rate);
    assert(bytes@ =~= tape_block(baud_tag(), baud_rate, Seq::empty()));
    bytes
}

/// The block that holds one record: the tag, the number of bytes, the gap
/// length as the auxiliary value, and the bytes.
///
/// The length field has two bytes: a record of more than 65535 bytes has no
/// block, and the result is `None` exactly then.
pub fn data_block(data: &Vec<u8>, irg_len: u16) -> (block: Option<Vec<u8>>)
    ensures
        match block {
            Some(bytes) => data@.len() <= u16::MAX && bytes@ == tape_block(
                data_tag(),
                irg_len,
                data@,
            ),
            None => data@.len() > u16::MAX,
        },
{
    if data.len() > u16::MAX as usize {
        return None;
    }
    let mut bytes: Vec<u8> = Vec::new();
    bytes.push(0x64);
    bytes.push(0x61);
    bytes.push(0x74);
    bytes.push(0x61);
    push_be16(&mut bytes, data.len() as u16);
    push_be16(&mut bytes, irg_len);
    push_bytes(&mut bytes, data);
    assert(bytes@ =~= tape_block(data_tag(), irg_len, data@));
    Some(bytes)
}

} // verus!
