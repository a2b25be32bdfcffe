//! Framing: from the reconstructed symbol stream to data chunks.
//!
//! A symbol is a bit (0 or 1) or a gap marker (any value above 1, the length
//! of an inter-record gap in milliseconds). Outside a data region the
//! extractor is idle: a gap marker is noted as the gap that precedes the
//! next chunk, a 0 is the start bit of the first byte, a 1 is passed over.
//! Inside a data region every symbol fills one of ten slots per byte: the
//! start bit, eight data bits with the least significant first, the stop
//! bit. A data slot reads 0 for the symbol 0 and 1 for any other symbol.
//! After 132 bytes the chunk is emitted and the extractor is idle again. A
//! chunk that is still incomplete when the symbols end is not emitted.

use vstd::prelude::*;

verus! {

/// The number of payload bytes in a chunk.
pub const CHUNK_BYTES: usize = 132;

/// One framed record: the gap that preceded it and its payload.
#[derive(Clone, Debug, PartialEq, Eq)]
pub struct DataChunk {
    /// The length in milliseconds of the gap before the chunk; 0 where no
    /// gap was seen.
    pub irg_length: u16,
    /// The payload bytes.
    pub data: Vec<u8>,
}

/// What a `DataChunk` stands for.
pub struct ChunkView {
    pub irg_length: u16,
    pub data: Seq<u8>,
}

impl View for DataChunk {
    type V = ChunkView;

    open spec fn view(&self) -> ChunkView {
        ChunkView { irg_length: self.irg_length, data: self.data@ }
    }
}

/// The chunks of a sequence, each as what it stands for.
pub open spec fn chunk_views(chunks: Seq<DataChunk>) -> Seq<ChunkView> {
    Seq::new(chunks.len(), |i: int| chunks[i]@)
}

/// The state of the extractor between two symbols.
pub struct FrameState {
    /// Inside a data region.
    pub in_byte: bool,
    /// The slot that the next symbol fills, 0 to 9.
    pub slot: int,
    /// The value of the data bits of the current byte so far.
    pub byte: int,
    /// The bytes of the current chunk so far.
    pub payload: Seq<u8>,
    /// The gap noted for the chunk that is about to begin or has begun.
    pub pending_irg: u16,
}

/// The idle state in which extraction starts and to which it returns after
/// every chunk.
pub open spec fn idle_frame() -> FrameState {
    FrameState { in_byte: false, slot: 0, byte: 0, payload: Seq::empty(), pending_irg: 0 }
}

/// The bit that a symbol contributes in a data slot.
pub open spec fn data_bit(symbol: u16) -> int {
    if symbol == 0 {
        0
    } else {
        1
    }
}

/// The weight of the data bit in slot 1 to 8: 1, 2, 4 and so on up to 128.
/// Slot 0 has the weight 1 and slot 9 the weight 256, so that the byte so
/// far is always below the weight of the next slot.
pub open spec fn slot_weight(slot: int) -> int {
    if slot <= 1 {
        1
    } else if slot == 2 {
        2
    } else if slot == 3 {
        4
    } else if slot == 4 {
        8
    } else if slot == 5 {
        16
    } else if slot == 6 {
        32
    } else if slot == 7 {
        64
    } else if slot == 8 {
        128
    } else {
        256
    }
}

/// The state is one that extraction can reach.
pub open spec fn frame_wf(st: FrameState) -> bool {
    &&& 0 <= st.slot <= 9
    &&& 0 <= st.byte < slot_weight(st.slot)
    &&& st.payload.len() < CHUNK_BYTES
    &&& !st.in_byte ==> st.slot == 0 && st.payload.len() == 0
}

/// The symbol completes a chunk: it fills the stop slot of the last byte.
pub open spec fn completes_chunk(st: FrameState, symbol: u16) -> bool {
    st.in_byte && st.slot == 9 && st.payload.len() + 1 == CHUNK_BYTES
}

/// The state after one symbol.
pub open spec fn frame_step(st: FrameState, symbol: u16) -> FrameState {
    if !st.in_byte {
        if symbol > 1 {
            FrameState { pending_irg: symbol, ..st }
        } else if symbol == 0 {
            FrameState { in_byte: true, slot: 1, byte: 0, ..st }
        } else {
            st
        }
    } else if st.slot == 0 {
        FrameState { slot: 1, byte: 0, ..st }
    } else if st.slot <= 8 {
        FrameState {
            slot: st.slot + 1,
            byte: st.byte + data_bit(symbol) * slot_weight(st.slot),
            ..st
        }
    } else if completes_chunk(st, symbol) {
        idle_frame()
    } else {
        FrameState { slot: 0, byte: 0, payload: st.payload.push(st.byte as u8), ..st }
    }
}

/// The chunk that one symbol completes, if it completes one.
pub open spec fn frame_emits(st: FrameState, symbol: u16) -> Option<ChunkView> {
    if completes_chunk(st, symbol) {
        Some(ChunkView { irg_length: st.pending_irg, data: st.payload.push(st.byte as u8) })
    } else {
        None
    }
}

/// The state after the first `n` symbols of a stream.
pub open spec fn frame_after(symbols: Seq<u16>, n: int) -> FrameState
    decreases n,
{
    if n <= 0 {
        idle_frame()
    } else {
        frame_step(frame_after(symbols, n - 1), symbols[n - 1])
    }
}

/// The chunks that the first `n` symbols of a stream complete, in order.
pub open spec fn extracted(symbols: Seq<u16>, n: int) -> Seq<ChunkView>
    decreases n,
{
    if n <= 0 {
        Seq::empty()
    } else {
        let before = extracted(symbols, n - 1);
        match frame_emits(frame_after(symbols, n - 1), symbols[n - 1]) {
            Some(chunk) => before.push(chunk),
            None => before,
        }
    }
}

/// A step keeps a reachable state reachable, and a chunk that it emits has
/// exactly 132 bytes.
pub proof fn lemma_frame_step(st: FrameState, symbol: u16)
    requires
        frame_wf(st),
    ensures
        frame_wf(frame_step(st, symbol)),
        frame_emits(st, symbol) matches Some(chunk) ==> chunk.data.len() == CHUNK_BYTES,
{
}

/// Every state along a stream is reachable, and every chunk extracted from
/// it has exactly 132 bytes.
pub proof fn lemma_extracted_chunks_full(symbols: Seq<u16>, n: int)
    requires
        n <= symbols.len(),
    ensures
        frame_wf(frame_after(symbols, n)),
        forall|k: int|
            0 <= k < extracted(symbols, n).len() ==> (#[trigger] extracted(
                symbols,
                n,
            )[k]).data.len() == CHUNK_BYTES,
    decreases n,
{
    if n > 0 {
        lemma_extracted_chunks_full(symbols, n - 1);
        lemma_frame_step(frame_after(symbols, n - 1), symbols[n - 1]);
        let before = extracted(symbols, n - 1);
        let now = extracted(symbols, n);
        assert forall|k: int| 0 <= k < now.len() implies (#[trigger] now[k]).data.len()
            == CHUNK_BYTES by {
            if k < before.len() {
                assert(now[k] == before[k]);
            }
        }
    }
}

/// The number of symbols that frame one chunk: ten slots for each byte.
pub const CHUNK_SLOTS: usize = 1320;

/// The value of the data bits in the slots before `slot` of the byte whose
/// start bit is symbol `base`.
pub open spec fn partial_byte(symbols: Seq<u16>, base: int, slot: int) -> int
    decreases slot,
{
    if slot <= 1 {
        0
    } else {
        partial_byte(symbols, base, slot - 1) + data_bit(symbols[base + slot - 1]) * slot_weight(
            slot - 1,
        )
    }
}

/// The byte that the ten symbols from `base` on frame: the symbol after
/// the start bit is its lowest bit, the symbol before the stop bit its
/// highest.
pub open spec fn framed_byte(symbols: Seq<u16>, base: int) -> int {
    partial_byte(symbols, base, 9)
}

/// The first `count` bytes of the chunk whose first start bit is symbol
/// `start`.
pub open spec fn framed_payload(symbols: Seq<u16>, start: int, count: int) -> Seq<u8> {
    Seq::new(count as nat, |j: int| framed_byte(symbols, start + 10 * j) as u8)
}

/// The data bits before a slot are worth less than the weight of the slot.
pub proof fn lemma_partial_byte_bound(symbols: Seq<u16>, base: int, slot: int)
    requires
        0 <= slot <= 9,
    ensures
        0 <= partial_byte(symbols, base, slot) < slot_weight(slot),
    decreases slot,
{
    if slot > 1 {
        lemma_partial_byte_bound(symbols, base, slot - 1);
    }
}

/// Inside a chunk the state follows from the symbols alone. After `m`
/// symbols of a chunk that symbol `start` opens, with `m` below 1320, the
/// extractor stands at slot `m % 10` of byte `m / 10`, holds the bytes and
/// bits framed so far, and has emitted nothing since.
pub proof fn lemma_inside_chunk(symbols: Seq<u16>, start: int, m: int)
    requires
        0 <= start,
        start + m <= symbols.len(),
        1 <= m < CHUNK_SLOTS,
        !frame_after(symbols, start).in_byte,
        symbols[start] == 0,
    ensures
        frame_after(symbols, start + m) == (FrameState {
            in_byte: true,
            slot: m % 10,
            byte: partial_byte(symbols, start + 10 * (m / 10), m % 10),
            payload: framed_payload(symbols, start, m / 10),
            pending_irg: frame_after(symbols, start).pending_irg,
        }),
        extracted(symbols, start + m) == extracted(symbols, start),
    decreases m,
{
    lemma_extracted_chunks_full(symbols, start);
    let opened = frame_after(symbols, start);
    if m == 1 {
        assert(frame_after(symbols, start + 1).payload =~= framed_payload(symbols, start, 0));
    } else {
        lemma_inside_chunk(symbols, start, m - 1);
        let before = frame_after(symbols, start + m - 1);
        let symbol = symbols[start + m - 1];
        let after = frame_step(before, symbol);
        let slot = (m - 1) % 10;
        let full = (m - 1) / 10;
        let base = start + 10 * full;
        assert(before.slot == slot);
        assert(before.payload.len() == full);
        if slot == 9 {
            lemma_partial_byte_bound(symbols, base, 9);
            assert(m / 10 == full + 1);
            assert(after.payload =~= framed_payload(symbols, start, m / 10));
        } else {
            assert(m / 10 == full);
            assert(m % 10 == slot + 1);
            assert(after.payload =~= framed_payload(symbols, start, m / 10));
            if slot >= 1 {
                assert(start + m - 1 == base + slot);
            }
        }
    }
}

/// A chunk is framed from 1320 symbols. Where the extractor is idle before
/// symbol `start` and that symbol is a start bit, the 1320 symbols from
/// there on complete exactly one chunk: it carries the gap noted before,
/// its 132 bytes are the framed bytes of the symbols, ten symbols to the
/// byte, and the extractor is idle again afterwards.
pub proof fn lemma_chunk_framed(symbols: Seq<u16>, start: int)
    requires
        0 <= start,
        start + CHUNK_SLOTS <= symbols.len(),
        !frame_after(symbols, start).in_byte,
        symbols[start] == 0,
    ensures
        extracted(symbols, start + CHUNK_SLOTS) == extracted(symbols, start).push(
            ChunkView {
                irg_length: frame_after(symbols, start).pending_irg,
                data: framed_payload(symbols, start, CHUNK_BYTES as int),
            },
        ),
        frame_after(symbols, start + CHUNK_SLOTS) == idle_frame(),
{
    lemma_inside_chunk(symbols, start, CHUNK_SLOTS - 1);
    let before = frame_after(symbols, start + CHUNK_SLOTS - 1);
    lemma_partial_byte_bound(symbols, start + 1310, 9);
    assert(before.payload.push(before.byte as u8) =~= framed_payload(
        symbols,
        start,
        CHUNK_BYTES as int,
    ));
}

/// A stream of exactly 1320 symbols that opens with a start bit frames into
/// exactly one chunk of 132 bytes, with no gap noted, and leaves nothing
/// over: the extractor is idle at the end.
pub proof fn lemma_one_chunk(symbols: Seq<u16>)
    requires
        symbols.len() == CHUNK_SLOTS,
        symbols[0] == 0,
    ensures
        extracted(symbols, symbols.len() as int) == seq![
            ChunkView { irg_length: 0, data: framed_payload(symbols, 0, CHUNK_BYTES as int) },
        ],
        extracted(symbols, symbols.len() as int)[0].data.len() == CHUNK_BYTES,
        frame_after(symbols, symbols.len() as int) == idle_frame(),
{
    lemma_chunk_framed(symbols, 0);
    assert(extracted(symbols, 0).push(
        ChunkView { irg_length: 0, data: framed_payload(symbols, 0, CHUNK_BYTES as int) },
    ) =~= seq![
        ChunkView { irg_length: 0, data: framed_payload(symbols, 0, CHUNK_BYTES as int) },
    ]);
}

/// The frame extractor: the state between two symbols, in executable form.
#[derive(Debug)]
pub struct FrameExtractor {
    /// Inside a data region.
    pub in_byte: bool,
    /// The slot that the next symbol fills, 0 to 9.
    pub slot: u8,
    /// The value of the data bits of the current byte so far.
    pub byte: u8,
    /// The bytes of the current chunk so far.
    pub payload: Vec<u8>,
    /// The gap noted for the chunk that is about to begin or has begun.
    pub pending_irg: u16,
}

impl View for FrameExtractor {
    type V = FrameState;

    open spec fn view(&self) -> FrameState {
        FrameState {
            in_byte: self.in_byte,
            slot: self.slot as int,
            byte: self.byte as int,
            payload: self.payload@,
            pending_irg: self.pending_irg,
        }
    }
}

/// The weight of a data slot.
fn weight_of(slot: u8) -> (w: u8)
    requires
        1 <= slot <= 8,
    ensures
        w == slot_weight(slot as int),
{
    if slot == 1 {
        1
    } else if slot == 2 {
        2
    } else if slot == 3 {
        4
    } else if slot == 4 {
        8
    } else if slot == 5 {
        16
    } else if slot == 6 {
        32
    } else if slot == 7 {
        64
    } else {
        128
    }
}

impl FrameExtractor {
    /// The state is one that extraction can reach.
    pub open spec fn wf(&self) -> bool {
        frame_wf(self@)
    }

    /// An idle extractor with no gap noted.
    pub fn new() -> (fresh: FrameExtractor)
        ensures
            fresh@ == idle_frame(),
            fresh.wf(),
    {
        FrameExtractor { in_byte: false, slot: 0, byte: 0, payload: Vec::new(), pending_irg: 0 }
    }

    /// Takes one symbol and returns the chunk that it completes, if any.
    pub fn push(&mut self, symbol: u16) -> (out: Option<DataChunk>)
        requires
            old(self).wf(),
        ensures
            final(self).wf(),
            final(self)@ == frame_step(old(self)@, symbol),
            match out {
                Some(chunk) => frame_emits(old(self)@, symbol) == Some(chunk@),
                None => frame_emits(old(self)@, symbol).is_none(),
            },
            out matches Some(chunk) ==> chunk.data@.len() == CHUNK_BYTES,
    {
        if !self.in_byte {
            if symbol > 1 {
                self.pending_irg = symbol;
            } else if symbol == 0 {
                self.in_byte = true;
                self.slot = 1;
                self.byte = 0;
            }
            None
        } else if self.slot == 0 {
            self.slot = 1;
            self.byte = 0;
            None
        } else if self.slot <= 8 {
            if symbol != 0 {
                self.byte = self.byte + weight_of(self.slot);
            }
            self.slot = self.slot + 1;
            None
        } else {
            self.payload.push(self.byte);
            self.slot = 0;
            self.byte = 0;
            if self.payload.len() == CHUNK_BYTES {
                let mut data: Vec<u8> = Vec::new();
                std::mem::swap(&mut data, &mut self.payload);
                let chunk = DataChunk { irg_length: self.pending_irg, data };
                self.pending_irg = 0;
                self.in_byte = false;
                Some(chunk)
            } else {
                None
            }
        }
    }
}

/// Frames a symbol stream into data chunks.
///
/// The result holds, in order, exactly the chunks that the stream
/// completes. Every chunk has 132 payload bytes; bytes of a chunk that the
/// stream leaves incomplete are dropped.
pub fn extract_data(input: Vec<u16>) -> (chunks: Vec<DataChunk>)
    ensures
        chunk_views(chunks@) == extracted(input@, input@.len() as int),
        forall|k: int| 0 <= k < chunks@.len() ==> (#[trigger] chunks@[k]).data@.len() == CHUNK_BYTES,
{
    let mut chunks: Vec<DataChunk> = Vec::new();
    let mut state = FrameExtractor::new();
    let mut i: usize = 0;
    assert(chunk_views(chunks@) =~= extracted(input@, 0));
    while i < input.len()
        invariant
            i <= input.len(),
            state.wf(),
            state@ == frame_after(input@, i as int),
            chunk_views(chunks@) == extracted(input@, i as int),
            forall|k: int|
                0 <= k < chunks@.len() ==> (#[trigger] chunks@[k]).data@.len() == CHUNK_BYTES,
        decreases input.len() - i,
    {
        let ghost before = chunks@;
        match state.push(input[i]) {
            Some(chunk) => {
                chunks.push(chunk);
                assert(chunk_views(chunks@) =~= chunk_views(before).push(chunk@));
            },
            None => {},
        }
        i += 1;
    }
    chunks
}

} // verus!
