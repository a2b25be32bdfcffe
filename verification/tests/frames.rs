use tape_decode::frame::{extract_data, DataChunk, FrameExtractor, CHUNK_BYTES, CHUNK_SLOTS};

/// The ten symbols of each byte: a start bit, the data bits from the
/// lowest to the highest, a stop bit.
fn symbols_of(bytes: &[u8]) -> Vec<u16> {
    let mut symbols: Vec<u16> = Vec::new();
    for byte in bytes {
        symbols.push(0);
        for place in 0..8 {
            symbols.push(((byte >> place) & 1) as u16);
        }
        symbols.push(1);
    }
    symbols
}

fn record(seed: u8) -> Vec<u8> {
    (0..CHUNK_BYTES).map(|i| (i as u8).wrapping_mul(37).wrapping_add(seed)).collect()
}

#[test]
fn exactly_1320_bits_frame_one_chunk_and_leave_nothing() {
    let bytes = record(11);
    let symbols = symbols_of(&bytes);
    assert_eq!(symbols.len(), 1320);
    assert_eq!(CHUNK_SLOTS, 1320);
    let chunks = extract_data(symbols.clone());
    assert_eq!(chunks.len(), 1);
    assert_eq!(chunks[0].data.len(), 132);
    assert_eq!(chunks[0], DataChunk { irg_length: 0, data: bytes });

    let mut extractor = FrameExtractor::new();
    let mut emitted = 0;
    for symbol in symbols {
        if extractor.push(symbol).is_some() {
            emitted += 1;
        }
    }
    assert_eq!(emitted, 1);
    assert!(!extractor.in_byte);
    assert_eq!(extractor.slot, 0);
    assert!(extractor.payload.is_empty());
    assert_eq!(extractor.pending_irg, 0);
}

#[test]
fn one_bit_short_of_a_chunk_frames_nothing() {
    let mut symbols = symbols_of(&record(3));
    symbols.pop();
    assert_eq!(extract_data(symbols), vec![]);
}

#[test]
fn no_symbols_frame_nothing() {
    assert_eq!(extract_data(vec![]), vec![]);
    assert_eq!(extract_data(vec![1; 5000]), vec![]);
    assert_eq!(extract_data(vec![700, 800, 900]), vec![]);
}

#[test]
fn a_chunk_carries_the_gap_before_it() {
    let bytes = record(5);
    let mut symbols: Vec<u16> = vec![1, 1, 2500, 1, 1];
    symbols.extend(symbols_of(&bytes));
    assert_eq!(extract_data(symbols), vec![DataChunk { irg_length: 2500, data: bytes }]);
}

#[test]
fn the_last_gap_before_a_chunk_counts() {
    let bytes = record(6);
    let mut symbols: Vec<u16> = vec![300, 1, 400];
    symbols.extend(symbols_of(&bytes));
    assert_eq!(extract_data(symbols), vec![DataChunk { irg_length: 400, data: bytes }]);
}

#[test]
fn the_gap_is_cleared_after_each_chunk() {
    let first = record(1);
    let second = record(2);
    let third = record(3);
    let mut symbols: Vec<u16> = vec![1800];
    symbols.extend(symbols_of(&first));
    symbols.extend([1, 1, 1]);
    symbols.extend(symbols_of(&second));
    symbols.extend([1, 250, 1]);
    symbols.extend(symbols_of(&third));
    assert_eq!(
        extract_data(symbols),
        vec![
            DataChunk { irg_length: 1800, data: first },
            DataChunk { irg_length: 0, data: second },
            DataChunk { irg_length: 250, data: third },
        ]
    );
}

#[test]
fn every_chunk_has_132_bytes_and_an_incomplete_one_is_dropped() {
    let mut symbols: Vec<u16> = Vec::new();
    for seed in 0..4 {
        symbols.extend(symbols_of(&record(seed)));
    }
    symbols.extend(symbols_of(&record(9)[..100]));
    let chunks = extract_data(symbols);
    assert_eq!(chunks.len(), 4);
    for (seed, chunk) in chunks.iter().enumerate() {
        assert_eq!(chunk.data.len(), 132);
        assert_eq!(chunk.data, record(seed as u8));
    }
}

#[test]
fn the_first_data_bit_is_the_lowest() {
    let mut bytes = vec![0u8; CHUNK_BYTES];
    bytes[0] = 0x01;
    bytes[1] = 0x80;
    bytes[2] = 0xa5;
    let mut symbols: Vec<u16> = Vec::new();
    symbols.extend([0, 1, 0, 0, 0, 0, 0, 0, 0, 1]);
    symbols.extend([0, 0, 0, 0, 0, 0, 0, 0, 1, 1]);
    symbols.extend([0, 1, 0, 1, 0, 0, 1, 0, 1, 1]);
    symbols.extend(symbols_of(&bytes[3..]));
    assert_eq!(extract_data(symbols), vec![DataChunk { irg_length: 0, data: bytes }]);
}

#[test]
fn start_and_stop_slots_are_passed_over_whatever_they_hold() {
    let bytes = record(8);
    let mut symbols = symbols_of(&bytes);
    for byte in 0..CHUNK_BYTES {
        if byte > 0 {
            symbols[10 * byte] = 1;
        }
        symbols[10 * byte + 9] = 0;
    }
    assert_eq!(extract_data(symbols), vec![DataChunk { irg_length: 0, data: bytes }]);
}

#[test]
fn a_gap_marker_in_a_data_slot_reads_as_one() {
    let mut bytes = vec![0u8; CHUNK_BYTES];
    bytes[0] = 0x04;
    let mut symbols = symbols_of(&vec![0u8; CHUNK_BYTES]);
    symbols[3] = 900;
    assert_eq!(extract_data(symbols), vec![DataChunk { irg_length: 0, data: bytes }]);
}

#[test]
fn the_extractor_moves_slot_by_slot() {
    let mut extractor = FrameExtractor::new();
    assert!(!extractor.in_byte);
    assert_eq!(extractor.push(1), None);
    assert!(!extractor.in_byte);
    assert_eq!(extractor.push(77), None);
    assert_eq!(extractor.pending_irg, 77);
    assert!(!extractor.in_byte);
    assert_eq!(extractor.push(0), None);
    assert!(extractor.in_byte);
    assert_eq!(extractor.slot, 1);
    for (bit, byte_so_far) in [(1u16, 1u8), (1, 3), (0, 3), (0, 3), (1, 19), (0, 19), (0, 19), (1, 147)] {
        assert_eq!(extractor.push(bit), None);
        assert_eq!(extractor.byte, byte_so_far);
    }
    assert_eq!(extractor.slot, 9);
    assert_eq!(extractor.push(1), None);
    assert_eq!(extractor.slot, 0);
    assert_eq!(extractor.byte, 0);
    assert_eq!(extractor.payload, vec![147]);
    assert_eq!(extractor.pending_irg, 77);
    assert!(extractor.in_byte);
}
