use std::io::Cursor;
use tape_decode::error::DecodeError;
use tape_decode::signal::SampleData;
use tape_decode::wave::{check_container, read_wav_data, WavAudio};

#[allow(deprecated)]
fn container(format: u16, channels: u16, rate: u32, bits: u16, track: &wav::BitDepth) -> Vec<u8> {
    let mut out = Cursor::new(Vec::new());
    wav::write(wav::Header::new(format, channels, rate, bits), track, &mut out).unwrap();
    out.into_inner()
}

#[test]
#[allow(deprecated)]
fn eight_bit_container_is_read() {
    let bytes = container(1, 1, 8000, 8, &wav::BitDepth::Eight(vec![1, 2, 3, 250]));
    assert_eq!(
        read_wav_data(&bytes),
        Ok(WavAudio {
            channel_count: 1,
            sampling_rate: 8000,
            samples: SampleData::Eight(vec![1, 2, 3, 250]),
        })
    );
}

#[test]
#[allow(deprecated)]
fn sixteen_bit_container_is_read() {
    let bytes = container(1, 2, 44100, 16, &wav::BitDepth::Sixteen(vec![-32768, -1, 0, 32767]));
    assert_eq!(
        read_wav_data(&bytes),
        Ok(WavAudio {
            channel_count: 2,
            sampling_rate: 44100,
            samples: SampleData::Sixteen(vec![-32768, -1, 0, 32767]),
        })
    );
}

#[test]
#[allow(deprecated)]
fn twenty_four_bit_levels_stand_in_the_upper_bytes() {
    let bytes = container(1, 1, 48000, 24, &wav::BitDepth::TwentyFour(vec![256, -256, 0x7fffff00]));
    assert_eq!(
        read_wav_data(&bytes),
        Ok(WavAudio {
            channel_count: 1,
            sampling_rate: 48000,
            samples: SampleData::TwentyFour(vec![256, -256, 0x7fffff00]),
        })
    );
}

#[test]
#[allow(deprecated)]
fn single_precision_samples_come_as_bit_patterns() {
    let bytes = container(3, 1, 22050, 32, &wav::BitDepth::ThirtyTwoFloat(vec![1.0, -0.5, 0.3]));
    assert_eq!(
        read_wav_data(&bytes),
        Ok(WavAudio {
            channel_count: 1,
            sampling_rate: 22050,
            samples: SampleData::ThirtyTwoFloat(vec![0x3f800000, 0xbf000000, 0x3e99999a]),
        })
    );
}

#[test]
fn a_container_written_by_hand_is_read() {
    let mut bytes: Vec<u8> = Vec::new();
    bytes.extend(b"RIFF");
    bytes.extend(&[40, 0, 0, 0]);
    bytes.extend(b"WAVE");
    bytes.extend(b"fmt ");
    bytes.extend(&[16, 0, 0, 0]);
    bytes.extend(&[1, 0, 1, 0, 0x40, 0x1f, 0, 0, 0x40, 0x1f, 0, 0, 1, 0, 8, 0]);
    bytes.extend(b"data");
    bytes.extend(&[4, 0, 0, 0]);
    bytes.extend(&[10, 20, 30, 40]);
    assert_eq!(bytes.len(), 48);
    assert!(check_container(&bytes));
    assert_eq!(
        read_wav_data(&bytes),
        Ok(WavAudio {
            channel_count: 1,
            sampling_rate: 8000,
            samples: SampleData::Eight(vec![10, 20, 30, 40]),
        })
    );
}

#[test]
#[allow(deprecated)]
fn chunks_before_the_format_and_the_data_are_walked_over() {
    let plain = container(1, 1, 8000, 8, &wav::BitDepth::Eight(vec![5, 6, 7, 8]));
    let mut bytes: Vec<u8> = plain[..12].to_vec();
    bytes.extend(b"LIST");
    bytes.extend(&[3, 0, 0, 0]);
    bytes.extend(&[1, 2, 3, 0]);
    bytes.extend(&plain[12..]);
    let length = (bytes.len() - 8) as u32;
    bytes[4..8].copy_from_slice(&length.to_le_bytes());
    assert!(check_container(&bytes));
    assert_eq!(
        read_wav_data(&bytes).map(|audio| audio.samples),
        Ok(SampleData::Eight(vec![5, 6, 7, 8]))
    );
}

#[test]
#[allow(deprecated)]
fn a_tag_of_other_than_ascii_text_is_walked_over() {
    let plain = container(1, 1, 8000, 8, &wav::BitDepth::Eight(vec![5, 6, 7, 8]));
    for tag in ["\u{e9}ab", "\u{20ac}x", "\u{1f3b5}", "\u{e9}\u{e9}"] {
        assert_eq!(tag.len(), 4);
        let mut bytes: Vec<u8> = plain[..12].to_vec();
        bytes.extend(tag.as_bytes());
        bytes.extend(&[2, 0, 0, 0, 1, 2]);
        bytes.extend(&plain[12..]);
        let length = (bytes.len() - 8) as u32;
        bytes[4..8].copy_from_slice(&length.to_le_bytes());
        assert!(check_container(&bytes));
        assert_eq!(
            read_wav_data(&bytes).map(|audio| audio.samples),
            Ok(SampleData::Eight(vec![5, 6, 7, 8]))
        );
    }
}

#[test]
#[allow(deprecated)]
fn a_tag_that_is_badly_encoded_is_turned_away() {
    let plain = container(1, 1, 8000, 8, &wav::BitDepth::Eight(vec![5, 6, 7, 8]));
    for tag in [
        [0x80, b'a', b'b', b'c'], // a continuation byte first
        [b'a', b'b', b'c', 0xc3], // a sequence cut short
        [0xc0, 0x80, b'a', b'b'], // an overlong encoding
        [0xed, 0xa0, 0x80, b'a'], // a surrogate
        [0xf4, 0x90, 0x80, 0x80], // past the last code point
        [0xf8, 0x88, 0x80, 0x80], // no leading byte
    ] {
        let mut bytes: Vec<u8> = plain[..12].to_vec();
        bytes.extend(&tag);
        bytes.extend(&[2, 0, 0, 0, 1, 2]);
        bytes.extend(&plain[12..]);
        let length = (bytes.len() - 8) as u32;
        bytes[4..8].copy_from_slice(&length.to_le_bytes());
        assert!(!check_container(&bytes));
        assert_eq!(read_wav_data(&bytes), Err(DecodeError::UnreadableWav));
    }
}

#[test]
#[allow(deprecated)]
fn a_chunk_header_that_is_cut_short_is_turned_away() {
    let bytes = container(1, 1, 8000, 8, &wav::BitDepth::Eight(vec![1, 2, 3, 4]));
    assert_eq!(bytes.len(), 48);
    for cut in [13, 17, 19, 37, 39, 43] {
        let short = bytes[..cut].to_vec();
        assert!(!check_container(&short));
        assert_eq!(read_wav_data(&short), Err(DecodeError::UnreadableWav));
    }
}

#[test]
#[allow(deprecated)]
fn chunk_contents_that_are_cut_short_are_turned_away() {
    let bytes = container(1, 1, 8000, 8, &wav::BitDepth::Eight(vec![1, 2, 3, 4]));
    for cut in [20, 30, 35, 44, 47] {
        let short = bytes[..cut].to_vec();
        assert!(!check_container(&short));
        assert_eq!(read_wav_data(&short), Err(DecodeError::UnreadableWav));
    }
}

#[test]
#[allow(deprecated)]
fn a_tag_that_is_not_text_is_turned_away() {
    let bytes = container(1, 1, 8000, 8, &wav::BitDepth::Eight(vec![1, 2, 3, 4]));
    for place in [8, 11, 12, 15, 36, 39] {
        let mut broken = bytes.clone();
        broken[place] = 0xff;
        assert!(!check_container(&broken));
        assert_eq!(read_wav_data(&broken), Err(DecodeError::UnreadableWav));
    }
}

#[test]
#[allow(deprecated)]
fn what_the_parser_turns_away_is_unreadable() {
    let bytes = container(1, 1, 8000, 8, &wav::BitDepth::Eight(vec![1, 2, 3, 4]));
    // Another form type.
    let mut other = bytes.clone();
    other[8..12].copy_from_slice(b"AVI ");
    assert!(check_container(&other));
    assert_eq!(read_wav_data(&other), Err(DecodeError::UnreadableWav));
    // A compressed format.
    let mut compressed = bytes.clone();
    compressed[20] = 2;
    assert!(check_container(&compressed));
    assert_eq!(read_wav_data(&compressed), Err(DecodeError::UnreadableWav));
    // A bit depth that is not supported.
    let mut deep = bytes.clone();
    deep[34] = 12;
    assert!(check_container(&deep));
    assert_eq!(read_wav_data(&deep), Err(DecodeError::UnreadableWav));
    // No data chunk.
    let mut dataless = bytes.clone();
    dataless[36..40].copy_from_slice(b"side");
    assert!(check_container(&dataless));
    assert_eq!(read_wav_data(&dataless), Err(DecodeError::UnreadableWav));
    // No format chunk.
    let mut formless = bytes.clone();
    formless[12..16].copy_from_slice(b"junk");
    assert!(check_container(&formless));
    assert_eq!(read_wav_data(&formless), Err(DecodeError::UnreadableWav));
}

#[test]
fn fewer_than_twelve_bytes_are_unreadable() {
    for length in 0..12 {
        let bytes = vec![b'R'; length];
        assert!(check_container(&bytes));
        assert_eq!(read_wav_data(&bytes), Err(DecodeError::UnreadableWav));
    }
}

#[test]
#[allow(deprecated)]
fn a_form_length_past_the_end_is_no_harm_once_both_chunks_are_met() {
    let mut bytes = container(1, 1, 8000, 8, &wav::BitDepth::Eight(vec![1, 2, 3, 4]));
    bytes[4..8].copy_from_slice(&[0xff, 0xff, 0xff, 0xff]);
    assert!(check_container(&bytes));
    assert_eq!(
        read_wav_data(&bytes).map(|audio| audio.samples),
        Ok(SampleData::Eight(vec![1, 2, 3, 4]))
    );
}

#[test]
#[allow(deprecated)]
fn a_form_length_past_the_end_without_a_data_chunk_is_turned_away() {
    let mut bytes = container(1, 1, 8000, 8, &wav::BitDepth::Eight(vec![1, 2, 3, 4]));
    bytes[36..40].copy_from_slice(b"side");
    bytes[4..8].copy_from_slice(&[0xff, 0xff, 0xff, 0xff]);
    assert!(!check_container(&bytes));
    assert_eq!(read_wav_data(&bytes), Err(DecodeError::UnreadableWav));
}

#[test]
#[allow(deprecated)]
fn damaged_containers_are_read_or_turned_away() {
    let sound = container(1, 1, 8000, 16, &wav::BitDepth::Sixteen(vec![1, -2, 3, -4, 5]));
    let mut state: u64 = 0x2545f4914f6cdd1d;
    let mut next = move || {
        state = state.wrapping_mul(6364136223846793005).wrapping_add(1442695040888963407);
        (state >> 33) as usize
    };
    let mut read = 0;
    let mut turned_away = 0;
    for _ in 0..40000 {
        let mut bytes = sound.clone();
        for _ in 0..(1 + next() % 3) {
            let place = next() % bytes.len();
            bytes[place] = match next() % 4 {
                0 => 0,
                1 => 0xff,
                2 => b"fmt data"[next() % 8],
                _ => next() as u8,
            };
        }
        if next() % 4 == 0 {
            bytes.truncate(next() % (bytes.len() + 1));
        }
        match read_wav_data(&bytes) {
            Ok(_) => read += 1,
            Err(e) => {
                assert_eq!(e, DecodeError::UnreadableWav);
                turned_away += 1;
            }
        }
    }
    assert_eq!(read + turned_away, 40000);
    assert!(read > 0 && turned_away > 0);
}
