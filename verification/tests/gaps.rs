use tape_decode::container::bits_of_symbols;
use tape_decode::frame::FrameExtractor;
use tape_decode::irg::{marker_for, measure_irg, SMALLEST_MARKER};
use tape_decode::runlength::normal_to_raw_binary;
use tape_decode::pulse::Period;
use tape_decode::threshold::Threshold;

const THRESHOLD: Threshold = Threshold { doubled: 28 };

/// Periods of the given lengths, one every 25 samples.
fn periods_every_25(lengths: &[u32]) -> Vec<Period> {
    lengths
        .iter()
        .enumerate()
        .map(|(i, length)| Period { length: *length, position: 25 * (i as u64 + 1) })
        .collect()
}

#[test]
fn short_pulses_are_ones_and_long_pulses_zeros() {
    let periods = periods_every_25(&[8, 20, 14, 15, 5, 50]);
    assert_eq!(measure_irg(&periods, THRESHOLD, 44100), vec![1, 0, 1, 0, 1, 0]);
}

#[test]
fn a_period_at_the_threshold_is_short() {
    let periods = periods_every_25(&[9, 10]);
    // Threshold nine and a half.
    assert_eq!(measure_irg(&periods, Threshold { doubled: 19 }, 44100), vec![1, 0]);
    // Threshold nine.
    assert_eq!(measure_irg(&periods, Threshold { doubled: 18 }, 44100), vec![1, 0]);
    // Threshold ten.
    assert_eq!(measure_irg(&periods, Threshold { doubled: 20 }, 44100), vec![1, 1]);
}

#[test]
fn a_gap_is_marked_before_the_pulse_that_ends_it() {
    let mut lengths: Vec<u32> = vec![8; 150];
    lengths.extend([20, 8, 20]);
    let symbols = measure_irg(&periods_every_25(&lengths), THRESHOLD, 44100);
    // The long pulse that ends the streak lies at sample 25 * 151 = 3775:
    // 3775 * 1000 / 44100 = 85.6.
    let mut expected: Vec<u16> = vec![1; 150];
    expected.extend([85, 0, 1, 0]);
    assert_eq!(symbols, expected);
    assert_eq!(symbols.iter().filter(|s| **s > 1).count(), 1);
}

#[test]
fn a_gap_is_measured_from_the_long_pulse_before_it() {
    let mut lengths: Vec<u32> = vec![20, 8, 20];
    lengths.extend(vec![8; 101]);
    lengths.push(20);
    let symbols = measure_irg(&periods_every_25(&lengths), THRESHOLD, 8000);
    // From the third period at sample 75 to the 105th at sample 2625:
    // 2550 * 1000 / 8000 = 318.75.
    let mut expected: Vec<u16> = vec![0, 1, 0];
    expected.extend(vec![1; 101]);
    expected.extend([318, 0]);
    assert_eq!(symbols, expected);
}

#[test]
fn a_streak_of_exactly_one_hundred_is_no_gap() {
    let mut lengths: Vec<u32> = vec![8; 100];
    lengths.push(20);
    let symbols = measure_irg(&periods_every_25(&lengths), THRESHOLD, 44100);
    let mut expected: Vec<u16> = vec![1; 100];
    expected.push(0);
    assert_eq!(symbols, expected);
}

#[test]
fn a_streak_that_never_ends_is_not_marked() {
    let lengths: Vec<u32> = vec![8; 300];
    let symbols = measure_irg(&periods_every_25(&lengths), THRESHOLD, 44100);
    assert_eq!(symbols, vec![1; 300]);
}

#[test]
fn no_periods_give_no_symbols() {
    assert_eq!(measure_irg(&vec![], THRESHOLD, 44100), Vec::<u16>::new());
}

#[test]
fn a_marker_is_the_gap_in_whole_milliseconds() {
    assert_eq!(marker_for(44100, 44100), 1000);
    assert_eq!(marker_for(44099, 44100), 999);
    assert_eq!(marker_for(1370, 44100), 31);
    assert_eq!(marker_for(133, 44100), 3);
    assert_eq!(marker_for(132, 44100), 2);
    assert_eq!(marker_for(89, 44100), 2);
}

#[test]
fn a_marker_is_never_below_two() {
    assert_eq!(SMALLEST_MARKER, 2);
    assert_eq!(marker_for(88, 44100), 2); // 1.99 ms
    assert_eq!(marker_for(45, 44100), 2); // 1.02 ms
    assert_eq!(marker_for(44, 44100), 2); // 0.99 ms
    assert_eq!(marker_for(0, 44100), 2);
    assert_eq!(marker_for(0, u32::MAX), 2);
    assert_eq!(marker_for(1000, u32::MAX), 2);
}

#[test]
fn a_marker_is_capped() {
    assert_eq!(marker_for(65535, 1000), 65535);
    assert_eq!(marker_for(65536, 1000), 65535);
    assert_eq!(marker_for(u64::MAX, 1), 65535);
    assert_eq!(marker_for(u64::MAX, u32::MAX), 65535);
    assert_eq!(marker_for(2889, 44), 65535);
    assert_eq!(marker_for(2883, 44), 65522);
}

#[test]
fn a_marker_at_the_rate_zero() {
    assert_eq!(marker_for(0, 0), 2);
    assert_eq!(marker_for(1, 0), 65535);
}

#[test]
fn a_gap_of_less_than_two_milliseconds_is_marked_two() {
    // All periods at one position: the gap has no span at all.
    let mut still: Vec<Period> = vec![Period { length: 8, position: 0 }; 101];
    still.push(Period { length: 20, position: 0 });
    let mut expected: Vec<u16> = vec![1; 101];
    expected.extend([2, 0]);
    assert_eq!(measure_irg(&still, THRESHOLD, 44100), expected);

    // A sampling rate so high that 151 periods pass in under a millisecond.
    let mut lengths: Vec<u32> = vec![8; 150];
    lengths.push(20);
    let fast = measure_irg(&periods_every_25(&lengths), THRESHOLD, 4_000_000);
    let mut expected: Vec<u16> = vec![1; 150];
    expected.extend([2, 0]);
    assert_eq!(fast, expected);
    // 3775 samples at 2 MHz are 1.9 ms, at 1 MHz 3.8 ms.
    assert_eq!(measure_irg(&periods_every_25(&lengths), THRESHOLD, 2_000_000)[150], 2);
    assert_eq!(measure_irg(&periods_every_25(&lengths), THRESHOLD, 1_000_000)[150], 3);
}

#[test]
fn a_short_gap_is_still_a_gap_to_the_later_stages() {
    let mut lengths: Vec<u32> = vec![8; 150];
    lengths.extend(vec![20; 7]);
    lengths.extend(vec![8; 8]);
    let periods = periods_every_25(&lengths);
    let bits = normal_to_raw_binary(&periods, THRESHOLD, 4_000_000);
    assert_eq!(bits, vec![2, 0, 1]);
    let mut extractor = FrameExtractor::new();
    for bit in bits {
        extractor.push(bit);
    }
    assert_eq!(extractor.pending_irg, 2);
    assert!(extractor.in_byte);
}

#[test]
fn the_bits_of_the_symbols_are_the_bits_of_the_periods() {
    let mut lengths: Vec<u32> = vec![20, 8, 20];
    lengths.extend(vec![8; 120]);
    lengths.extend([20, 20, 8]);
    lengths.extend(vec![8; 101]);
    lengths.push(20);
    for rate in [0, 1, 8000, 44100, 4_000_000, u32::MAX] {
        let symbols = measure_irg(&periods_every_25(&lengths), THRESHOLD, rate);
        assert_eq!(symbols.len(), lengths.len() + 2);
        assert_eq!(symbols.iter().filter(|s| **s > 1).count(), 2);
        let bits: Vec<bool> = lengths.iter().map(|length| *length <= 14).collect();
        assert_eq!(bits_of_symbols(&symbols), bits);
    }
}
