use tape_decode::error::DecodeError;
use tape_decode::pulse::Period;
use tape_decode::threshold::{compute_threshold, period_lengths, Threshold};

#[test]
fn threshold_is_the_mean_of_the_two_octile_lengths() {
    // Ascending: 5 6 7 8 9 10 11 12. An eighth of 8 is 1: 6 + 12.
    let lengths: Vec<u32> = vec![12, 6, 7, 8, 9, 10, 11, 5];
    assert_eq!(compute_threshold(&lengths), Ok(Threshold { doubled: 18 }));
}

#[test]
fn threshold_does_not_depend_on_the_order() {
    let ascending: Vec<u32> = (1..=40).collect();
    let descending: Vec<u32> = (1..=40).rev().collect();
    let mixed: Vec<u32> = (0..40).map(|i| (i * 7) % 40 + 1).collect();
    // An eighth of 40 is 5: the lengths at index 5 and 35 are 6 and 36.
    assert_eq!(compute_threshold(&ascending), Ok(Threshold { doubled: 42 }));
    assert_eq!(compute_threshold(&descending), Ok(Threshold { doubled: 42 }));
    assert_eq!(compute_threshold(&mixed), Ok(Threshold { doubled: 42 }));
}

#[test]
fn threshold_of_a_bimodal_recording_lies_between_the_populations() {
    let mut lengths: Vec<u32> = Vec::new();
    for i in 0..2000 {
        lengths.push(if i % 2 == 0 { 30 } else { 10 });
    }
    let threshold = compute_threshold(&lengths).unwrap();
    assert!(threshold.doubled > 2 * 10 && threshold.doubled < 2 * 30);
    assert_eq!(threshold.doubled, 40);
}

#[test]
fn threshold_ignores_a_few_outliers() {
    let mut lengths: Vec<u32> = vec![8; 40];
    lengths.extend(vec![20; 40]);
    lengths.extend(vec![5, 5, 50, 50, 49]);
    // 85 lengths, an eighth is 10: index 10 holds an 8, index 75 a 20.
    assert_eq!(compute_threshold(&lengths), Ok(Threshold { doubled: 28 }));
}

#[test]
fn threshold_odd_sum_is_kept_exact() {
    let lengths: Vec<u32> = vec![7, 7, 7, 7, 12, 12, 12, 12];
    // 7 + 12 = 19: the threshold is nine and a half.
    assert_eq!(compute_threshold(&lengths), Ok(Threshold { doubled: 19 }));
}

#[test]
fn threshold_holds_the_largest_lengths() {
    let lengths: Vec<u32> = vec![u32::MAX; 8];
    assert_eq!(compute_threshold(&lengths), Ok(Threshold { doubled: 8589934590 }));
}

#[test]
fn fewer_than_eight_periods_are_too_few() {
    assert_eq!(compute_threshold(&vec![]), Err(DecodeError::TooFewPeriods));
    assert_eq!(compute_threshold(&vec![9]), Err(DecodeError::TooFewPeriods));
    assert_eq!(compute_threshold(&vec![9, 9, 9, 9, 9, 9, 9]), Err(DecodeError::TooFewPeriods));
    assert_eq!(compute_threshold(&vec![9, 9, 9, 9, 9, 9, 9, 9]), Ok(Threshold { doubled: 18 }));
}

#[test]
fn lengths_are_taken_in_the_order_of_the_periods() {
    let periods = vec![
        Period { length: 8, position: 8 },
        Period { length: 20, position: 29 },
        Period { length: 5, position: 35 },
    ];
    assert_eq!(period_lengths(&periods), vec![8, 20, 5]);
    assert_eq!(period_lengths(&vec![]), Vec::<u32>::new());
}
