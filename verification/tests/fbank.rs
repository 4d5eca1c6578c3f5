use sally::fbank::{frame_starts, profile_windows, FRAME_LEN, FRAME_SHIFT, NUM_BINS, SAMPLE_RATE};

#[test]
fn one_second_has_98_frames() {
    let starts = frame_starts(SAMPLE_RATE);
    assert_eq!(starts.len(), 98);
    assert_eq!(starts[1], FRAME_SHIFT);
    assert!(starts[97] + FRAME_LEN <= SAMPLE_RATE);
    assert_eq!(starts.len() * NUM_BINS, 7_840);
}

#[test]
fn short_input_has_no_frame() {
    assert!(frame_starts(100).is_empty());
    assert!(frame_starts(399).is_empty());
    assert_eq!(frame_starts(400), vec![0]);
}

#[test]
fn profiles_count_half_windows() {
    assert_eq!(profile_windows(1_000), vec![(0, 400), (400, 800), (800, 1_000)]);
    assert_eq!(profile_windows(999), vec![(0, 400), (400, 800)]);
    assert!(profile_windows(199).is_empty());
}
