use clack::decode::to_stereo;

#[test]
fn mono_is_duplicated() {
    assert_eq!(to_stereo(&vec![1, 2, 3], 1), vec![1, 1, 2, 2, 3, 3]);
}

#[test]
fn zero_channels_count_as_mono() {
    assert_eq!(to_stereo(&vec![5, 6], 0), vec![5, 5, 6, 6]);
}

#[test]
fn stereo_is_kept() {
    assert_eq!(to_stereo(&vec![1, 2, 3, 4], 2), vec![1, 2, 3, 4]);
}

#[test]
fn extra_channels_are_dropped_and_partial_frames_ignored() {
    // Three channels, two whole frames and one stray sample.
    assert_eq!(to_stereo(&vec![1, 2, 3, 4, 5, 6, 7], 3), vec![1, 2, 4, 5]);
}

#[test]
fn floats_work_too() {
    let out = to_stereo(&vec![0.5f32, -0.5], 1);
    assert_eq!(out, vec![0.5, 0.5, -0.5, -0.5]);
}

#[test]
fn empty_input_gives_empty_output() {
    let out: Vec<i16> = to_stereo(&Vec::new(), 2);
    assert!(out.is_empty());
}
