use plunder::export::interleave_frames;

#[test]
fn recording_starts_at_the_first_sample() {
    let frames = vec![None, None, Some(vec![1, 2]), None, Some(vec![3, 4])];
    assert_eq!(interleave_frames(&frames), Some((2, vec![1, 2, 0, 0, 3, 4])));
}

#[test]
fn no_sample_no_recording() {
    assert_eq!(interleave_frames(&vec![None, None]), None);
    assert_eq!(interleave_frames(&vec![]), None);
}

#[test]
fn zero_channel_recording() {
    assert_eq!(interleave_frames(&vec![Some(vec![]), None]), Some((0, vec![])));
}
