use plunder::sample::{combine_i32, odd_bits_of, saturating_add, CombineError, Sample};

fn lift_one(s: Sample) -> i32 {
    combine_i32(&[s]).unwrap().unwrap()[0]
}

#[test]
fn combine_of_nothing_is_no_sample() {
    assert_eq!(combine_i32(&[]), Ok(None));
}

#[test]
fn combine_of_only_empty_is_no_sample() {
    assert_eq!(combine_i32(&[Sample::Empty, Sample::Empty]), Ok(None));
}

#[test]
fn combine_of_zero_channels_is_a_sample() {
    assert_eq!(combine_i32(&[Sample::U8(vec![])]), Ok(Some(vec![])));
}

#[test]
fn combine_adds_per_channel_and_skips_empty() {
    let samples = [
        Sample::S32(vec![1, 2]),
        Sample::Empty,
        Sample::S32(vec![3, -4]),
    ];
    assert_eq!(combine_i32(&samples), Ok(Some(vec![4, -2])));
}

#[test]
fn combine_saturates_at_both_ends() {
    let samples = [
        Sample::S32(vec![i32::MAX - 1, i32::MIN + 1]),
        Sample::S32(vec![i32::MAX, -2]),
    ];
    assert_eq!(combine_i32(&samples), Ok(Some(vec![i32::MAX, i32::MIN])));
}

#[test]
fn saturation_near_the_maximum() {
    assert_eq!(saturating_add(i32::MAX - 1, i32::MAX - 1), i32::MAX);
    assert_eq!(saturating_add(i32::MAX, i32::MAX), i32::MAX);
    assert_eq!(saturating_add(5, -7), -2);
}

#[test]
fn combine_rejects_channel_mismatch() {
    assert_eq!(
        combine_i32(&[Sample::S32(vec![1, 2]), Sample::S16(vec![1])]),
        Err(CombineError::ChannelInconsistency)
    );
    assert_eq!(
        combine_i32(&[Sample::S32(vec![1]), Sample::Empty, Sample::U8(vec![1, 2])]),
        Err(CombineError::ChannelInconsistency)
    );
}

#[test]
fn unsigned_lifts_are_recentred() {
    assert_eq!(lift_one(Sample::U8(vec![0])), i32::MIN);
    assert_eq!(lift_one(Sample::U8(vec![128])), 8421504);
    assert_eq!(lift_one(Sample::U8(vec![255])), i32::MAX);
    assert_eq!(lift_one(Sample::U16(vec![65535])), i32::MAX);
    assert_eq!(lift_one(Sample::U16(vec![0])), i32::MIN);
    assert_eq!(lift_one(Sample::U24(vec![765])), 2147483392);
    assert_eq!(lift_one(Sample::U24(vec![1 << 20])), i32::MAX);
    assert_eq!(lift_one(Sample::U32(vec![0])), i32::MIN);
    assert_eq!(lift_one(Sample::U32(vec![u32::MAX])), i32::MAX);
}

#[test]
fn signed_lifts_are_scaled() {
    assert_eq!(lift_one(Sample::S8(vec![1])), 16843009);
    assert_eq!(lift_one(Sample::S8(vec![-128])), i32::MIN);
    assert_eq!(lift_one(Sample::S8(vec![127])), 2139062143);
    assert_eq!(lift_one(Sample::S16(vec![-1])), -65537);
    assert_eq!(lift_one(Sample::S24(vec![1])), 5614336);
    assert_eq!(lift_one(Sample::S24(vec![1000])), i32::MAX);
    assert_eq!(lift_one(Sample::S32(vec![-42])), -42);
}

#[test]
fn float_lifts_go_through_the_bit_pattern() {
    assert_eq!(lift_one(Sample::F32(vec![1.0f32.to_bits()])), -1082130432);
    assert_eq!(lift_one(Sample::F64(vec![1.0f64.to_bits()])), -67108864);
    assert_eq!(lift_one(Sample::F64(vec![(-0.5f64).to_bits()])), 2080374784);
}

#[test]
fn odd_bits_are_gathered() {
    assert_eq!(odd_bits_of(0), 0);
    assert_eq!(odd_bits_of(0b10), 1);
    assert_eq!(odd_bits_of(0b1000), 2);
    assert_eq!(odd_bits_of(0b0101), 0);
    assert_eq!(odd_bits_of(u64::MAX), u32::MAX as u64);
    assert_eq!(odd_bits_of(1.0f64.to_bits()), 2080374784);
}
