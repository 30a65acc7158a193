use pcm_pipeline::gain::apply_gain;
use pcm_pipeline::ratio::Ratio;

fn ratio(num: i32, den: u32) -> Ratio {
    Ratio::new(num, den).unwrap()
}

#[test]
fn ratio_needs_a_denominator() {
    assert!(Ratio::new(1, 0).is_none());
    let r = Ratio::new(-3, 7).unwrap();
    assert_eq!(r.num(), -3);
    assert_eq!(r.den(), 7);
    assert_eq!(Ratio::one().num(), 1);
    assert_eq!(Ratio::one().den(), 1);
    assert_eq!(Ratio::zero().num(), 0);
    assert_eq!(Ratio::zero().den(), 1);
}

#[test]
fn ratio_scales_and_rounds_toward_zero() {
    assert_eq!(ratio(3, 2).apply(3), 4);
    assert_eq!(ratio(3, 2).apply(-3), -4);
    assert_eq!(ratio(1, 3).apply(2), 0);
    assert_eq!(ratio(1, 3).apply(-2), 0);
    assert_eq!(ratio(-1, 2).apply(5), -2);
    assert_eq!(ratio(i32::MIN, 1).apply(i64::MIN), 1i128 << 94);
    assert_eq!(ratio(3, 4).apply(100 << 32), 75 << 32);
}

#[test]
fn unit_gain_leaves_samples_unchanged() {
    let samples: [i16; 5] = [0, 1, -1, 32767, -32768];
    assert_eq!(apply_gain(&samples, Ratio::one()), samples.to_vec());
    assert_eq!(apply_gain(&samples, ratio(48000, 48000)), samples.to_vec());
    assert_eq!(apply_gain(&samples, ratio(i32::MAX, i32::MAX as u32)), samples.to_vec());
}

#[test]
fn gain_scales_a_constant_buffer_linearly() {
    let samples: [i16; 4] = [1000; 4];
    assert_eq!(apply_gain(&samples, ratio(3, 2)), vec![1500; 4]);
    assert_eq!(apply_gain(&samples, ratio(1, 8)), vec![125; 4]);
    assert_eq!(apply_gain(&samples, ratio(1, 3)), vec![333; 4]);
}

#[test]
fn apply_gain_limits_to_16_bits() {
    let samples: [i16; 6] = [100, -100, 32767, -32768, 3, -3];
    assert_eq!(
        apply_gain(&samples, ratio(3, 2)),
        vec![150, -150, 32767, -32768, 4, -4]
    );
}

#[test]
fn zero_gain_silences() {
    assert_eq!(apply_gain(&[5, -5, 32767], Ratio::zero()), vec![0, 0, 0]);
}

#[test]
fn negative_amplitude_inverts() {
    assert_eq!(apply_gain(&[5, -5, -32768], ratio(-1, 1)), vec![-5, 5, 32767]);
}
