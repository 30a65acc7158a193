use pcm_pipeline::audio::AudioError;
use pcm_pipeline::resample::{
    interpolate, interpolate_scaled, resample_scaled, sample_le_bytes, widen_to_nums,
};

fn checked(samples: &[i32], channels: u16, sample_rate: u32) -> Result<Vec<u8>, AudioError> {
    pcm_pipeline::resample::resample_to_pcm(samples, channels, sample_rate)
}

fn resample_to_pcm(samples: &[i32], channels: u16, sample_rate: u32) -> Vec<u8> {
    checked(samples, channels, sample_rate).unwrap()
}

fn frames(bytes: &[u8]) -> Vec<(i16, i16)> {
    assert_eq!(bytes.len() % 4, 0);
    bytes
        .chunks(4)
        .map(|c| {
            (
                i16::from_le_bytes([c[0], c[1]]),
                i16::from_le_bytes([c[2], c[3]]),
            )
        })
        .collect()
}

#[test]
fn bytes_are_little_endian_twos_complement() {
    assert_eq!(sample_le_bytes(0), (0, 0));
    assert_eq!(sample_le_bytes(258), (2, 1));
    assert_eq!(sample_le_bytes(-2), (0xfe, 0xff));
    assert_eq!(sample_le_bytes(-32768), (0x00, 0x80));
    assert_eq!(sample_le_bytes(32767), (0xff, 0x7f));
    for v in [-32768i16, -1234, -1, 0, 1, 1000, 32767] {
        let (lo, hi) = sample_le_bytes(v);
        assert_eq!([lo, hi], v.to_le_bytes());
    }
}

#[test]
fn interpolation_is_linear_and_rounds_toward_zero() {
    assert_eq!(interpolate(0, 100, 0), 0);
    assert_eq!(interpolate(0, 100, 24000), 50);
    assert_eq!(interpolate(0, 1000, 44100), 918);
    assert_eq!(interpolate(0, -1000, 44100), -918);
    assert_eq!(interpolate(1000, 2000, 40200), 1837);
    assert_eq!(interpolate(-1, 0, 47999), 0);
    assert_eq!(interpolate(100, 0, 12000), 75);
}

#[test]
fn quantisation_limits_to_16_bits() {
    assert_eq!(interpolate(40000, 40000, 0), 32767);
    assert_eq!(interpolate(-40000, -40000, 123), -32768);
    assert_eq!(interpolate(i32::MAX, i32::MIN, 47999), -32768);
    assert_eq!(interpolate(i32::MIN, i32::MAX, 47999), 32767);
    assert_eq!(interpolate(0, 65536, 24000), 32767);
}

#[test]
fn unity_rate_passes_the_source_frames_through() {
    let out = resample_to_pcm(&[10, 20, 30], 1, 48000);
    assert_eq!(out, vec![10, 0, 10, 0, 20, 0, 20, 0]);
    let stereo = resample_to_pcm(&[1, 2, 3, 4, 5, 6], 2, 48000);
    assert_eq!(frames(&stereo), vec![(1, 2), (3, 4)]);
}

#[test]
fn unity_rate_limits_to_16_bits() {
    let out = resample_to_pcm(&[40000, -40000, -1, 0], 1, 48000);
    assert_eq!(frames(&out), vec![(32767, 32767), (-32768, -32768), (-1, -1)]);
}

#[test]
fn doubling_the_rate_interpolates_midpoints() {
    let out = resample_to_pcm(&[0, 100, 200], 1, 24000);
    assert_eq!(frames(&out), vec![(0, 0), (50, 50), (100, 100), (150, 150)]);
}

#[test]
fn halving_the_rate_takes_every_other_frame() {
    let out = resample_to_pcm(&[0, 10, 20, 30, 40], 1, 96000);
    assert_eq!(frames(&out), vec![(0, 0), (20, 20)]);
}

#[test]
fn cd_rate_is_interpolated_at_fractional_positions() {
    let out = resample_to_pcm(&[0, 1000, 2000], 1, 44100);
    assert_eq!(frames(&out), vec![(0, 0), (918, 918), (1837, 1837)]);
    let neg = resample_to_pcm(&[0, -1000, -2000], 1, 44100);
    assert_eq!(frames(&neg), vec![(0, 0), (-918, -918), (-1837, -1837)]);
}

#[test]
fn stereo_channels_are_interpolated_apart() {
    let out = resample_to_pcm(&[0, 1000, 100, 0, 200, -1000], 2, 24000);
    assert_eq!(
        frames(&out),
        vec![(0, 1000), (50, 500), (100, 0), (150, -500)]
    );
}

#[test]
fn the_last_source_frame_starts_no_output_frame() {
    assert_eq!(resample_to_pcm(&[], 1, 48000), Vec::<u8>::new());
    assert_eq!(resample_to_pcm(&[5], 1, 48000), Vec::<u8>::new());
    assert_eq!(resample_to_pcm(&[5, 6], 2, 48000), Vec::<u8>::new());
    assert_eq!(resample_to_pcm(&[5, 6], 1, 48000).len(), 4);
    assert_eq!(resample_to_pcm(&[5, 6], 1, u32::MAX).len(), 4);
}

#[test]
fn output_length_follows_the_rate_ratio() {
    let src = vec![0i32; 441];
    // 440 source intervals at 44.1 kHz: ceil(440 * 48000 / 44100) = 479.
    assert_eq!(resample_to_pcm(&src, 1, 44100).len(), 479 * 4);
    let one_second = vec![0i32; 8000];
    assert_eq!(resample_to_pcm(&one_second, 1, 8000).len(), 7999 * 6 * 4);
    // A rate of one frame per second stretches one interval to 48000 frames.
    assert_eq!(resample_to_pcm(&[0, 48000], 1, 1).len(), 48000 * 4);
}

#[test]
fn slow_source_is_a_straight_ramp() {
    let out = frames(&resample_to_pcm(&[0, 48000], 1, 1));
    assert_eq!(out[0], (0, 0));
    assert_eq!(out[1], (1, 1));
    assert_eq!(out[12345], (12345, 12345));
    assert_eq!(out[32767], (32767, 32767));
    assert_eq!(out[47999], (32767, 32767));
}

#[test]
fn a_mono_sample_past_the_last_stereo_frame_is_ignored() {
    let out = resample_to_pcm(&[1, 2, 3, 4, 5], 2, 48000);
    assert_eq!(frames(&out), vec![(1, 2)]);
}

#[test]
fn shapes_that_cannot_be_resampled_are_refused() {
    assert_eq!(checked(&[1, 2, 3], 3, 48000), Err(AudioError::UnsupportedChannels));
    assert_eq!(checked(&[], 0, 48000), Err(AudioError::UnsupportedChannels));
    assert_eq!(checked(&[1, 2], 0, 0), Err(AudioError::UnsupportedChannels));
    assert_eq!(checked(&[1, 2], 1, 0), Err(AudioError::InvalidRate));
    assert_eq!(checked(&[1, 2], 2, 0), Err(AudioError::InvalidRate));
    assert_eq!(checked(&[1, 2], 1, 48000), Ok(vec![1, 0, 1, 0]));
}

#[test]
fn scaled_interpolation_rounds_once() {
    // 1/2 and 3/2, three quarters of the way: 1.25.
    assert_eq!(interpolate_scaled(1, 3, 36000, 2), 1);
    // 2/3 and 4/3, half way: exactly 1.
    assert_eq!(interpolate_scaled(2, 4, 24000, 3), 1);
    assert_eq!(interpolate_scaled(-2, -4, 24000, 3), -1);
    assert_eq!(interpolate_scaled(2, 4, 23999, 3), 0);
    assert_eq!(interpolate_scaled(1 << 94, 1 << 94, 47999, 1 << 64), 32767);
    assert_eq!(interpolate_scaled(-(1 << 94), 1 << 94, 0, 1), -32768);
    assert_eq!(interpolate_scaled(1 << 94, -(1 << 94), 47999, 1 << 64), -32768);
}

#[test]
fn scaled_resampling_divides_by_the_scale() {
    let out = resample_scaled(&[10, 20, 30], 10, 1, 48000).unwrap();
    assert_eq!(frames(&out), vec![(1, 1), (2, 2)]);
    let halves = resample_scaled(&[1, 3, 5, 7], 2, 2, 24000).unwrap();
    assert_eq!(
        resample_scaled(&[1, 3, 5], 2, 3, 24000),
        Err(AudioError::UnsupportedChannels)
    );
    assert_eq!(resample_scaled(&[1, 3], 2, 2, 0), Err(AudioError::InvalidRate));
    // Left 0.5 to 2.5, right 1.5 to 3.5, at the start and half way.
    assert_eq!(frames(&halves), vec![(0, 1), (1, 2)]);
    assert_eq!(widen_to_nums(&[1, -1, i32::MIN]), vec![1i128, -1, i32::MIN as i128]);
}
