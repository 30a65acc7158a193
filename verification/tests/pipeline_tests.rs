use pcm_pipeline::audio::{AudioError, AudioSpec, SampleFormat};
use pcm_pipeline::buffer::SampleBuffer;
use pcm_pipeline::pipeline::{
    fade_and_gain, load_pcm_data, process_buffer, process_samples, to_fine_values, widen_fine,
    Settings,
};
use pcm_pipeline::ratio::Ratio;

fn spec(channel_count: u16, sample_rate: u32) -> AudioSpec {
    AudioSpec {
        channel_count,
        sample_rate,
        sample_format: SampleFormat::Int16,
    }
}

fn frames(bytes: &[u8]) -> Vec<(i16, i16)> {
    bytes
        .chunks(4)
        .map(|c| {
            (
                i16::from_le_bytes([c[0], c[1]]),
                i16::from_le_bytes([c[2], c[3]]),
            )
        })
        .collect()
}

#[test]
fn constant_tone_end_to_end() {
    let samples = vec![1000i32; 480];
    let out = process_samples(samples, spec(1, 48000), Settings::neutral()).unwrap();
    // 479 frames of audio, 24000 frames of silence, padded to 26 transport frames.
    assert_eq!(out.len(), 99840);
    let all = frames(&out);
    // The recording is shorter than the 960-sample fade: every sample is
    // scaled by the count of samples to the end over 960.
    for i in 0..479 {
        let v = (1000 * (480 - i as i32) / 960) as i16;
        assert_eq!(all[i], (v, v));
    }
    assert_eq!(all[0], (500, 500));
    assert_eq!(all[240], (250, 250));
    assert_eq!(all[478], (2, 2));
    assert!(out[479 * 4..].iter().all(|b| *b == 0));
}

#[test]
fn constant_tone_longer_than_the_fade() {
    let samples = vec![1000i32; 2000];
    let out = process_samples(samples, spec(1, 48000), Settings::neutral()).unwrap();
    assert_eq!(out.len(), (1999 * 4 + 96000 + 3839) / 3840 * 3840);
    let all = frames(&out);
    for i in 0..1040 {
        assert_eq!(all[i], (1000, 1000));
    }
    assert_eq!(all[1040], (1000, 1000));
    assert_eq!(all[1041], (998, 998));
    assert_eq!(all[1998], (2, 2));
    assert_eq!(all[1999], (0, 0));
}

#[test]
fn output_is_always_whole_transport_frames() {
    for len in [1usize, 2, 3, 100, 959, 960, 961, 5000] {
        for rate in [8000u32, 22050, 44100, 48000, 96000] {
            let samples: Vec<i32> = (0..len as i32).map(|i| 100 + i).collect();
            let out = process_samples(samples, spec(1, rate), Settings::neutral()).unwrap();
            assert_eq!(out.len() % 3840, 0);
            assert!(out.len() >= 96000);
        }
    }
}

#[test]
fn empty_recording_gives_empty_output() {
    let out = process_samples(Vec::new(), spec(2, 44100), Settings::neutral());
    assert_eq!(out, Ok(Vec::new()));
}

#[test]
fn silent_recording_gives_only_the_trailing_silence() {
    let out = process_samples(vec![0; 1000], spec(2, 44100), Settings::neutral()).unwrap();
    assert_eq!(out, vec![0u8; 96000]);
}

#[test]
fn unsupported_shapes_are_refused() {
    let s = Settings::neutral();
    assert_eq!(
        process_samples(vec![1, 2, 3], spec(3, 48000), s),
        Err(AudioError::UnsupportedChannels)
    );
    assert_eq!(
        process_samples(vec![1, 2, 3], spec(0, 48000), s),
        Err(AudioError::UnsupportedChannels)
    );
    assert_eq!(
        process_samples(Vec::new(), spec(6, 0), s),
        Err(AudioError::UnsupportedChannels)
    );
    assert_eq!(
        process_samples(vec![1, 2], spec(2, 0), s),
        Err(AudioError::InvalidRate)
    );
    assert_eq!(
        process_samples(vec![1, 2, 3], spec(2, 48000), s),
        Err(AudioError::RaggedBuffer)
    );
    assert_eq!(
        load_pcm_data(vec![1, 2, 3], spec(4, 48000)),
        Err(AudioError::UnsupportedChannels)
    );
    assert_eq!(load_pcm_data(vec![1], spec(1, 0)), Err(AudioError::InvalidRate));
    assert_eq!(
        load_pcm_data(vec![1, 2, 3], spec(2, 48000)),
        Err(AudioError::RaggedBuffer)
    );
}

#[test]
fn gain_is_applied_before_quantisation() {
    let mut s = Settings::neutral();
    s.amplitude = Ratio::new(3, 1).unwrap();
    // At 49 Hz the fade has no length.
    let out = process_samples(vec![100, 20000, -20000, 5], spec(1, 49), s).unwrap();
    let all = frames(&out);
    assert_eq!(all[0], (300, 300));
    // 49 Hz to 48 kHz: the second source frame is reached at output frame 980.
    assert_eq!(all[980], (32767, 32767));
    assert_eq!(all[1960], (-32768, -32768));
}

#[test]
fn threshold_trims_the_quiet_ends() {
    let mut s = Settings::neutral();
    s.silence_threshold = 50;
    let samples = vec![10, -20, 400, 30, 500, 600, 7, 8];
    let out = process_samples(samples, spec(1, 48000), s).unwrap();
    // Kept: 400, 30, 500, 600, faded over its four samples out of 960.
    let all = frames(&out);
    assert_eq!(all[0], (400 * 4 / 960, 400 * 4 / 960));
    assert_eq!(all[1], (0, 0));
    assert_eq!(all[2], (500 * 2 / 960, 500 * 2 / 960));
    assert_eq!(out.len(), 99840);
}

#[test]
fn reverb_with_zero_decay_changes_nothing() {
    // Below 50 Hz the fade has no length, so every staged value is whole.
    let samples: Vec<i32> = (0..300).map(|i| (i * 37 % 2001) - 1000).collect();
    let dry = process_samples(samples.clone(), spec(2, 49), Settings::neutral());
    let mut s = Settings::neutral();
    s.reverb_enabled = true;
    s.reverb_delay_ms = 30;
    s.reverb_decay = Ratio::zero();
    s.reverb_mix = Ratio::new(7, 10).unwrap();
    let wet = process_samples(samples, spec(2, 49), s);
    assert_eq!(dry, wet);
}

#[test]
fn reverb_adds_an_echo() {
    let mut samples = vec![0i32; 200];
    samples[0] = 10000;
    samples[199] = 1;
    let mut s = Settings::neutral();
    s.reverb_enabled = true;
    s.reverb_delay_ms = 1;
    s.reverb_decay = Ratio::new(1, 2).unwrap();
    s.reverb_mix = Ratio::one();
    // 48 kHz: a delay of 48 frames; the fade of 960 samples covers all 200.
    let out = process_samples(samples, spec(1, 48000), s).unwrap();
    let all = frames(&out);
    let first = 10000 * 200 / 960;
    assert_eq!(all[0], (first as i16, first as i16));
    assert_eq!(all[1], (0, 0));
    assert_eq!(all[48], ((first / 2) as i16, (first / 2) as i16));
    assert_eq!(all[96], ((first / 4) as i16, (first / 4) as i16));
}

#[test]
fn stereo_recording_keeps_its_sides() {
    let samples = vec![100, -100, 200, -200, 300, -300];
    let out = load_pcm_data(samples, spec(2, 48000)).unwrap();
    let all = frames(&out);
    assert_eq!(all[0], (100, -100));
    assert_eq!(all[1], (200, -200));
    assert_eq!(all[2], (0, 0));
    assert_eq!(out.len(), 99840);
}

#[test]
fn loading_an_empty_recording_still_pads() {
    assert_eq!(load_pcm_data(Vec::new(), spec(1, 48000)), Ok(vec![0u8; 96000]));
}

#[test]
fn loading_does_not_trim_or_fade() {
    let out = load_pcm_data(vec![0, 0, 1000, 1000, 0, 0], spec(1, 48000)).unwrap();
    let all = frames(&out);
    assert_eq!(
        &all[..5],
        &[(0, 0), (0, 0), (1000, 1000), (1000, 1000), (0, 0)]
    );
}

#[test]
fn buffer_checks_its_shape() {
    assert!(SampleBuffer::new(vec![1, 2, 3, 4], spec(2, 8000)).is_ok());
    assert!(SampleBuffer::new(vec![1, 2, 3], spec(3, 8000)).is_ok());
    assert_eq!(
        SampleBuffer::new(vec![1, 2, 3], spec(2, 8000)).err(),
        Some(AudioError::RaggedBuffer)
    );
    assert_eq!(
        SampleBuffer::new(vec![], spec(0, 8000)).err(),
        Some(AudioError::UnsupportedChannels)
    );
    assert_eq!(
        SampleBuffer::new(vec![], spec(1, 0)).err(),
        Some(AudioError::InvalidRate)
    );
}

#[test]
fn buffer_keeps_its_samples_and_shape() {
    let buffer = SampleBuffer::new(vec![0, 0, 30, -30, 10, 10, 20, 0, 0, 0], spec(2, 49)).unwrap();
    assert_eq!(buffer.frames(), 5);
    assert_eq!(buffer.spec(), spec(2, 49));
    assert_eq!(buffer.samples(), &[0, 0, 30, -30, 10, 10, 20, 0, 0, 0]);
}

#[test]
fn buffer_with_many_channels_is_not_processed() {
    let buffer = SampleBuffer::new(vec![0, 0, 0, 1, 2, 3, 0, 0, 0], spec(3, 49)).unwrap();
    assert_eq!(buffer.frames(), 3);
    assert_eq!(
        process_buffer(buffer, Settings::neutral()),
        Err(AudioError::UnsupportedChannels)
    );
}

#[test]
fn gain_is_not_rounded_before_interpolation() {
    let mut s = Settings::neutral();
    s.amplitude = Ratio::new(1, 2).unwrap();
    // 24 Hz: no fade. The gained values are 0.5 and 1.5.
    let out = process_samples(vec![1, 3], spec(1, 24), s).unwrap();
    let all = frames(&out);
    assert_eq!(all[0], (0, 0));
    assert_eq!(all[999], (0, 0));
    // Half way: exactly 1.
    assert_eq!(all[1000], (1, 1));
    // Three quarters of the way: 1.25.
    assert_eq!(all[1500], (1, 1));
    assert_eq!(all[1999], (1, 1));
    assert_eq!(all[2000], (0, 0));
    assert_eq!(out.len(), (2000 * 4 + 96000 + 3839) / 3840 * 3840);
}

#[test]
fn fade_and_gain_are_not_rounded_apart() {
    let mut s = Settings::neutral();
    s.amplitude = Ratio::new(3, 1).unwrap();
    // 150 Hz: the fade covers three samples, with weights 3/3, 2/3 and 1/3.
    let out = process_samples(vec![1, 1, 1, 1], spec(1, 150), s).unwrap();
    let all = frames(&out);
    // Every 320th output frame lies on a source frame.
    assert_eq!(all[0], (3, 3));
    assert_eq!(all[320], (3, 3));
    assert_eq!(all[640], (2, 2));
    // Half way from 2 down to 1.
    assert_eq!(all[800], (1, 1));
    assert_eq!(all[799], (1, 1));
    assert_eq!(all[959], (1, 1));
    assert_eq!(all[960], (0, 0));
}

#[test]
fn reverb_keeps_fractions_through_the_pipeline() {
    let mut s = Settings::neutral();
    s.reverb_enabled = true;
    s.reverb_delay_ms = 1000;
    s.reverb_decay = Ratio::new(3, 4).unwrap();
    s.reverb_mix = Ratio::one();
    // 1 Hz: no fade, one frame of delay, 48000 output frames per source frame.
    let mut samples = vec![0i32; 10];
    samples[0] = 100;
    samples[9] = 1;
    let out = process_samples(samples, spec(1, 1), s).unwrap();
    let all = frames(&out);
    for (k, v) in [100i16, 75, 56, 42, 31, 23, 17, 13, 10].iter().enumerate() {
        assert_eq!(all[k * 48000], (*v, *v));
    }
    // Half way from 100 down to 75: 87.5.
    assert_eq!(all[24000], (87, 87));
}

#[test]
fn staged_values_are_numerators_over_a_scale() {
    let amp = Ratio::new(3, 2).unwrap();
    // A fade over the last two of four samples: weights 2, 2, 2, 1 over 2.
    let nums = fade_and_gain(&[10, -10, 7, 5], 2, amp);
    assert_eq!(nums, vec![60, -60, 42, 15]);
    // No fade: the scale of the weights is one.
    assert_eq!(fade_and_gain(&[10, -10], 0, amp), vec![30, -30]);
    // A fade longer than the buffer.
    assert_eq!(fade_and_gain(&[10, 10], 4, Ratio::one()), vec![20, 10]);
    assert_eq!(
        fade_and_gain(&[i32::MIN], 1 << 28, Ratio::new(i32::MIN, 1).unwrap()),
        vec![1i128 << 62]
    );
}

#[test]
fn fine_values_round_at_their_resolution() {
    let one: i64 = 1 << 32;
    assert_eq!(to_fine_values(&[60, -60, 42, 15], 4), vec![15 * one, -15 * one, 21 * one / 2, 15 * one / 4]);
    assert_eq!(to_fine_values(&[1, -1, 2], 3), vec![one / 3, -(one / 3), 2 * one / 3]);
    assert_eq!(to_fine_values(&[1 << 80, -(1 << 80)], 1), vec![i64::MAX, i64::MIN]);
    assert_eq!(widen_fine(&[one, -5, i64::MIN]), vec![one as i128, -5, i64::MIN as i128]);
}

#[test]
fn process_buffer_matches_process_samples() {
    let samples: Vec<i32> = (0..500).map(|i| i * 13 - 3000).collect();
    let buffer = SampleBuffer::new(samples.clone(), spec(2, 22050)).unwrap();
    assert_eq!(
        process_buffer(buffer, Settings::neutral()),
        process_samples(samples, spec(2, 22050), Settings::neutral())
    );
}

#[test]
fn audio_spec_validity() {
    assert!(spec(1, 1).is_valid());
    assert!(!spec(0, 1).is_valid());
    assert!(!spec(1, 0).is_valid());
}
