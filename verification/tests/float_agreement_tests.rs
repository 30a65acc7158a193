use pcm_pipeline::gain::apply_gain;
use pcm_pipeline::mixer::mix_sample;
use pcm_pipeline::ratio::Ratio;
use pcm_pipeline::resample::interpolate;
use pcm_pipeline::reverb::{apply_reverb, blend_to_sample};
use pcm_pipeline::trim::fade_out;

fn close(a: i32, b: i32) -> bool {
    (a - b).abs() <= 1
}

fn quantise(x: f32) -> i16 {
    x.max(i16::MIN as f32).min(i16::MAX as f32) as i16
}

#[test]
fn fade_tracks_the_floating_point_ramp() {
    for (len, fade) in [(480usize, 960u64), (2000, 960), (1764, 1764), (5, 3)] {
        let mut samples: Vec<i32> = (0..len).map(|i| 1000 - 7 * (i as i32 % 300)).collect();
        let before = samples.clone();
        fade_out(&mut samples, fade);
        let start = if len as u64 > fade { len - fade as usize } else { 0 };
        for pos in 0..len {
            let expected = if pos >= start {
                let gain = (len - pos) as f32 / fade as f32;
                (before[pos] as f32 * gain) as i32
            } else {
                before[pos]
            };
            assert!(close(samples[pos], expected));
        }
    }
}

#[test]
fn gain_tracks_the_floating_point_product() {
    for db in [-20.0f32, -6.0, -0.5, 0.0, 3.0, 6.0, 12.0] {
        let amp = 10.0f32.powf(db / 20.0);
        let num = (amp as f64 * 65536.0 * 256.0).round() as i32;
        let ratio = Ratio::new(num, 1 << 24).unwrap();
        let samples: Vec<i16> = (-50..50).map(|i| (i * 655) as i16).collect();
        let out = apply_gain(&samples, ratio);
        for (s, o) in samples.iter().zip(out.iter()) {
            let expected = quantise(*s as f32 * amp);
            assert!(close(*o as i32, expected as i32));
        }
    }
}

#[test]
fn exact_volumes_mix_as_in_floating_point() {
    let half = Ratio::new(1, 2).unwrap();
    let quarter = Ratio::new(1, 4).unwrap();
    for b in (-32768i32..=32767).step_by(257) {
        for o in (-32768i32..=32767).step_by(1031) {
            let expected = quantise(b as f32 * 0.5 + o as f32 * 0.25);
            assert_eq!(mix_sample(b as i16, o as i16, half, quarter), expected);
        }
    }
}

#[test]
fn interpolation_tracks_the_floating_point_line() {
    for phase in (0u32..48000).step_by(997) {
        for (p0, p1) in [(0, 1000), (-500, 700), (32000, -32000), (12345, 12346)] {
            let t = phase as f32 / 48000.0;
            let expected = quantise(p0 as f32 + (p1 - p0) as f32 * t);
            assert!(close(interpolate(p0, p1, phase) as i32, expected as i32));
        }
    }
}

#[test]
fn blend_tracks_the_floating_point_mix() {
    for (num, den) in [(0, 1), (1, 1), (1, 2), (3, 10), (7, 8)] {
        let mix = Ratio::new(num, den).unwrap();
        let m = num as f32 / den as f32;
        for (dry, wet) in [(100i16, 200i64), (-3000, 4000), (32767, -32768), (1, 2)] {
            let expected = quantise(dry as f32 * (1.0 - m) + wet as f32 * m);
            let got = blend_to_sample(dry, wet << 32, mix);
            assert!(close(got as i32, expected as i32));
        }
    }
}

fn float_reverb(x: &[i16], channels: usize, delay: usize, decay: f32, mix: f32) -> Vec<i16> {
    let mut rings = vec![vec![0.0f32; delay]; channels];
    let mut cursors = vec![0usize; channels];
    let mut out = Vec::new();
    for (i, s) in x.iter().enumerate() {
        let ch = i % channels;
        let input = *s as f32;
        let wet = input + rings[ch][cursors[ch]] * decay;
        rings[ch][cursors[ch]] = wet;
        cursors[ch] = (cursors[ch] + 1) % delay;
        out.push(quantise(input * (1.0 - mix) + wet * mix));
    }
    out
}

#[test]
fn feedback_over_many_laps_tracks_floating_point() {
    let x: Vec<i16> = (0..600)
        .map(|i| if i % 97 == 0 { 20000 - 40 * i } else { (i * 31 % 401 - 200) as i32 } as i16)
        .collect();
    for (num, den) in [(3, 4), (1, 2), (7, 8), (-5, 8), (1, 4)] {
        for (mnum, mden) in [(1, 1), (1, 2), (1, 4)] {
            for (channels, delay) in [(1u16, 1u32), (1, 7), (2, 3), (2, 40)] {
                // At 1000 Hz a millisecond is a frame.
                let got = apply_reverb(
                    &x,
                    channels,
                    1000,
                    delay,
                    Ratio::new(num, den).unwrap(),
                    Ratio::new(mnum, mden).unwrap(),
                );
                let expected = float_reverb(
                    &x,
                    channels as usize,
                    delay as usize,
                    num as f32 / den as f32,
                    mnum as f32 / mden as f32,
                );
                assert_eq!(got.len(), expected.len());
                for (g, e) in got.iter().zip(expected.iter()) {
                    assert!(close(*g as i32, *e as i32));
                }
            }
        }
    }
}

#[test]
fn a_decaying_echo_is_the_floating_point_echo() {
    let x: [i16; 12] = [100, 0, 0, 0, 0, 0, 0, 0, 0, 0, 0, 0];
    let got = apply_reverb(&x, 1, 1000, 1, Ratio::new(3, 4).unwrap(), Ratio::one());
    assert_eq!(got, float_reverb(&x, 1, 1, 0.75, 1.0));
    assert_eq!(got[7], 13);
}
