use pcm_pipeline::align::{align_frames, push_zeros};
use pcm_pipeline::audio::{FRAME_BYTES, TAIL_SILENCE_BYTES};

#[test]
fn empty_stream_gets_half_a_second_of_silence() {
    let mut bytes: Vec<u8> = Vec::new();
    align_frames(&mut bytes);
    assert_eq!(bytes.len(), 96000);
    assert_eq!(bytes.len() % FRAME_BYTES, 0);
    assert!(bytes.iter().all(|b| *b == 0));
}

#[test]
fn short_stream_is_padded_to_the_next_frame() {
    let mut bytes: Vec<u8> = vec![1, 2, 3, 4];
    align_frames(&mut bytes);
    assert_eq!(bytes.len(), 99840);
    assert_eq!(&bytes[..4], &[1, 2, 3, 4]);
    assert!(bytes[4..].iter().all(|b| *b == 0));
}

#[test]
fn stream_that_ends_on_a_frame_gets_no_padding_beyond_the_silence() {
    let mut bytes: Vec<u8> = vec![7u8; 3840];
    align_frames(&mut bytes);
    assert_eq!(bytes.len(), 3840 + TAIL_SILENCE_BYTES);
    assert_eq!(bytes[3839], 7);
    assert_eq!(bytes[3840], 0);
}

#[test]
fn aligned_length_is_a_multiple_of_the_frame_for_many_lengths() {
    for len in [0usize, 1, 2, 3839, 3840, 3841, 96000, 100000] {
        let mut bytes: Vec<u8> = vec![9u8; len];
        align_frames(&mut bytes);
        assert_eq!(bytes.len() % 3840, 0);
        assert!(bytes.len() >= len + 96000);
        assert!(bytes.len() < len + 96000 + 3840);
    }
}

#[test]
fn push_zeros_appends_exactly_the_count() {
    let mut bytes: Vec<u8> = vec![5];
    push_zeros(&mut bytes, 3);
    assert_eq!(bytes, vec![5, 0, 0, 0]);
}
