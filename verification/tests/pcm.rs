use std::collections::VecDeque;

use karaoke_booth::pcm::{
    drain_frames, exclusive_client_info, frame_f32_words, frame_pcm16_values, interleave_f32_words,
    interleave_pcm16_values, latency_micros, ClientInfo, TARGET_RATE,
};

#[test]
fn float_frames_read_little_endian_words() {
    let frame = [0x00, 0x00, 0x80, 0x3f, 0x00, 0x00, 0x00, 0xbf];
    let words = frame_f32_words(&frame, 2);
    assert_eq!(words, vec![1.0f32.to_bits(), (-0.5f32).to_bits()]);
    let mean: f32 = words.iter().map(|w| f32::from_bits(*w)).sum::<f32>() / words.len() as f32;
    assert_eq!(mean, 0.25);
}

#[test]
fn incomplete_channels_are_left_out() {
    let frame = [1, 0, 0, 0, 2, 0];
    assert_eq!(frame_f32_words(&frame, 2), vec![1]);
    assert_eq!(frame_f32_words(&frame, 0), Vec::<u32>::new());
    assert_eq!(frame_f32_words(&[], 4), Vec::<u32>::new());
    assert_eq!(frame_f32_words(&[1, 2, 3, 4, 5, 6, 7, 8], 1), vec![0x0403_0201]);
    assert_eq!(frame_pcm16_values(&[1, 0, 2], 2), vec![1]);
    assert_eq!(frame_pcm16_values(&[1, 0, 2, 0], usize::MAX), vec![1, 2]);
}

#[test]
fn pcm16_frames_read_signed_samples() {
    let frame = [0xff, 0x7f, 0x00, 0x80, 0xfe, 0xff];
    assert_eq!(frame_pcm16_values(&frame, 3), vec![32767, -32768, -2]);
}

#[test]
fn float_output_repeats_each_sample_per_channel() {
    let bytes = interleave_f32_words(&[0x0403_0201, 0xa0b0_c0d0], 2);
    assert_eq!(
        bytes,
        vec![1, 2, 3, 4, 1, 2, 3, 4, 0xd0, 0xc0, 0xb0, 0xa0, 0xd0, 0xc0, 0xb0, 0xa0]
    );
    assert!(interleave_f32_words(&[7], 0).is_empty());
    assert!(interleave_f32_words(&[], 2).is_empty());
}

#[test]
fn pcm16_output_repeats_each_sample_per_channel() {
    let bytes = interleave_pcm16_values(&[-2, 256], 3);
    assert_eq!(bytes, vec![0xfe, 0xff, 0xfe, 0xff, 0xfe, 0xff, 0x00, 0x01, 0x00, 0x01, 0x00, 0x01]);
}

#[test]
fn silence_is_all_zero_bytes() {
    let zeros = vec![0.0f32.to_bits(); 5];
    assert_eq!(interleave_f32_words(&zeros, 2), vec![0u8; 40]);
    assert_eq!(interleave_pcm16_values(&[0; 5], 2), vec![0u8; 20]);
}

#[test]
fn written_frames_read_back() {
    let samples = [0.25f32, -1.0, 0.0, 0.75];
    let words: Vec<u32> = samples.iter().map(|s| s.to_bits()).collect();
    let mut queue: VecDeque<u8> = interleave_f32_words(&words, 2).into_iter().collect();
    let frames = drain_frames(&mut queue, 8);
    assert_eq!(frames.len(), 4);
    for (frame, sample) in frames.iter().zip(samples) {
        assert_eq!(frame_f32_words(frame, 2), vec![sample.to_bits(); 2]);
    }
    let values = [i16::MIN, -1, 0, 1, i16::MAX];
    let mut queue: VecDeque<u8> = interleave_pcm16_values(&values, 1).into_iter().collect();
    let frames = drain_frames(&mut queue, 2);
    let back: Vec<i16> = frames.iter().map(|f| frame_pcm16_values(f, 1)[0]).collect();
    assert_eq!(back, values.to_vec());
}

#[test]
fn drain_keeps_incomplete_frame_queued() {
    let mut queue: VecDeque<u8> = (0u8..11).collect();
    let frames = drain_frames(&mut queue, 4);
    assert_eq!(frames, vec![vec![0, 1, 2, 3], vec![4, 5, 6, 7]]);
    assert_eq!(queue, VecDeque::from(vec![8, 9, 10]));
    let again = drain_frames(&mut queue, 4);
    assert!(again.is_empty());
    assert_eq!(queue.len(), 3);
}

#[test]
fn exclusive_formats_accept_16_and_32_bits_only() {
    let info: ClientInfo = exclusive_client_info(32, 2, 48000, 8).unwrap();
    assert!(info.exclusive && info.float);
    assert_eq!((info.channels, info.sample_rate, info.block_align), (2, 48000, 8));
    let info = exclusive_client_info(16, 2, 44100, 4).unwrap();
    assert!(info.exclusive && !info.float);
    assert_eq!((info.channels, info.sample_rate, info.block_align), (2, 44100, 4));
    match exclusive_client_info(24, 2, 48000, 6) {
        Err(msg) => assert_eq!(msg, "exclusive format is not 16 or 32 bit"),
        Ok(_) => panic!("24-bit format accepted"),
    }
    assert!(exclusive_client_info(8, 1, 8000, 1).is_err());
}

#[test]
fn latency_is_two_periods() {
    assert_eq!(latency_micros(128, 48000), 5333);
    assert_eq!(latency_micros(480, 48000), 20000);
    assert_eq!(latency_micros(10, 0), 20_000_000);
    assert_eq!(TARGET_RATE, 48_000);
}
