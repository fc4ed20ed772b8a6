use karaoke_booth::signal::{hop_tick, next_noise, DelayLine, SampleHold, NOISE_ADD};

#[test]
fn delay_line_gives_back_older_samples() {
    let mut line = DelayLine::new(4, 0.0f32);
    assert_eq!(line.len(), 4);
    for x in [1.0, 2.0, 3.0] {
        line.push(x);
    }
    assert_eq!(line.delayed(1), 3.0);
    assert_eq!(line.delayed(2), 2.0);
    assert_eq!(line.delayed(3), 1.0);
    assert_eq!(line.at_cursor(), 0.0);
    assert_eq!(line.delayed(0), 0.0);
    line.push(4.0);
    assert!(line.has_wrapped());
    assert_eq!(line.cursor(), 0);
    assert_eq!(line.at_cursor(), 1.0);
    line.push(5.0);
    assert_eq!(line.delayed(1), 5.0);
    assert_eq!(line.as_slice(), &[5.0, 2.0, 3.0, 4.0]);
}

#[test]
fn comb_style_feedback_uses_cursor_sample() {
    // y = line[cursor]; line[cursor] = x + y * fb, as a comb filter does.
    let mut line = DelayLine::new(2, 0.0f32);
    let mut out = Vec::new();
    for x in [1.0f32, 0.0, 0.0, 0.0, 0.0] {
        let y = line.at_cursor();
        line.push(x + y * 0.5);
        out.push(y);
    }
    assert_eq!(out, vec![0.0, 0.0, 1.0, 0.0, 0.5]);
}

#[test]
fn write_and_advance_separately() {
    let mut line = DelayLine::new(3, 0u32);
    line.write(9);
    assert_eq!(line.at_cursor(), 9);
    assert!(!line.has_wrapped());
    line.advance();
    assert_eq!(line.cursor(), 1);
    assert_eq!(line.delayed(1), 9);
}

#[test]
fn strided_window_starts_at_oldest() {
    let mut line = DelayLine::new(8, 0u32);
    for x in 1..=10u32 {
        line.push(x);
    }
    // contents [9, 10, 3, 4, 5, 6, 7, 8], cursor 2
    assert_eq!(line.strided_from_cursor(2, 4), vec![3, 5, 7, 9]);
    assert_eq!(line.strided_from_cursor(3, 4), vec![3, 6, 9, 4]);
    assert!(line.strided_from_cursor(4, 0).is_empty());
}

#[test]
fn sample_hold_repeats_for_a_period() {
    let mut sh = SampleHold::new(0.0f32);
    let outs: Vec<f32> = [1.0f32, 2.0, 3.0, 4.0, 5.0, 6.0, 7.0]
        .iter()
        .map(|x| sh.process(*x, 3))
        .collect();
    assert_eq!(outs, vec![1.0, 1.0, 1.0, 4.0, 4.0, 4.0, 7.0]);
}

#[test]
fn sample_hold_with_short_hold_tracks_input() {
    let mut sh = SampleHold::new(0i32);
    assert_eq!(sh.process(5, 1), 5);
    assert_eq!(sh.process(6, 0), 6);
    assert_eq!(sh.process(7, 2), 7);
    assert_eq!(sh.process(8, 2), 7);
    assert_eq!(sh.process(9, 2), 9);
}

#[test]
fn hop_counter_fires_every_hop() {
    let mut count = 0usize;
    let mut fired = Vec::new();
    for i in 0..600 {
        let (next, fire) = hop_tick(count, 256);
        count = next;
        if fire {
            fired.push(i);
        }
    }
    assert_eq!(fired, vec![255, 511]);
    assert_eq!(count, 600 - 512);
}

#[test]
fn noise_generator_steps() {
    assert_eq!(next_noise(0), NOISE_ADD);
    assert_eq!(next_noise(1), 1_015_568_748);
    assert_eq!(next_noise(u32::MAX), 1_013_904_223u32.wrapping_sub(1_664_525));
    let mut state = 1u32;
    for _ in 0..3 {
        state = next_noise(state);
    }
    assert_eq!(state, 1u32.wrapping_mul(1664525).wrapping_add(1013904223).wrapping_mul(1664525).wrapping_add(1013904223).wrapping_mul(1664525).wrapping_add(1013904223));
}
