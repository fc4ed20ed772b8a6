use karaoke_booth::pitch::{
    clamp_key, clamp_scale, in_scale, nearest_in_scale, note_name, pitch_class, scale_steps,
    INFINITY_BITS, NOTE_NAMES, SEARCH_RADIUS, SEARCH_SPAN,
};

/// Snaps a fractional MIDI pitch the way the tuner does: the candidates
/// around the floor of the pitch, keyed by the bit patterns of their `f32`
/// distances to it.
fn snap_midi(midi: f32, key: i32, scale: usize) -> i32 {
    let floor = midi.floor() as i32;
    let lo = floor - SEARCH_RADIUS;
    let keys: Vec<u32> = (0..SEARCH_SPAN as i32)
        .map(|i| ((lo + i) as f32 - midi).abs().to_bits())
        .collect();
    nearest_in_scale(lo, &keys, midi.round() as i32, key, scale)
}

#[test]
fn snaps_sharp_c_to_c_major() {
    assert_eq!(snap_midi(60.4, 0, 1), 60);
}

#[test]
fn snaps_toward_d_in_c_major() {
    assert_eq!(snap_midi(61.2, 0, 1), 62);
}

#[test]
fn keeps_c_sharp_in_chromatic() {
    assert_eq!(snap_midi(61.1, 0, 0), 61);
}

#[test]
fn snap_ties_go_to_the_lower_note() {
    // 61.5 is as far from C#4 as from D4; in chromatic the lower one wins.
    assert_eq!(snap_midi(61.5, 0, 0), 61);
    // C#4 (61) lies between C4 and D4 in C major: the lower one wins.
    assert_eq!(snap_midi(61.0, 0, 1), 60);
}

#[test]
fn snap_follows_key_and_minor_scale() {
    // A minor (key 9): G# is not in the scale, A is.
    assert_eq!(snap_midi(68.3, 9, 2), 69);
    // D major (key 2): F (65) is out, F# (66) and E (64) are in; 65.2 is nearer F#.
    assert_eq!(snap_midi(65.2, 2, 1), 66);
    // Scale numbers above 2 mean minor.
    assert_eq!(snap_midi(68.3, 9, 7), 69);
    // Negative keys wrap round like positive ones.
    assert_eq!(snap_midi(61.2, -12, 1), 62);
}

#[test]
fn snap_falls_back_to_rounding_without_finite_distances() {
    let keys = vec![INFINITY_BITS; SEARCH_SPAN];
    assert_eq!(nearest_in_scale(48, &keys, 61, 0, 1), 61);
    let nan_keys = vec![0x7fc0_0000u32; SEARCH_SPAN];
    assert_eq!(nearest_in_scale(48, &nan_keys, 7, 0, 0), 7);
}

#[test]
fn snap_picks_smallest_key_in_scale() {
    let mut keys = vec![100u32; SEARCH_SPAN];
    keys[1] = 1; // note 1: C#, out of C major
    keys[2] = 5; // note 2: D
    keys[4] = 5; // note 4: E, same key, later
    assert_eq!(nearest_in_scale(0, &keys, -1, 0, 1), 2);
    assert_eq!(nearest_in_scale(0, &keys, -1, 0, 0), 1);
}

#[test]
fn note_names_carry_octave_numbers() {
    assert_eq!(note_name(69), "A4");
    assert_eq!(note_name(60), "C4");
    assert_eq!(note_name(61), "C#4");
    assert_eq!(note_name(0), "C-1");
    assert_eq!(note_name(-1), "B-2");
    assert_eq!(note_name(127), "G9");
    assert_eq!(note_name(-13), "B-3");
    assert_eq!(note_name(i32::MAX), format!("{}{}", NOTE_NAMES[7], i32::MAX.div_euclid(12) - 1));
    assert_eq!(note_name(i32::MIN), format!("{}{}", NOTE_NAMES[4], i32::MIN.div_euclid(12) - 1));
}

#[test]
fn pitch_classes_wrap_negative_notes() {
    assert_eq!(pitch_class(60), 0);
    assert_eq!(pitch_class(-1), 11);
    assert_eq!(pitch_class(-12), 0);
    assert_eq!(pitch_class(i32::MIN), 4);
}

#[test]
fn scale_membership() {
    assert!(in_scale(64, 0, 1));
    assert!(!in_scale(63, 0, 1));
    assert!(in_scale(63, 0, 2));
    assert!(in_scale(63, 0, 0));
    assert!(in_scale(66, 2, 1));
    assert!(!in_scale(-11, 0, 1));
    assert_eq!(scale_steps(1), &[0, 2, 4, 5, 7, 9, 11]);
    assert_eq!(scale_steps(2), &[0, 2, 3, 5, 7, 8, 10]);
    assert_eq!(scale_steps(9), &[0, 2, 3, 5, 7, 8, 10]);
    assert_eq!(scale_steps(0).len(), 12);
}

#[test]
fn stored_key_and_scale_are_clamped() {
    assert_eq!(clamp_key(-3), 0);
    assert_eq!(clamp_key(5), 5);
    assert_eq!(clamp_key(40), 11);
    assert_eq!(clamp_scale(1), 1);
    assert_eq!(clamp_scale(9), 2);
}

#[test]
fn pitch_on_a_scale_note_stays_there() {
    for note in [60, 62, 64, 65, 67, 69, 71, 72] {
        assert_eq!(snap_midi(note as f32, 0, 1), note);
    }
    for note in 40..90 {
        assert_eq!(snap_midi(note as f32, 5, 0), note);
    }
}

#[test]
fn chromatic_scale_holds_every_note() {
    for key in [-13, 0, 4, 11, 25] {
        for n in -30..30 {
            assert!(in_scale(n, key, 0));
        }
    }
}

#[test]
fn scales_transpose_with_the_key() {
    for scale in 0..3 {
        for key in 0..12 {
            for n in 40..80 {
                assert_eq!(in_scale(n + 3, key + 3, scale), in_scale(n, key, scale));
                assert_eq!(in_scale(n + 12, key, scale), in_scale(n, key, scale));
            }
        }
    }
}

#[test]
fn note_names_repeat_each_octave() {
    assert_eq!(note_name(57), "A3");
    assert_eq!(note_name(57 + 12), "A4");
    assert_eq!(note_name(-3), "A-2");
    assert_eq!(note_name(-3 + 12), "A-1");
}
