use karaoke_booth::control::{
    autosave_due, key_from_slot, key_to_slot, output_wait_step, plan_routing, scale_from_slot,
    scale_to_slot, OutputWait, AUTOSAVE_INTERVAL_NANOS, CABLE_RING_FRAMES, OUTPUT_WAIT_ATTEMPTS,
    RING_FRAMES,
};

#[test]
fn routing_sends_to_cable_only_with_a_device() {
    let r = plan_routing(true, "{cable}");
    assert!(r.cable && !r.prefer_exclusive);
    let r = plan_routing(true, "");
    assert!(!r.cable && !r.prefer_exclusive);
    let r = plan_routing(false, "{cable}");
    assert!(!r.cable && r.prefer_exclusive);
}

#[test]
fn output_wait_decisions() {
    assert!(matches!(output_wait_step(0, true, true, 48000), OutputWait::Stopped));
    assert!(matches!(output_wait_step(3, false, true, 48000), OutputWait::Ready(48000)));
    assert!(matches!(output_wait_step(3, false, true, 0), OutputWait::Retry));
    assert!(matches!(output_wait_step(3, false, false, 48000), OutputWait::Retry));
    assert!(matches!(output_wait_step(OUTPUT_WAIT_ATTEMPTS - 1, false, false, 0), OutputWait::Retry));
    assert!(matches!(output_wait_step(OUTPUT_WAIT_ATTEMPTS, true, true, 48000), OutputWait::TimedOut));
}

#[test]
fn autosave_waits_half_a_second() {
    assert!(!autosave_due(false, u128::MAX));
    assert!(!autosave_due(true, AUTOSAVE_INTERVAL_NANOS - 1));
    assert!(autosave_due(true, AUTOSAVE_INTERVAL_NANOS));
    assert_eq!(AUTOSAVE_INTERVAL_NANOS, 500_000_000);
}

#[test]
fn key_and_scale_slots_read_back() {
    for key in [0, 7, 11, -1, i32::MIN, i32::MAX] {
        assert_eq!(key_from_slot(key_to_slot(key)), key);
    }
    assert_eq!(key_to_slot(-1), u32::MAX);
    for scale in [0usize, 1, 2] {
        assert_eq!(scale_from_slot(scale_to_slot(scale)), scale);
    }
    assert_eq!((RING_FRAMES, CABLE_RING_FRAMES), (1024, 4096));
}
