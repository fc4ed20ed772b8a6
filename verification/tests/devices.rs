use karaoke_booth::devices::{
    cable_device_id, cable_label, first_stereo_mix_name, first_virtual_device_id,
    has_virtual_device, is_stereo_mix_name, is_virtual_cable_name, playback_device,
    sort_playback_devices, PlaybackDevice,
};

fn dev(id: &str, name: &str) -> PlaybackDevice {
    playback_device(id.to_string(), name.to_string())
}

#[test]
fn virtual_cable_names_are_recognised_in_any_case() {
    assert!(is_virtual_cable_name("CABLE Input (VB-Audio Virtual Cable)"));
    assert!(is_virtual_cable_name("VoiceMeeter Input (VB-Audio VoiceMeeter VAIO)"));
    assert!(is_virtual_cable_name("Line 1 (Virtual Audio Cable)"));
    assert!(is_virtual_cable_name("my virtual cable"));
    assert!(is_virtual_cable_name("Virtual Audio Device"));
    assert!(is_virtual_cable_name("vb-audio hi-fi"));
}

#[test]
fn ordinary_outputs_are_not_virtual_cables() {
    assert!(!is_virtual_cable_name("Speakers (Realtek(R) Audio)"));
    assert!(!is_virtual_cable_name("Headphones"));
    assert!(!is_virtual_cable_name(""));
    assert!(!is_virtual_cable_name("Line 2"));
    assert!(!is_virtual_cable_name("cable"));
    assert!(!is_virtual_cable_name("Câble Input"));
}

#[test]
fn stereo_mix_names_are_recognised() {
    assert!(is_stereo_mix_name("Stereo Mix (Realtek(R) Audio)"));
    assert!(is_stereo_mix_name("What U Hear (Sound Blaster)"));
    assert!(is_stereo_mix_name("Wave Out Mix"));
    assert!(is_stereo_mix_name("WaveOutMix"));
    assert!(is_stereo_mix_name("Rec. Playback"));
    assert!(is_stereo_mix_name("Loopback Input"));
    assert!(!is_stereo_mix_name("Microphone (USB)"));
    assert!(is_stereo_mix_name("Stereo Mixer"));
    assert!(!is_stereo_mix_name("Stereo Output"));
}

#[test]
fn playback_device_marks_virtual_cables() {
    let d = dev("{id-1}", "CABLE Input (VB-Audio Virtual Cable)");
    assert_eq!(d.id, "{id-1}");
    assert!(d.looks_virtual);
    assert!(!dev("{id-2}", "Speakers").looks_virtual);
}

#[test]
fn devices_list_virtual_first_then_by_name() {
    let devices = vec![
        dev("a", "Speakers"),
        dev("b", "VoiceMeeter Input"),
        dev("c", "Headphones"),
        dev("d", "CABLE Input"),
        dev("e", "Speakers"),
    ];
    let sorted = sort_playback_devices(devices);
    let ids: Vec<&str> = sorted.iter().map(|d| d.id.as_str()).collect();
    assert_eq!(ids, vec!["d", "b", "c", "a", "e"]);
}

#[test]
fn device_order_is_byte_order_of_names() {
    let devices = vec![dev("1", "b"), dev("2", "B"), dev("3", "ab"), dev("4", "a"), dev("5", "é")];
    let sorted = sort_playback_devices(devices);
    let ids: Vec<&str> = sorted.iter().map(|d| d.id.as_str()).collect();
    assert_eq!(ids, vec!["2", "4", "3", "1", "5"]);
    assert!(sort_playback_devices(Vec::new()).is_empty());
}

#[test]
fn first_virtual_device_is_the_default_cable() {
    let devices = vec![dev("a", "Speakers"), dev("b", "CABLE Input"), dev("c", "Line 1")];
    assert_eq!(first_virtual_device_id(&devices), Some("b".to_string()));
    assert!(has_virtual_device(&devices));
    let plain = vec![dev("a", "Speakers")];
    assert_eq!(first_virtual_device_id(&plain), None);
    assert!(!has_virtual_device(&plain));
}

#[test]
fn cable_is_used_only_when_chosen_device_is_virtual() {
    let devices = vec![dev("a", "Speakers"), dev("b", "CABLE Input")];
    assert_eq!(cable_device_id(&devices, &"b".to_string()), "b");
    assert_eq!(cable_device_id(&devices, &"a".to_string()), "");
    assert_eq!(cable_device_id(&devices, &"zzz".to_string()), "");
    assert_eq!(cable_device_id(&devices, &String::new()), "");
}

#[test]
fn cable_label_names_the_chosen_device() {
    let devices = vec![dev("a", "Speakers"), dev("b", "CABLE Input")];
    assert_eq!(cable_label(&devices, &"b".to_string()), "CABLE Input");
    assert_eq!(cable_label(&devices, &"a".to_string()), "Speakers");
    assert_eq!(cable_label(&devices, &String::new()), "Cable");
}

#[test]
fn stereo_mix_is_the_first_loopback_name() {
    let names = vec![
        "Microphone".to_string(),
        "Stereo Mix (Realtek)".to_string(),
        "What U Hear".to_string(),
    ];
    assert_eq!(first_stereo_mix_name(names), Some("Stereo Mix (Realtek)".to_string()));
    assert_eq!(first_stereo_mix_name(vec!["Microphone".to_string()]), None);
    assert_eq!(first_stereo_mix_name(Vec::new()), None);
}

#[test]
fn name_matching_ignores_ascii_case() {
    for name in ["cable input", "CABLE INPUT", "Cable Input", "LINE 1", "VoiceMeeter"] {
        assert_eq!(is_virtual_cable_name(name), is_virtual_cable_name(&name.to_ascii_lowercase()));
        assert!(is_virtual_cable_name(name));
    }
    for name in ["STEREO MIX", "stereo mix", "LoopBack"] {
        assert!(is_stereo_mix_name(name));
    }
}

#[test]
fn sorting_a_listing_again_changes_nothing() {
    let devices = vec![
        dev("a", "Speakers"),
        dev("b", "Line 1"),
        dev("c", "Speakers"),
        dev("d", "Headphones"),
        dev("e", "Line 1"),
    ];
    let once = sort_playback_devices(devices);
    let ids: Vec<String> = once.iter().map(|d| d.id.clone()).collect();
    let twice = sort_playback_devices(once);
    let ids_again: Vec<String> = twice.iter().map(|d| d.id.clone()).collect();
    assert_eq!(ids, ids_again);
    assert_eq!(ids, vec!["b", "e", "d", "a", "c"]);
}
