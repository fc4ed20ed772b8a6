use karaoke_booth::track::{mixdown_channels, packet_step, PacketRead, ReadStep, Track};

fn track(len: usize, rate: u32) -> Track<f32> {
    Track { samples: (0..len).map(|i| i as f32).collect(), sample_rate: rate, name: "t".to_string() }
}

#[test]
fn frame_count_at_same_rate_is_sample_count() {
    assert_eq!(track(1000, 48000).frame_count(48000), 1000);
    assert_eq!(track(0, 0).frame_count(0), 0);
}

#[test]
fn frame_count_scales_with_rate() {
    assert_eq!(track(44100, 44100).frame_count(48000), 48000);
    assert_eq!(track(48000, 48000).frame_count(44100), 44100);
    assert_eq!(track(3, 2).frame_count(3), 4);
    assert_eq!(track(5, 44100).frame_count(0), 0);
}

#[test]
fn sample_or_reads_inside_and_defaults_outside() {
    let t = track(4, 8000);
    assert_eq!(t.sample_or(2, -1.0), 2.0);
    assert_eq!(t.sample_or(4, -1.0), -1.0);
    assert_eq!(t.sample_or(usize::MAX, 0.5), 0.5);
}

#[test]
fn packets_of_other_tracks_are_skipped() {
    assert!(matches!(packet_step(PacketRead::Packet(3), 3), ReadStep::Decode));
    assert!(matches!(packet_step(PacketRead::Packet(4), 3), ReadStep::Skip));
    assert!(matches!(packet_step(PacketRead::EndOfStream, 3), ReadStep::Finish));
    assert!(matches!(packet_step(PacketRead::ResetRequired, 3), ReadStep::Reset));
    assert!(matches!(packet_step(PacketRead::Failed, 3), ReadStep::Fail));
}

#[test]
fn mixdown_uses_at_least_one_channel() {
    assert_eq!(mixdown_channels(Some(2)), 2);
    assert_eq!(mixdown_channels(Some(0)), 1);
    assert_eq!(mixdown_channels(None), 1);
}

#[test]
fn empty_decode_is_refused() {
    match Track::<f32>::from_decoded(Vec::new(), 44100, "x.wav".to_string()) {
        Err(msg) => assert_eq!(msg, "Could not decode any audio from that file"),
        Ok(_) => panic!("empty track accepted"),
    }
    let t = Track::from_decoded(vec![0.5f32], 22050, "y.wav".to_string()).unwrap();
    assert_eq!((t.samples.len(), t.sample_rate, t.name.as_str()), (1, 22050, "y.wav"));
}
