use tslib::audio::{OpusApplication, PacketSequence, OPUS_VOICE_CODEC};
use tslib::broadcast::{ffmpeg_args, is_keyframe, BroadcastEvent, EncoderConfig, InputSource, ViewerSessions};
use tslib::connection::ConnectionState;
use tslib::signaling::ViewerMessage;
use tslib::events::AudioCodec;

#[test]
fn opus_application_constants() {
    assert_eq!(OpusApplication::Voip.to_opus_const(), 2048);
    assert_eq!(OpusApplication::Audio.to_opus_const(), 2049);
    assert_eq!(OpusApplication::LowDelay.to_opus_const(), 2051);
}

#[test]
fn vp8_keyframe_bit() {
    assert!(is_keyframe(&[0x10, 0x02]));
    assert!(!is_keyframe(&[0x11, 0x02]));
    assert!(!is_keyframe(&[]));
}

#[test]
fn encoder_config_defaults() {
    let c = EncoderConfig::default();
    assert_eq!(c.height, 720);
    assert_eq!(c.fps, 30);
    assert_eq!(c.bitrate_kbps, 1500);
    assert_eq!(c.keyframe_interval_secs, 2);
}

#[test]
fn codec_ids_round_trip() {
    for id in 0u8..=5 {
        let c = AudioCodec::from_id(id).unwrap();
        assert_eq!(c.id(), id);
    }
    assert!(AudioCodec::from_id(6).is_none());
    assert!(AudioCodec::OpusVoice.is_opus());
    assert!(AudioCodec::OpusMusic.is_opus());
    assert!(!AudioCodec::CeltMono.is_opus());
}

#[test]
fn connection_state_predicates() {
    assert!(ConnectionState::Connected.is_connected());
    assert!(ConnectionState::Initializing.is_connected());
    assert!(!ConnectionState::Connecting.is_connected());
    assert!(ConnectionState::Connecting.is_connecting());
    assert!(ConnectionState::Reconnecting.is_connecting());
    assert!(!ConnectionState::Disconnected.is_connecting());
    assert!(!ConnectionState::Disconnected.is_connected());
}

#[test]
fn stale_reports_from_a_replaced_viewer_are_dropped() {
    let mut sessions = ViewerSessions::new();
    let first = sessions.add_viewer(5);
    let second = sessions.add_viewer(5);
    assert_eq!(first, 1);
    assert_eq!(second, 2);
    let gone = || BroadcastEvent::Gone { viewer_id: 5, reason: "x".into() };
    // The first peer connection for viewer 5 dies after being replaced.
    assert!(sessions.accept(5, first, gone()).is_none());
    assert_eq!(sessions.viewer_count(), 1);
    // The current one dying does count.
    assert!(matches!(sessions.accept(5, second, gone()), Some(BroadcastEvent::Gone { viewer_id: 5, .. })));
    assert_eq!(sessions.viewer_count(), 0);
}

#[test]
fn viewer_bookkeeping() {
    let mut sessions = ViewerSessions::new();
    let s = sessions.add_viewer(1);
    sessions.add_viewer(2);
    assert!(matches!(sessions.accept(1, s, BroadcastEvent::Connected { viewer_id: 1 }), Some(BroadcastEvent::Connected { viewer_id: 1 })));
    assert_eq!(sessions.viewer_count(), 2);
    assert!(sessions.remove_viewer(1));
    assert!(!sessions.remove_viewer(1));
    assert!(sessions.accept(1, s, BroadcastEvent::Connected { viewer_id: 1 }).is_none());
    sessions.clear_viewers();
    assert_eq!(sessions.viewer_count(), 0);
}

#[test]
fn capture_packets_are_numbered_and_wrap() {
    let mut seq = PacketSequence::new();
    let p = seq.packet(vec![1, 2, 3], true);
    assert_eq!(p.sequence, 0);
    assert_eq!(p.codec, OPUS_VOICE_CODEC);
    assert_eq!(p.codec, 4);
    assert_eq!(p.data, vec![1, 2, 3]);
    assert!(p.voice_activity);
    assert_eq!(seq.packet(vec![], false).sequence, 1);
    for _ in 2..=u16::MAX {
        seq.packet(vec![], true);
    }
    assert_eq!(seq.packet(vec![], true).sequence, 0);
}

#[test]
fn voice_detection_gates_frames() {
    assert!(PacketSequence::frame_is_sent(false, false));
    assert!(PacketSequence::frame_is_sent(true, true));
    assert!(!PacketSequence::frame_is_sent(true, false));
}

#[test]
fn signaling_goes_to_the_viewers_current_session() {
    let mut sessions = ViewerSessions::new();
    let answer = r#"{"cmd":"answer","args":{"answer":"v=0"}}"#;
    assert!(sessions.handle_signaling(3, answer).is_none());
    sessions.add_viewer(3);
    let second = sessions.add_viewer(3);
    match sessions.handle_signaling(3, answer) {
        Some((session, ViewerMessage::Answer(sdp))) => {
            assert_eq!(session, second);
            assert_eq!(sdp, "v=0");
        }
        other => panic!("expected an answer for the current session, got {other:?}"),
    }
    assert!(sessions.handle_signaling(3, "not-json").is_none());
    sessions.remove_viewer(3);
    assert!(sessions.handle_signaling(3, answer).is_none());
}

#[test]
fn encoder_command_line() {
    let args = ffmpeg_args(&InputSource::TestPattern, EncoderConfig::default());
    let expected: Vec<&str> = vec![
        "-hide_banner", "-loglevel", "error", "-nostdin",
        "-f", "lavfi", "-i", "testsrc2=size=1280x720:rate=30",
        "-an", "-vf", "scale=-2:720,fps=30",
        "-c:v", "libvpx", "-deadline", "realtime", "-cpu-used", "8",
        "-b:v", "1500k", "-maxrate", "1500k", "-bufsize", "1500k",
        "-g", "60", "-keyint_min", "60",
        "-error-resilient", "1", "-auto-alt-ref", "0", "-lag-in-frames", "0",
        "-flush_packets", "1", "-f", "ivf", "pipe:1",
    ];
    assert_eq!(args, expected);
    let config = EncoderConfig { height: 480, fps: 15, bitrate_kbps: 800, keyframe_interval_secs: 4 };
    let args = ffmpeg_args(&InputSource::Ffmpeg("movie.mkv".into()), config);
    assert_eq!(&args[4..6], ["-i", "movie.mkv"]);
    assert_eq!(args[8], "scale=-2:480,fps=15");
    assert_eq!(args[16], "800k");
    assert_eq!(args[22], "60");
    let args = ffmpeg_args(&InputSource::Pipe, config);
    assert_eq!(&args[4..6], ["-i", "pipe:0"]);
    let args = ffmpeg_args(&InputSource::Lavfi("color=black".into()), config);
    assert_eq!(&args[4..8], ["-f", "lavfi", "-i", "color=black"]);
}
