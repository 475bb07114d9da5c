use tslib::broadcast::{viewer_step, PeerState, ViewerAction, ViewerEvent, ViewerState, FIRST_FRAME_NS};
use tslib::signaling::{IceCandidate, ViewerMessage};

fn candidate(line: &str) -> IceCandidate {
    IceCandidate { candidate: line.into(), sdp_mid: Some("0".into()), sdp_mline_index: Some(0) }
}

#[test]
fn candidates_wait_for_the_answer() {
    let s = ViewerState::new();
    let (s, a) = viewer_step(s, ViewerEvent::Signal(ViewerMessage::Candidate(candidate("c1"))));
    assert!(a.is_empty());
    let (s, a) = viewer_step(s, ViewerEvent::Signal(ViewerMessage::Candidate(candidate("c2"))));
    assert!(a.is_empty());
    assert_eq!(s.pending.len(), 2);
    let (s, a) = viewer_step(s, ViewerEvent::Signal(ViewerMessage::Answer("v=0".into())));
    assert!(s.answered);
    assert!(s.pending.is_empty());
    assert_eq!(a.len(), 3);
    assert!(matches!(&a[0], ViewerAction::SetAnswer(sdp) if sdp == "v=0"));
    assert!(matches!(&a[1], ViewerAction::AddCandidate(c) if c.candidate == "c1"));
    assert!(matches!(&a[2], ViewerAction::AddCandidate(c) if c.candidate == "c2"));
    let (_, a) = viewer_step(s, ViewerEvent::Signal(ViewerMessage::Candidate(candidate("c3"))));
    assert!(matches!(&a[..], [ViewerAction::AddCandidate(c)] if c.candidate == "c3"));
}

#[test]
fn connection_states() {
    let (s, a) = viewer_step(ViewerState::new(), ViewerEvent::Peer(PeerState::Other));
    assert!(a.is_empty());
    let (s, a) = viewer_step(s, ViewerEvent::Peer(PeerState::Connected));
    assert!(s.connected);
    assert!(matches!(&a[..], [ViewerAction::Resubscribe, ViewerAction::ReportConnected]));
    let (s, a) = viewer_step(s, ViewerEvent::Peer(PeerState::Connected));
    assert!(a.is_empty());
    let (_, a) = viewer_step(s.clone(), ViewerEvent::Peer(PeerState::Failed));
    assert!(matches!(&a[..], [ViewerAction::Fail(PeerState::Failed)]));
    let (_, a) = viewer_step(s.clone(), ViewerEvent::Peer(PeerState::Closed));
    assert!(matches!(&a[..], [ViewerAction::Fail(PeerState::Closed)]));
    let (_, a) = viewer_step(s, ViewerEvent::Removed);
    assert!(matches!(&a[..], [ViewerAction::Finish]));
}

#[test]
fn frames_start_at_a_keyframe_and_keep_real_time() {
    let (s, a) = viewer_step(ViewerState::new(), ViewerEvent::Frame { data: vec![0x10], now_ns: 5 });
    assert!(a.is_empty(), "no frames before connecting");
    let (s, _) = viewer_step(s, ViewerEvent::Peer(PeerState::Connected));
    let (s, a) = viewer_step(s, ViewerEvent::Frame { data: vec![0x11], now_ns: 10 });
    assert!(a.is_empty(), "an interframe first is skipped");
    let (s, a) = viewer_step(s, ViewerEvent::Frame { data: vec![0x10, 7], now_ns: 1_000 });
    assert!(matches!(&a[..], [ViewerAction::WriteFrame { data, duration_ns }] if data == &vec![0x10, 7] && *duration_ns == FIRST_FRAME_NS));
    let (s, a) = viewer_step(s, ViewerEvent::Frame { data: vec![0x11], now_ns: 41_000_000 });
    assert!(matches!(&a[..], [ViewerAction::WriteFrame { duration_ns: 40_999_000, .. }]));
    let (s, _) = viewer_step(s, ViewerEvent::Lagged);
    assert!(s.need_keyframe);
    let (s, a) = viewer_step(s, ViewerEvent::Frame { data: vec![0x11], now_ns: 50_000_000 });
    assert!(a.is_empty());
    let (_, a) = viewer_step(s, ViewerEvent::FramesEnded);
    assert!(matches!(&a[..], [ViewerAction::Finish]));
    assert_eq!(FIRST_FRAME_NS, 33_000_000);
}
