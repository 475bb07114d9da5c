use tslib::signaling::{parse_signaling, IceCandidate, ViewerMessage};

#[test]
fn answer_and_candidates_parse() {
    let Some(ViewerMessage::Answer(sdp)) =
        parse_signaling(r#"{"cmd":"answer","args":{"answer":"v=0\r\n"}}"#)
    else {
        panic!("expected an answer");
    };
    assert_eq!(sdp, "v=0\r\n");

    let Some(ViewerMessage::Candidate(candidate)) = parse_signaling(
        r#"{"args":{"mLine":0,"mid":"0","sdp":"candidate:1 1 udp 1 10.0.0.1 9 typ host"},"cmd":"iceCandidate"}"#,
    ) else {
        panic!("expected a candidate");
    };
    assert_eq!(candidate.candidate, "candidate:1 1 udp 1 10.0.0.1 9 typ host");
    assert_eq!(candidate.sdp_mid.as_deref(), Some("0"));
    assert_eq!(candidate.sdp_mline_index, Some(0));
}

#[test]
fn unknown_or_broken_signaling_is_ignored() {
    for json in ["not-json", r#"{"cmd":"bogus","args":{}}"#, r#"{"cmd":"answer","args":{}}"#, "{}"] {
        assert!(parse_signaling(json).is_none(), "{json}");
    }
}

#[test]
fn candidate_fields_that_do_not_fit_are_left_out() {
    let parsed = parse_signaling(r#"{"cmd":"iceCandidate","args":{"sdp":"c","mid":5,"mLine":70000}}"#);
    assert_eq!(
        parsed,
        Some(ViewerMessage::Candidate(IceCandidate { candidate: "c".into(), sdp_mid: None, sdp_mline_index: None }))
    );
    let parsed = parse_signaling(r#"{"cmd":"iceCandidate","args":{"sdp":"c","mLine":65535}}"#);
    assert_eq!(
        parsed,
        Some(ViewerMessage::Candidate(IceCandidate { candidate: "c".into(), sdp_mid: None, sdp_mline_index: Some(65535) }))
    );
    assert!(parse_signaling(r#"{"cmd":"iceCandidate","args":{"mid":"0"}}"#).is_none());
    assert!(parse_signaling(r#"{"cmd":"answer"}"#).is_none());
    assert!(parse_signaling(r#"{"cmd":7,"args":{"answer":"x"}}"#).is_none());
    assert!(parse_signaling(r#"["answer"]"#).is_none());
}
