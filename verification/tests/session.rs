use std::collections::HashMap;
use tslib::connection::ConnectionState;
use tslib::events::{AudioCodec, Event, FileEntry, MessageTarget};
use tslib::session::{
    compute_file_permission_hints, download_read_size, upload_start, BookEvent, ChatTarget, ErrorPart, JoinRequestPart, JoinResponsePart, PermPart,
    PropertyRef, ServerMessage, Session, SignalingPart,
};
use tslib::state::{Channel, ServerInfo, User};
use tslib::streams::{StreamNotice, StreamPart};

fn user(id: u16, channel_id: u64, name: &str) -> User {
    User { id, channel_id, nickname: name.to_string(), ..Default::default() }
}

fn channel(id: u64, name: &str) -> Channel {
    Channel { id, name: name.to_string(), ..Default::default() }
}

fn part(client_id: u16, id: &str) -> StreamPart {
    StreamPart {
        client_id,
        stream_id: id.into(),
        name: None,
        stream_type: None,
        access: None,
        accessibility: None,
        mode: None,
        bitrate: None,
        viewer_limit: None,
        viewer_count: None,
        audio: None,
    }
}

fn connected() -> Session {
    let mut s = Session::new();
    s.connected();
    s
}

#[test]
fn user_join_move_update_leave() {
    let mut s = connected();
    let e = s.book_event(BookEvent::Added { id: PropertyRef::Client(5), client: Some(user(5, 1, "bob")), channel: None });
    assert!(matches!(e, Some(Event::UserJoined { ref user }) if user.nickname == "bob"));
    assert_eq!(s.user(5).unwrap().channel_id, 1);
    let e = s.book_event(BookEvent::Changed { id: PropertyRef::ClientChannel(5), client: Some(user(5, 2, "bob")), channel: None });
    match e {
        Some(Event::UserMoved { user, from_channel, to_channel }) => {
            assert_eq!(user.id, 5);
            assert_eq!(from_channel, 1);
            assert_eq!(to_channel, 2);
        }
        _ => panic!("expected a move"),
    }
    // Same channel again: no move event.
    let e = s.book_event(BookEvent::Changed { id: PropertyRef::ClientChannel(5), client: Some(user(5, 2, "bob")), channel: None });
    assert!(e.is_none());
    let e = s.book_event(BookEvent::Changed { id: PropertyRef::ClientDetail(5), client: Some(user(5, 2, "robert")), channel: None });
    assert!(matches!(e, Some(Event::UserUpdated { ref user }) if user.nickname == "robert"));
    let e = s.book_event(BookEvent::Removed { id: PropertyRef::Client(5) });
    match e {
        Some(Event::UserLeft { user, reason }) => {
            assert_eq!(user.nickname, "robert");
            assert_eq!(reason, "Disconnected");
        }
        _ => panic!("expected a leave"),
    }
    assert!(s.user(5).is_none());
    assert!(s.book_event(BookEvent::Removed { id: PropertyRef::Client(5) }).is_none());
}

#[test]
fn channel_hints_survive_book_updates() {
    let mut s = connected();
    let mut c = channel(9, "Files");
    c.permission_hints = 1153;
    s.book_event(BookEvent::Added { id: PropertyRef::Channel(9), client: None, channel: Some(c) });
    let e = s.book_event(BookEvent::Changed { id: PropertyRef::ChannelDetail(9), client: None, channel: Some(channel(9, "Files 2")) });
    match e {
        Some(Event::ChannelEdited { channel }) => {
            assert_eq!(channel.name, "Files 2");
            assert_eq!(channel.permission_hints, 1153);
        }
        _ => panic!("expected an edit"),
    }
    assert_eq!(s.channel(9).unwrap().permission_hints, 1153);
    assert!(matches!(s.book_event(BookEvent::Removed { id: PropertyRef::Channel(9) }), Some(Event::ChannelDeleted { channel_id: 9 })));
    assert!(s.channel(9).is_none());
}

#[test]
fn chat_messages_and_pokes() {
    let mut s = connected();
    let e = s.book_event(BookEvent::Message { target: ChatTarget::Poke(3), invoker_id: 4, invoker_name: "amy".into(), message: "hey".into() });
    assert!(matches!(e, Some(Event::Poked { poker_id: 4, ref poker_name, ref message }) if poker_name == "amy" && message == "hey"));
    let e = s.book_event(BookEvent::Message { target: ChatTarget::Client(3), invoker_id: 4, invoker_name: "amy".into(), message: "psst".into() });
    assert!(matches!(e, Some(Event::TextMessage { target: MessageTarget::Private, .. })));
    let e = s.book_event(BookEvent::Message { target: ChatTarget::Channel, invoker_id: 4, invoker_name: "amy".into(), message: "all".into() });
    assert!(matches!(e, Some(Event::TextMessage { target: MessageTarget::Channel, .. })));
}

#[test]
fn notifications_give_one_snapshot_each() {
    let mut s = connected();
    for notice in [
        StreamNotice::Started(vec![StreamPart { name: Some("First".into()), audio: Some(true), ..part(2, "a") }]),
        StreamNotice::Info(vec![StreamPart { viewer_count: Some(3), ..part(2, "a") }, StreamPart { name: Some("Second".into()), ..part(2, "b") }]),
        StreamNotice::Updated(vec![StreamPart { name: Some("Renamed".into()), ..part(2, "a") }]),
        StreamNotice::Stopped(vec![part(2, "a")]),
    ] {
        let (events, returned) = s.message_event(ServerMessage::Streams(notice.clone()));
        assert!(returned);
        assert_eq!(events.len(), 1);
        match &events[0] {
            Event::StreamsChanged { streams } => assert_eq!(streams, &s.streams()),
            _ => panic!("expected a snapshot"),
        }
        let (events, returned) = s.message_event(ServerMessage::Streams(notice));
        assert!(!returned);
        assert!(events.is_empty());
    }
}

#[test]
fn owner_leaving_cleans_streams_and_disconnect_clears() {
    let mut s = connected();
    s.message_event(ServerMessage::Streams(StreamNotice::Started(vec![part(2, "a"), part(2, "b"), part(3, "a")])));
    let leave = BookEvent::Removed { id: PropertyRef::Client(2) };
    match s.owner_left(&leave) {
        Some(Event::StreamsChanged { streams }) => {
            assert_eq!(streams.len(), 1);
            assert_eq!(streams[0].owner_id, 3);
        }
        _ => panic!("expected a snapshot"),
    }
    assert!(s.owner_left(&leave).is_none());
    let events = s.disconnected_temporarily();
    assert_eq!(events.len(), 2);
    assert!(matches!(&events[0], Event::StreamsChanged { streams } if streams.is_empty()));
    assert!(matches!(&events[1], Event::ConnectionLost { .. }));
    assert_eq!(s.state(), ConnectionState::Reconnecting);
    // Queued notifications are ignored until the connection is back.
    let (events, _) = s.message_event(ServerMessage::Streams(StreamNotice::Started(vec![part(2, "z")])));
    assert!(events.is_empty());
    s.book_events_arrived();
    assert!(s.is_connected());
    let (events, _) = s.message_event(ServerMessage::Streams(StreamNotice::Started(vec![part(2, "b")])));
    match &events[0] {
        Event::StreamsChanged { streams } => assert_eq!(streams[0].id, "b"),
        _ => panic!("expected a snapshot"),
    }
    let events = s.disconnect_requested();
    assert_eq!(events.len(), 2);
    assert!(matches!(&events[1], Event::Disconnected { reason } if reason == "User requested"));
    assert!(s.disconnect_requested().len() == 1);
}

#[test]
fn talk_start_once_then_timeout() {
    let mut s = connected();
    let events = s.audio_received(7, AudioCodec::OpusVoice, vec![1, 2], 1000);
    assert_eq!(events.len(), 2);
    assert!(matches!(events[0], Event::TalkStatusStart { user_id: 7 }));
    let events = s.audio_received(7, AudioCodec::OpusVoice, vec![3], 1200);
    assert_eq!(events.len(), 1);
    assert!(matches!(&events[0], Event::AudioReceived { user_id: 7, data, .. } if data == &vec![3]));
    assert!(s.talk_timeouts(1500).is_empty());
    let events = s.talk_timeouts(1501);
    assert_eq!(events.len(), 1);
    assert!(matches!(events[0], Event::TalkStatusStop { user_id: 7 }));
    assert!(s.talk_timeouts(5000).is_empty());
}

#[test]
fn join_responses_and_signaling() {
    let mut s = connected();
    let (events, returned) = s.message_event(ServerMessage::JoinStreamResponse(vec![JoinResponsePart {
        client_id: 2,
        stream_id: "a".into(),
        decision: 1,
        message: Some(String::new()),
        offer: Some("v=0\r\na=x\r\n".into()),
    }]));
    assert!(returned);
    match &events[0] {
        Event::StreamJoinResponse { owner_id, stream_id, decision, message, offer } => {
            assert_eq!(*owner_id, 2);
            assert_eq!(stream_id, "a");
            assert_eq!(*decision, 1);
            assert_eq!(message.as_deref(), Some(""));
            assert_eq!(offer.as_deref(), Some("v=0\r\na=x\r\n"));
        }
        _ => panic!("expected a join response"),
    }
    let (events, returned) = s.message_event(ServerMessage::StreamSignaling(vec![SignalingPart {
        client_id: 2,
        stream_id: "a".into(),
        json: "{\"x\":1}".into(),
    }]));
    assert!(returned);
    assert!(matches!(&events[0], Event::StreamSignaling { json, .. } if json == "{\"x\":1}"));
    let (events, returned) = s.message_event(ServerMessage::JoinStreamResponse(vec![]));
    assert!(events.is_empty() && !returned);
}

#[test]
fn file_list_collects_until_finished() {
    let mut s = connected();
    s.file_list_requested(3, "/".into());
    let entry = |n: &str| FileEntry { name: n.into(), size: 1, datetime: 0, is_file: true };
    s.message_event(ServerMessage::FileList(vec![entry("a"), entry("b")]));
    s.message_event(ServerMessage::FileList(vec![entry("c")]));
    let (events, returned) = s.message_event(ServerMessage::FileListFinished);
    assert!(returned);
    match &events[0] {
        Event::FileListReceived { channel_id, path, files } => {
            assert_eq!(*channel_id, 3);
            assert_eq!(path, "/");
            let names: Vec<&str> = files.iter().map(|f| f.name.as_str()).collect();
            assert_eq!(names, vec!["a", "b", "c"]);
        }
        _ => panic!("expected a file list"),
    }
    let (events, returned) = s.message_event(ServerMessage::FileListFinished);
    assert!(events.is_empty() && !returned);
}

#[test]
fn empty_directory_error_ends_file_list() {
    let mut s = connected();
    s.file_list_requested(3, "/x".into());
    let (events, returned) = s.message_event(ServerMessage::CommandError(vec![ErrorPart { id: 1281, message: "empty".into() }]));
    assert!(returned);
    assert!(matches!(&events[0], Event::FileListReceived { files, .. } if files.is_empty()));
}

#[test]
fn permission_overview_sets_hints() {
    let mut s = connected();
    let mut c = channel(4, "Share");
    c.permission_hints = 0;
    s.book_event(BookEvent::Added { id: PropertyRef::Channel(4), client: None, channel: Some(c) });
    s.perm_overview_requested(4);
    let parts = vec![
        PermPart { permission_id: 235, permission_value: 10 },
        PermPart { permission_id: 236, permission_value: 20 },
        PermPart { permission_id: 237, permission_value: -1 },
        PermPart { permission_id: 237, permission_value: 5 },
        PermPart { permission_id: 239, permission_value: 0 },
        PermPart { permission_id: 240, permission_value: 1 },
    ];
    let (events, returned) = s.message_event(ServerMessage::PermOverview(parts));
    assert!(returned);
    // upload denied (10 < 20), download unlimited, delete denied (0 < 1), the rest unlisted.
    let expected = 1 + 128 + 512 + 1024 + 2048;
    assert!(matches!(events[0], Event::ChannelPermissionsUpdated { channel_id: 4, permission_hints } if permission_hints == expected));
    assert_eq!(s.channel(4).unwrap().permission_hints, expected);
}

#[test]
fn refused_overview_defaults_hints() {
    let mut s = connected();
    s.book_event(BookEvent::Added { id: PropertyRef::Channel(4), client: None, channel: Some(channel(4, "x")) });
    s.perm_overview_requested(4);
    let (events, returned) = s.message_event(ServerMessage::CommandError(vec![ErrorPart { id: 2568, message: "insufficient".into() }]));
    assert!(returned);
    assert!(matches!(events[0], Event::ChannelPermissionsUpdated { channel_id: 4, permission_hints: 1153 }));
    // Other errors are only announced.
    let (events, returned) = s.message_event(ServerMessage::CommandError(vec![
        ErrorPart { id: 0, message: "ok".into() },
        ErrorPart { id: 768, message: "bad".into() },
    ]));
    assert!(!returned);
    assert_eq!(events.len(), 1);
    assert!(matches!(&events[0], Event::CommandError { error_id: 768, message } if message == "bad"));
}

#[test]
fn permission_hint_rules() {
    let mut perms = HashMap::new();
    assert_eq!(compute_file_permission_hints(&perms), 1 + 64 + 128 + 256 + 512 + 1024 + 2048);
    perms.insert(243, 5);
    assert_eq!(compute_file_permission_hints(&perms), 1 + 64 + 128 + 256 + 512 + 1024 + 2048);
    perms.insert(244, 6);
    assert_eq!(compute_file_permission_hints(&perms), 1 + 64 + 128 + 256 + 512 + 2048);
    // An unlisted power counts as 0: it falls short of a need of 50.
    let perms = HashMap::from([(236u32, 50i32)]);
    assert_eq!(compute_file_permission_hints(&perms), 3969);
    // An unlimited power meets any need.
    let perms = HashMap::from([(235u32, -1i32), (236u32, 50i32)]);
    assert_eq!(compute_file_permission_hints(&perms), 4033);
    // A need of 0 or less is met by an unlisted power.
    let perms = HashMap::from([(236u32, -5i32)]);
    assert_eq!(compute_file_permission_hints(&perms), 4033);
}

#[test]
fn transfers_and_failures() {
    let mut s = connected();
    s.register_download(1, 3, "/a".into());
    s.register_upload(2, 3, "/b".into(), vec![1, 2, 3]);
    assert_eq!(s.take_download(1), (3, "/a".to_string()));
    assert_eq!(s.take_download(1), (0, String::new()));
    assert!(matches!(s.transfer_failed(2, "gone".into()), Event::FileTransferFailed { path, error } if path == "/b" && error == "gone"));
    assert!(s.take_upload(2).is_none());
    assert!(matches!(s.transfer_failed(9, "x".into()), Event::FileTransferFailed { path, .. } if path.is_empty()));
}

#[test]
fn sync_and_own_mute() {
    let mut s = connected();
    let info = ServerInfo { name: "srv".into(), ..Default::default() };
    s.sync(info, vec![channel(1, "Lobby"), channel(2, "Music")], vec![user(5, 1, "me"), user(6, 2, "you")], 5, Some(1));
    assert_eq!(s.client_id(), Some(5));
    assert_eq!(s.channel_id(), Some(1));
    assert_eq!(s.server_state().server.name, "srv");
    assert_eq!(s.channels_list().len(), 2);
    s.own_mute_sent(true);
    let users = s.users_list();
    assert_eq!(users.len(), 2);
    for u in users {
        assert_eq!(u.is_input_muted, u.id == 5);
    }
    s.moved_to_channel(2);
    assert_eq!(s.channel_id(), Some(2));
}

#[test]
fn refused_join_has_no_offer_or_note() {
    let mut s = connected();
    let (events, _) = s.message_event(ServerMessage::JoinStreamResponse(vec![JoinResponsePart {
        client_id: 2,
        stream_id: "a".into(),
        decision: 0,
        message: None,
        offer: None,
    }]));
    match &events[0] {
        Event::StreamJoinResponse { decision, message, offer, .. } => {
            assert_eq!(*decision, 0);
            assert_eq!(*offer, None);
            assert_eq!(*message, None);
        }
        _ => panic!("expected a join response"),
    }
}

#[test]
fn viewer_join_and_leave_requests_become_events() {
    let mut s = connected();
    for remove in [false, true] {
        let (events, returned) = s.message_event(ServerMessage::JoinStreamRequest(vec![JoinRequestPart {
            client_id: 5,
            stream_id: "a".into(),
            is_remove: remove,
        }]));
        assert!(returned);
        assert_eq!(events.len(), 1);
        match &events[0] {
            Event::StreamJoinRequest { viewer_id, stream_id, is_remove } => {
                assert_eq!(*viewer_id, 5);
                assert_eq!(stream_id, "a");
                assert_eq!(*is_remove, remove);
            }
            _ => panic!("expected a join request"),
        }
    }
    let (events, returned) = s.message_event(ServerMessage::JoinStreamRequest(vec![]));
    assert!(events.is_empty() && !returned);
}

#[test]
fn own_streams_follow_our_client_id() {
    let mut s = connected();
    assert!(s.own_streams().is_empty());
    s.message_event(ServerMessage::Streams(StreamNotice::Started(vec![part(7, "mine"), part(2, "theirs"), part(7, "also")])));
    assert!(s.own_streams().is_empty());
    s.sync(ServerInfo::default(), vec![], vec![], 7, None);
    let own = s.own_streams();
    assert_eq!(own.len(), 2);
    assert_eq!(own[0].id, "also");
    assert_eq!(own[1].id, "mine");
    assert!(own.iter().all(|st| st.owner_id == 7));
}

#[test]
fn download_sizes_are_capped_and_uploads_resume() {
    assert_eq!(download_read_size(0), 0);
    assert_eq!(download_read_size(1234), 1234);
    assert_eq!(download_read_size(10_485_760), 10_485_760);
    assert_eq!(download_read_size(u64::MAX), 10_485_760);
    assert_eq!(upload_start(0, 10), 0);
    assert_eq!(upload_start(4, 10), 4);
    assert_eq!(upload_start(10, 10), 10);
    assert_eq!(upload_start(99, 10), 10);
}

#[test]
fn a_handle_names_one_transfer() {
    let mut s = connected();
    s.register_download(4, 3, "/old".into());
    s.register_download(5, 3, "/other".into());
    s.register_download(4, 8, "/new".into());
    assert_eq!(s.take_download(4), (8, "/new".to_string()));
    assert_eq!(s.take_download(4), (0, String::new()));
    assert_eq!(s.take_download(5), (3, "/other".to_string()));
}
