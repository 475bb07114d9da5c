use tslib::streams::{Stream, StreamNotice, StreamPart, StreamRegistry, StreamSetup};

fn part(client_id: u16, id: &str) -> StreamPart {
    StreamPart {
        client_id,
        stream_id: id.into(),
        name: None,
        stream_type: None,
        access: None,
        accessibility: None,
        mode: None,
        bitrate: None,
        viewer_limit: None,
        viewer_count: None,
        audio: None,
    }
}

fn empty(owner_id: u16, id: &str) -> Stream {
    Stream {
        owner_id,
        id: id.into(),
        name: None,
        stream_type: None,
        access: None,
        mode: None,
        bitrate: None,
        viewer_limit: None,
        viewer_count: None,
        audio: None,
    }
}

fn notice(kind: &str, parts: Vec<StreamPart>) -> StreamNotice {
    match kind {
        "notifystreamstarted" => StreamNotice::Started(parts),
        "notifystreaminfo" => StreamNotice::Info(parts),
        "notifystreamupdated" => StreamNotice::Updated(parts),
        "notifystreamstopped" => StreamNotice::Stopped(parts),
        _ => StreamNotice::Other,
    }
}

#[test]
fn lifecycle() {
    let mut registry = StreamRegistry::default();
    let start = StreamNotice::Started(vec![StreamPart {
        name: Some("Wayland Source".into()),
        stream_type: Some(3),
        access: Some(1),
        mode: Some(1),
        bitrate: Some(33920),
        viewer_limit: Some(5),
        audio: Some(true),
        ..part(13, "s")
    }]);
    assert!(registry.apply(&start));
    let mut expected = Stream {
        name: Some("Wayland Source".into()),
        stream_type: Some(3),
        access: Some(1),
        mode: Some(1),
        bitrate: Some(33920),
        viewer_limit: Some(5),
        audio: Some(true),
        ..empty(13, "s")
    };
    assert_eq!(registry.list(), vec![expected.clone()]);
    assert!(!registry.apply(&start));
    let info = StreamNotice::Info(vec![StreamPart {
        viewer_count: Some(2),
        accessibility: Some(2),
        ..part(13, "s")
    }]);
    assert!(registry.apply(&info));
    expected.viewer_count = Some(2);
    expected.access = Some(2);
    assert_eq!(registry.list(), vec![expected.clone()]);
    assert!(!registry.apply(&info));
    let update = StreamNotice::Updated(vec![StreamPart {
        name: Some("Renamed".into()),
        access: Some(3),
        ..part(13, "s")
    }]);
    assert!(registry.apply(&update));
    expected.name = Some("Renamed".into());
    expected.access = Some(3);
    assert_eq!(registry.list(), vec![expected]);
    assert!(!registry.apply(&update));
    let stop = StreamNotice::Stopped(vec![part(13, "s")]);
    assert!(registry.apply(&stop));
    assert!(registry.list().is_empty());
    assert!(!registry.apply(&stop));
}

#[test]
fn info_and_update_before_started() {
    for command in ["notifystreaminfo", "notifystreamupdated"] {
        let mut registry = StreamRegistry::default();
        assert!(registry.apply(&notice(command, vec![part(1, "s")])));
        assert_eq!(registry.list(), vec![empty(1, "s")]);
        assert!(!registry.apply(&notice(command, vec![part(1, "s")])));
        assert!(registry.apply(&notice(
            command,
            vec![StreamPart {
                name: Some("Early".into()),
                stream_type: Some(99),
                accessibility: Some(98),
                mode: Some(97),
                bitrate: Some(96),
                viewer_limit: Some(95),
                viewer_count: Some(94),
                audio: Some(true),
                ..part(1, "s")
            }]
        )));
        let expected = Stream {
            name: Some("Early".into()),
            stream_type: Some(99),
            access: Some(98),
            mode: Some(97),
            bitrate: Some(96),
            viewer_limit: Some(95),
            viewer_count: Some(94),
            audio: Some(true),
            ..empty(1, "s")
        };
        assert_eq!(registry.list(), vec![expected.clone()]);
        assert!(!registry.apply(&notice("notifystreamstarted", vec![part(1, "s")])));
        assert_eq!(registry.list(), vec![expected]);
    }
}

#[test]
fn partial_updates_preserve_absent_fields_and_accept_empty_zero_false() {
    let mut registry = StreamRegistry::default();
    registry.apply(&StreamNotice::Info(vec![StreamPart {
        name: Some("Full".into()),
        stream_type: Some(1),
        accessibility: Some(1),
        mode: Some(1),
        bitrate: Some(1),
        viewer_limit: Some(1),
        viewer_count: Some(1),
        audio: Some(true),
        ..part(1, "s")
    }]));
    for field in [
        "name=",
        "type=0",
        "accessibility=0 access=9",
        "mode=0",
        "bitrate=0",
        "viewer_limit=0",
        "viewer=0",
        "audio=0",
    ] {
        let before = registry.list().remove(0);
        let mut expected = before.clone();
        let mut p = part(1, "s");
        match field {
            "name=" => {
                expected.name = Some(String::new());
                p.name = Some(String::new());
            }
            "type=0" => {
                expected.stream_type = Some(0);
                p.stream_type = Some(0);
            }
            "accessibility=0 access=9" => {
                expected.access = Some(0);
                p.accessibility = Some(0);
                p.access = Some(9);
            }
            "mode=0" => {
                expected.mode = Some(0);
                p.mode = Some(0);
            }
            "bitrate=0" => {
                expected.bitrate = Some(0);
                p.bitrate = Some(0);
            }
            "viewer_limit=0" => {
                expected.viewer_limit = Some(0);
                p.viewer_limit = Some(0);
            }
            "viewer=0" => {
                expected.viewer_count = Some(0);
                p.viewer_count = Some(0);
            }
            "audio=0" => {
                expected.audio = Some(false);
                p.audio = Some(false);
            }
            _ => unreachable!(),
        }
        let update = StreamNotice::Updated(vec![p]);
        assert!(registry.apply(&update), "{field}");
        assert_eq!(registry.list(), vec![expected], "{field}");
        assert!(!registry.apply(&update), "{field}");
    }
    assert!(!registry.apply(&StreamNotice::Updated(vec![part(1, "s")])));
}

#[test]
fn multipart_inheritance_for_every_notification() {
    for command in ["notifystreamstarted", "notifystreaminfo", "notifystreamupdated"] {
        let mut registry = StreamRegistry::default();
        let shared = |id: &str| StreamPart {
            name: Some("Shared".into()),
            audio: Some(true),
            ..part(2, id)
        };
        let message = notice(
            command,
            vec![
                shared("z"),
                shared("a"),
                StreamPart { name: Some("Other".into()), audio: Some(false), ..part(1, "z") },
            ],
        );
        assert!(registry.apply(&message));
        assert_eq!(
            registry.list(),
            vec![
                Stream { name: Some("Other".into()), audio: Some(false), ..empty(1, "z") },
                Stream { name: Some("Shared".into()), audio: Some(true), ..empty(2, "a") },
                Stream { name: Some("Shared".into()), audio: Some(true), ..empty(2, "z") },
            ]
        );
        assert!(!registry.apply(&message));
        assert!(registry.apply(&notice(
            "notifystreamstopped",
            vec![part(2, "missing"), part(2, "a"), part(2, "z")]
        )));
        assert_eq!(
            registry.list(),
            vec![Stream { name: Some("Other".into()), audio: Some(false), ..empty(1, "z") },]
        );
        assert!(!registry.apply(&notice("notifystreamstopped", vec![part(2, "z")])));
    }
}

#[test]
fn owner_cleanup_clear_and_snapshot_independence() {
    let mut registry = StreamRegistry::default();
    assert!(!registry.clear());
    assert!(!registry.remove_owner(1));
    registry.apply(&StreamNotice::Started(vec![part(2, "z"), part(2, "a"), part(1, "z")]));
    let snapshot = registry.list();
    assert_eq!(snapshot, vec![empty(1, "z"), empty(2, "a"), empty(2, "z")]);
    assert!(!registry.remove_owner(99));
    assert!(registry.remove_owner(2));
    assert!(!registry.remove_owner(2));
    assert_eq!(registry.list(), vec![empty(1, "z")]);
    assert!(registry.clear());
    assert!(!registry.clear());
    assert!(registry.list().is_empty());
    assert_eq!(snapshot.len(), 3);
}

#[test]
fn unrelated_notifications_do_not_change_metadata() {
    let mut registry = StreamRegistry::default();
    registry.apply(&StreamNotice::Info(vec![StreamPart { viewer_count: Some(5), ..part(1, "s") }]));
    let before = registry.list();
    for _command in [
        "notifystreamclientjoined clid=1 id=s",
        "notifystreamclientleft clid=1 id=s reason=1",
        "notifystreamsignaling clid=1 id=s json=opaque",
    ] {
        assert!(!registry.apply(&StreamNotice::Other));
        assert_eq!(registry.list(), before);
    }
}

#[test]
fn stream_setup_defaults() {
    let s = StreamSetup::new("Desk", 2500);
    assert_eq!(s.name, "Desk");
    assert_eq!(s.stream_type, 2);
    assert_eq!(s.accessibility, 1);
    assert_eq!(s.bitrate, 2500);
    assert_eq!(s.viewer_limit, 0);
    assert!(!s.audio);
}

#[test]
fn list_orders_ids_by_code_point() {
    let mut registry = StreamRegistry::new();
    registry.apply(&StreamNotice::Started(vec![part(1, "b"), part(1, "ab"), part(1, "a"), part(0, "z")]));
    let ids: Vec<(u16, String)> = registry.list().into_iter().map(|s| (s.owner_id, s.id)).collect();
    assert_eq!(
        ids,
        vec![(0, "z".to_string()), (1, "a".to_string()), (1, "ab".to_string()), (1, "b".to_string())]
    );
}

#[test]
fn same_notice_twice_reports_no_change() {
    let mut registry = StreamRegistry::new();
    let started = StreamNotice::Started(vec![
        StreamPart { name: Some("Desk".into()), bitrate: Some(900), ..part(4, "a") },
        part(5, "b"),
    ]);
    assert!(registry.apply(&started));
    let after_first = registry.list();
    assert!(!registry.apply(&started));
    assert_eq!(registry.list(), after_first);
    let stopped = StreamNotice::Stopped(vec![part(4, "a"), part(4, "a")]);
    assert!(registry.apply(&stopped));
    assert!(!registry.apply(&stopped));
    assert_eq!(registry.list(), vec![empty(5, "b")]);
}

#[test]
fn merge_changes_only_its_own_key() {
    let mut registry = StreamRegistry::new();
    assert!(registry.merge(Stream { name: Some("One".into()), bitrate: Some(100), ..empty(1, "s") }));
    assert!(registry.merge(Stream { name: Some("Two".into()), ..empty(2, "s") }));
    assert!(registry.merge(Stream { bitrate: Some(200), ..empty(1, "s") }));
    assert!(!registry.merge(Stream { bitrate: Some(200), ..empty(1, "s") }));
    assert_eq!(
        registry.list(),
        vec![
            Stream { name: Some("One".into()), bitrate: Some(200), ..empty(1, "s") },
            Stream { name: Some("Two".into()), ..empty(2, "s") },
        ]
    );
}

#[test]
fn registry_holds_each_stream_once() {
    let mut registry = StreamRegistry::new();
    registry.apply(&StreamNotice::Started(vec![part(1, "s"), part(1, "s"), part(1, "t")]));
    registry.apply(&StreamNotice::Updated(vec![StreamPart { viewer_count: Some(3), ..part(1, "s") }]));
    registry.merge(empty(1, "t"));
    assert_eq!(
        registry.list(),
        vec![Stream { viewer_count: Some(3), ..empty(1, "s") }, empty(1, "t")]
    );
}
