use tslib::convert::{export_key_string, channel_from_record, user_from_record, ChannelKind, ChannelRecord, ClientLimit, ClientRecord};
use tslib::events::AudioCodec;

#[test]
fn channel_record_conversion() {
    let r = ChannelRecord {
        id: 4,
        parent: 1,
        name: "Music".into(),
        topic: Some("tunes".into()),
        description: None,
        order: 3,
        kind: ChannelKind::SemiPermanent,
        is_default: None,
        has_password: Some(true),
        codec: AudioCodec::OpusMusic,
        codec_quality: None,
        max_clients: Some(ClientLimit::Limited(25)),
        max_family_clients: Some(ClientLimit::Inherited),
        needed_talk_power: None,
        icon: Some(7),
        subscribed: true,
        permission_hints: None,
    };
    let c = channel_from_record(r);
    assert_eq!(c.id, 4);
    assert_eq!(c.parent_id, 1);
    assert!(!c.is_permanent && c.is_semi_permanent);
    assert!(!c.is_default && c.has_password);
    assert_eq!(c.codec, 5);
    assert_eq!(c.codec_quality, 7);
    assert_eq!(c.max_clients, 25);
    assert_eq!(c.max_family_clients, -1);
    assert_eq!(c.icon_id, 7);
    assert_eq!(c.order, 3);
    assert_eq!(c.permission_hints, 0);
}

#[test]
fn client_record_conversion() {
    let r = ClientRecord {
        id: 9,
        uid: Some(b"hello".to_vec()),
        database_id: 77,
        channel: 4,
        name: "bob".into(),
        is_query: true,
        input_muted: true,
        output_muted: false,
        input_hardware_enabled: true,
        output_hardware_enabled: true,
        away_message: Some("brb".into()),
        is_recording: false,
        is_priority_speaker: false,
        is_channel_commander: false,
        talk_power: 20,
        talk_power_granted: true,
        server_groups: vec![6, 8],
        channel_group: 2,
        optional_data: Some(("Linux".into(), "3.6".into())),
        avatar_hash: String::new(),
        icon: 3,
    };
    let u = user_from_record(r);
    assert_eq!(u.uid, "aGVsbG8=");
    assert_eq!(u.client_type, 1);
    assert!(u.is_away);
    assert_eq!(u.platform, "Linux");
    assert!(u.avatar_id.is_none());
    assert_eq!(u.server_groups, vec![6, 8]);
    assert!(u.is_talker);
}

#[test]
fn identity_key_export_form() {
    assert_eq!(export_key_string(7, &[1, 2, 3]), "7VAQID");
    assert_eq!(export_key_string(0, &[]), "0V");
    assert_eq!(export_key_string(123456, &[0xff, 0xfe]), "123456V//4=");
}
