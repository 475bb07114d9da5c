use tslib::manager::ChannelBuilder;

#[test]
fn builder_defaults() {
    let c = ChannelBuilder::new("Lobby").build().unwrap();
    assert_eq!(c.name, "Lobby");
    assert_eq!(c.id, 0);
    assert_eq!(c.parent_id, 0);
    assert_eq!(c.codec, 4);
    assert_eq!(c.codec_quality, 6);
    assert_eq!(c.max_clients, -1);
    assert_eq!(c.max_family_clients, -1);
    assert!(!c.is_permanent);
    assert!(!c.is_semi_permanent);
    assert!(!c.has_password);
    assert!(c.topic.is_none());
}

#[test]
fn builder_settings() {
    let c = ChannelBuilder::new("Music")
        .parent(3)
        .topic("tunes")
        .description("all day")
        .password("pw")
        .codec(5)
        .codec_quality(20)
        .max_clients(10)
        .permanent()
        .order(4)
        .build()
        .unwrap();
    assert_eq!(c.parent_id, 3);
    assert_eq!(c.topic.as_deref(), Some("tunes"));
    assert_eq!(c.description.as_deref(), Some("all day"));
    assert!(c.has_password);
    assert_eq!(c.codec, 5);
    assert_eq!(c.codec_quality, 10);
    assert_eq!(c.max_clients, 10);
    assert!(c.is_permanent);
    assert_eq!(c.order, 4);
}

#[test]
fn builder_quality_clamped_low_and_lifetimes() {
    let c = ChannelBuilder::new("x").codec_quality(0).semi_permanent().build().unwrap();
    assert_eq!(c.codec_quality, 1);
    assert!(c.is_semi_permanent && !c.is_permanent);
    let c = ChannelBuilder::new("x").permanent().temporary().build().unwrap();
    assert!(!c.is_semi_permanent && !c.is_permanent);
}

#[test]
fn default_builder_has_no_name() {
    assert!(ChannelBuilder::default().build().is_none());
    assert!(ChannelBuilder::default().topic("t").permanent().build().is_none());
}
