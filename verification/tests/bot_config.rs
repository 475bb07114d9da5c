use std::time::Duration;
use tslib::bot_config::{BotConfig, BotConfigBuilder};
use tslib::error::BotError;

/// Identities here are plain numbers; a made-up one is 7.
fn make_identity() -> u32 {
    7
}

#[test]
fn build_fails_without_address() {
    let result = BotConfigBuilder::<u32>::default().build(make_identity);
    assert!(result.is_err());
    match result {
        Err(BotError::Config(m)) => assert_eq!(m, "Server address is required"),
        _ => panic!("expected a configuration error"),
    }
}

#[test]
fn build_succeeds_with_address() {
    let config = BotConfigBuilder::default()
        .address("localhost")
        .build(make_identity)
        .unwrap();
    assert_eq!(config.address, "localhost");
}

#[test]
fn default_nickname() {
    let config = BotConfigBuilder::default()
        .address("localhost")
        .build(make_identity)
        .unwrap();
    assert_eq!(config.nickname, "TsLibBot");
}

#[test]
fn custom_nickname() {
    let config = BotConfigBuilder::default()
        .address("localhost")
        .nickname("MyBot")
        .build(make_identity)
        .unwrap();
    assert_eq!(config.nickname, "MyBot");
}

#[test]
fn default_command_prefix() {
    let config = BotConfigBuilder::default()
        .address("localhost")
        .build(make_identity)
        .unwrap();
    assert_eq!(config.command_prefix, "!");
}

#[test]
fn custom_command_prefix() {
    let config = BotConfigBuilder::default()
        .address("localhost")
        .command_prefix(".")
        .build(make_identity)
        .unwrap();
    assert_eq!(config.command_prefix, ".");
}

#[test]
fn default_reconnect_delay() {
    let config = BotConfigBuilder::default()
        .address("localhost")
        .build(make_identity)
        .unwrap();
    assert_eq!(config.reconnect_delay, Duration::from_secs(5));
}

#[test]
fn zero_reconnect_delay_becomes_5s() {
    let config = BotConfigBuilder::default()
        .address("localhost")
        .reconnect_delay(Duration::ZERO)
        .build(make_identity)
        .unwrap();
    assert_eq!(config.reconnect_delay, Duration::from_secs(5));
}

#[test]
fn custom_reconnect_delay() {
    let config = BotConfigBuilder::default()
        .address("localhost")
        .reconnect_delay(Duration::from_secs(10))
        .build(make_identity)
        .unwrap();
    assert_eq!(config.reconnect_delay, Duration::from_secs(10));
}

#[test]
fn single_owner() {
    let config = BotConfigBuilder::default()
        .address("localhost")
        .owner("uid1")
        .build(make_identity)
        .unwrap();
    assert_eq!(config.owners, vec!["uid1"]);
}

#[test]
fn multiple_owners() {
    let config = BotConfigBuilder::default()
        .address("localhost")
        .owner("uid1")
        .owners(vec!["uid2", "uid3"])
        .build(make_identity)
        .unwrap();
    assert_eq!(config.owners, vec!["uid1", "uid2", "uid3"]);
}

#[test]
fn identity_made_only_when_missing() {
    let made = BotConfigBuilder::default()
        .address("localhost")
        .build(make_identity)
        .unwrap();
    assert_eq!(made.identity, 7);
    let given = BotConfigBuilder::default()
        .address("localhost")
        .identity(42u32)
        .build(|| panic!("no identity should be made"))
        .unwrap();
    assert_eq!(given.identity, 42);
}

#[test]
fn other_settings_carry_over() {
    let config = BotConfig::builder()
        .address("ts.example.org:9987")
        .password("secret")
        .channel("Lobby")
        .channel_password("lobbypw")
        .auto_reconnect(true)
        .build(make_identity)
        .unwrap();
    assert_eq!(config.password.as_deref(), Some("secret"));
    assert_eq!(config.channel.as_deref(), Some("Lobby"));
    assert_eq!(config.channel_password.as_deref(), Some("lobbypw"));
    assert!(config.auto_reconnect);
    let plain = BotConfig::builder().address("x").build(make_identity).unwrap();
    assert_eq!(plain.password, None);
    assert!(!plain.auto_reconnect);
}

#[test]
fn owners_are_recognised() {
    let config = BotConfigBuilder::default()
        .address("localhost")
        .owners(vec!["a", "b"])
        .build(make_identity)
        .unwrap();
    assert!(config.is_owner("b"));
    assert!(!config.is_owner("c"));
    assert!(!config.is_owner(""));
}
