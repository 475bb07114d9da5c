use std::time::Duration;
use tslib::config::{
    encode, format_duration_secs, generate_hardware_id, host_of, normalize_address, parse_duration_secs, port_of,
    ClientConfig, ClientConfigBuilder,
};
use tslib::error::Error;

#[test]
fn addresses() {
    assert_eq!(normalize_address("example.com").unwrap(), "example.com:9987");
    assert_eq!(normalize_address("example.com:1234").unwrap(), "example.com:1234");
    assert_eq!(host_of("example.com:1234"), "example.com");
    assert_eq!(host_of("example.com"), "example.com");
    assert_eq!(port_of("example.com:1234"), 1234);
    assert_eq!(port_of("example.com"), 9987);
    assert_eq!(port_of("example.com:99999"), 9987);
    assert_eq!(port_of("example.com:+80"), 80);
    assert_eq!(port_of("a:12:34"), 12);
    assert_eq!(port_of("a:"), 9987);
}

#[test]
fn hex_and_durations() {
    assert_eq!(encode(&[0x00, 0x0f, 0xa0, 0xff]), "000fa0ff");
    assert_eq!(encode(&[]), "");
    assert_eq!(format_duration_secs(5), "5s");
    assert_eq!(parse_duration_secs("5s"), Some(5));
    assert_eq!(parse_duration_secs("12"), Some(12));
    assert_eq!(parse_duration_secs("3ss"), Some(3));
    assert_eq!(parse_duration_secs("x5s"), None);
    assert_eq!(parse_duration_secs("s"), None);
    assert_eq!(parse_duration_secs("18446744073709551615s"), Some(u64::MAX));
    assert_eq!(parse_duration_secs("18446744073709551616s"), None);
}

/// Identities here are a name and an optional nickname.
#[derive(Debug, Clone, PartialEq)]
struct TestIdentity {
    name: &'static str,
    nickname: Option<&'static str>,
}

fn nickname_of(id: &TestIdentity) -> Option<String> {
    id.nickname.map(String::from)
}

#[test]
fn client_config_needs_address_and_identity() {
    let none = ClientConfigBuilder::<TestIdentity>::default().build(nickname_of);
    match none {
        Err(Error::Config(m)) => assert_eq!(m, "Server address is required"),
        _ => panic!("expected a configuration error"),
    }
    let no_identity = ClientConfig::<TestIdentity>::builder().address("localhost").build(nickname_of);
    match no_identity {
        Err(Error::Config(m)) => assert_eq!(m, "Identity is required"),
        _ => panic!("expected a configuration error"),
    }
}

#[test]
fn client_config_defaults() {
    let id = TestIdentity { name: "a", nickname: None };
    let cfg = ClientConfig::builder()
        .address("localhost")
        .identity(id.clone())
        .build(nickname_of)
        .unwrap();
    assert_eq!(cfg.address, "localhost:9987");
    assert_eq!(cfg.identity, id);
    assert_eq!(cfg.nickname, "TsLibUser");
    assert_eq!(cfg.password, None);
    assert_eq!(cfg.connect_timeout, Duration::from_secs(10));
    assert!(cfg.auto_reconnect);
    assert_eq!(cfg.reconnect_delay, Duration::from_secs(5));
    assert_eq!(cfg.max_reconnect_attempts, 5);
    assert_eq!(cfg.hardware_id.len(), 32);
    assert!(cfg.hardware_id.chars().all(|c| c.is_ascii_hexdigit() && !c.is_ascii_uppercase()));
    assert_eq!(cfg.host(), "localhost");
    assert_eq!(cfg.port(), 9987);
}

#[test]
fn client_config_nickname_sources() {
    let named = TestIdentity { name: "b", nickname: Some("FromIdentity") };
    let cfg = ClientConfig::builder()
        .address("ts.example.org:10000")
        .identity(named.clone())
        .build(nickname_of)
        .unwrap();
    assert_eq!(cfg.nickname, "FromIdentity");
    assert_eq!(cfg.port(), 10000);
    let cfg = ClientConfig::builder()
        .address("ts.example.org")
        .identity(named)
        .nickname("Explicit")
        .build(|_: &TestIdentity| panic!("the identity is not asked"))
        .unwrap();
    assert_eq!(cfg.nickname, "Explicit");
}

#[test]
fn client_config_settings_carry_over() {
    let cfg = ClientConfigBuilder::default()
        .address("host:1")
        .identity(TestIdentity { name: "c", nickname: None })
        .password("pw")
        .channel("Lobby")
        .channel_password("cpw")
        .hardware_id("abc")
        .connect_timeout(Duration::from_secs(3))
        .auto_reconnect(false)
        .reconnect_delay(Duration::from_secs(7))
        .max_reconnect_attempts(9)
        .build(nickname_of)
        .unwrap();
    assert_eq!(cfg.address, "host:1");
    assert_eq!(cfg.password.as_deref(), Some("pw"));
    assert_eq!(cfg.channel.as_deref(), Some("Lobby"));
    assert_eq!(cfg.channel_password.as_deref(), Some("cpw"));
    assert_eq!(cfg.hardware_id, "abc");
    assert_eq!(cfg.connect_timeout, Duration::from_secs(3));
    assert!(!cfg.auto_reconnect);
    assert_eq!(cfg.reconnect_delay, Duration::from_secs(7));
    assert_eq!(cfg.max_reconnect_attempts, 9);
    assert_eq!(cfg.identity.name, "c");
}

#[test]
fn hardware_ids_are_sixteen_random_bytes() {
    let a = generate_hardware_id();
    let b = generate_hardware_id();
    assert_eq!(a.len(), 32);
    assert_eq!(b.len(), 32);
    assert_ne!(a, b);
}
