use tslib::broadcast::BroadcastConfig;
use tslib::connection::{ConnectionState, MessageTarget};
use tslib::ffi::{TsLibConnectionState, TsLibError};

#[test]
fn ffi_codes() {
    assert_eq!(TsLibError::Success.code(), 0);
    assert_eq!(TsLibError::IdentityError.code(), 7);
    assert_eq!(TsLibError::InternalError.code(), 99);
    assert_eq!(TsLibConnectionState::Reconnecting.code(), 3);
    assert_eq!(TsLibConnectionState::from_state(ConnectionState::Initializing), TsLibConnectionState::Connected);
    assert_eq!(TsLibConnectionState::from_state(ConnectionState::Connecting), TsLibConnectionState::Connecting);
}

#[test]
fn broadcast_defaults() {
    let c = BroadcastConfig::default();
    assert_eq!(c.ice_servers, vec!["stun:turn.teamspeak.com:3478", "stun:turn2.teamspeak.com:3478"]);
    assert_eq!(c.bind_addrs, vec!["0.0.0.0:0"]);
    assert_eq!(c.gather_timeout, std::time::Duration::from_secs(3));
    assert_eq!(c.encoder.height, 720);
}

#[test]
fn outgoing_targets() {
    assert_eq!(MessageTarget::Private(4), MessageTarget::Private(4));
    assert_ne!(MessageTarget::Server, MessageTarget::Channel);
}
