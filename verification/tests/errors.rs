use tslib::error::{ConnectionError, Error};

#[test]
fn server_error_construction() {
    let err = Error::server(256, "not found");
    match err {
        Error::Server { code, message } => {
            assert_eq!(code, 256);
            assert_eq!(message, "not found");
        }
        _ => panic!("expected Server variant"),
    }
}

#[test]
fn permission_denied_construction() {
    let err = Error::permission_denied("b_client_kick");
    match err {
        Error::PermissionDenied { permission } => {
            assert_eq!(permission, "b_client_kick");
        }
        _ => panic!("expected PermissionDenied variant"),
    }
}

#[test]
fn timeout_is_recoverable() {
    assert!(Error::Timeout.is_recoverable());
}

#[test]
fn connection_lost_is_recoverable() {
    let err = Error::Connection(ConnectionError::ConnectionLost("reset".into()));
    assert!(err.is_recoverable());
}

#[test]
fn config_error_is_not_recoverable() {
    let err = Error::Config("bad".into());
    assert!(!err.is_recoverable());
}

#[test]
fn server_error_is_not_recoverable() {
    assert!(!Error::server(1, "x").is_recoverable());
}

#[test]
fn not_connected_is_not_recoverable() {
    let err = Error::Connection(ConnectionError::NotConnected);
    assert!(!err.is_recoverable());
}

#[test]
fn error_display_server() {
    let err = Error::server(512, "banned");
    assert_eq!(err.to_string(), "Server error: 512 - banned");
}

#[test]
fn error_display_permission() {
    let err = Error::permission_denied("kick");
    assert_eq!(err.to_string(), "Permission denied: kick");
}

#[test]
fn error_display_timeout() {
    assert_eq!(Error::Timeout.to_string(), "Operation timed out");
}

#[test]
fn nested_connection_error_text() {
    let err = Error::Connection(ConnectionError::ConnectFailed("refused".into()));
    assert_eq!(err.to_string(), "Connection error: Failed to connect to server: refused");
}

#[test]
fn bot_error_not_enough_arguments_text() {
    let err = tslib::error::BotError::NotEnoughArguments { expected: 3, got: 1 };
    assert_eq!(err.to_string(), "Not enough arguments: expected 3, got 1");
}

#[test]
fn identity_security_level_text() {
    let err = tslib::error::IdentityError::SecurityLevelTooLow { required: 24, current: 8 };
    assert_eq!(err.to_string(), "Security level too low: required 24, current 8");
}

#[test]
fn audio_error_text() {
    assert_eq!(tslib::error::AudioError::NoDevice.to_string(), "No audio device available");
    assert_eq!(
        tslib::error::AudioError::Codec("bad frame".into()).to_string(),
        "Codec error: bad frame"
    );
}
