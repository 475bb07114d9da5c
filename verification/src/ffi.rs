//! Types of the C interface: error codes, connection states and opaque handles.

use vstd::prelude::*;
use crate::connection::ConnectionState;

verus! {

/// Result codes of the C interface
#[derive(Debug, Clone, Copy, PartialEq, Eq, Structural)]
pub enum TsLibError {
    /// No error (the C value 0)
    Success,
    InvalidArgument,
    ConnectionFailed,
    NotConnected,
    Timeout,
    PermissionDenied,
    ChannelError,
    IdentityError,
    InternalError,
}

impl TsLibError {
    /// The number a C caller sees.
    pub open spec fn spec_code(self) -> i32 {
        match self {
            TsLibError::Success => 0,
            TsLibError::InvalidArgument => 1,
            TsLibError::ConnectionFailed => 2,
            TsLibError::NotConnected => 3,
            TsLibError::Timeout => 4,
            TsLibError::PermissionDenied => 5,
            TsLibError::ChannelError => 6,
            TsLibError::IdentityError => 7,
            TsLibError::InternalError => 99,
        }
    }

    /// The number a C caller sees.
    pub fn code(&self) -> (r: i32)
        ensures
            r == self.spec_code(),
    {
        match self {
            TsLibError::Success => 0,
            TsLibError::InvalidArgument => 1,
            TsLibError::ConnectionFailed => 2,
            TsLibError::NotConnected => 3,
            TsLibError::Timeout => 4,
            TsLibError::PermissionDenied => 5,
            TsLibError::ChannelError => 6,
            TsLibError::IdentityError => 7,
            TsLibError::InternalError => 99,
        }
    }
}

/// Opaque handle to a client
pub struct TsLibClient {
    _private: [u8; 0],
}

/// Opaque handle to an identity
pub struct TsLibIdentity {
    _private: [u8; 0],
}

/// Connection state as the C interface reports it
#[derive(Debug, Clone, Copy, PartialEq, Eq, Structural)]
pub enum TsLibConnectionState {
    Disconnected,
    Connecting,
    Connected,
    Reconnecting,
}

impl TsLibConnectionState {
    /// The number a C caller sees.
    pub open spec fn spec_code(self) -> i32 {
        match self {
            TsLibConnectionState::Disconnected => 0,
            TsLibConnectionState::Connecting => 1,
            TsLibConnectionState::Connected => 2,
            TsLibConnectionState::Reconnecting => 3,
        }
    }

    /// The number a C caller sees.
    pub fn code(&self) -> (r: i32)
        ensures
            r == self.spec_code(),
    {
        match self {
            TsLibConnectionState::Disconnected => 0,
            TsLibConnectionState::Connecting => 1,
            TsLibConnectionState::Connected => 2,
            TsLibConnectionState::Reconnecting => 3,
        }
    }

    /// The state reported for a connection state: an initializing connection counts as
    /// connected.
    pub fn from_state(s: ConnectionState) -> (r: TsLibConnectionState)
        ensures
            r == match s {
                ConnectionState::Disconnected => TsLibConnectionState::Disconnected,
                ConnectionState::Connecting => TsLibConnectionState::Connecting,
                ConnectionState::Connected => TsLibConnectionState::Connected,
                ConnectionState::Initializing => TsLibConnectionState::Connected,
                ConnectionState::Reconnecting => TsLibConnectionState::Reconnecting,
            },
    {
        match s {
            ConnectionState::Disconnected => TsLibConnectionState::Disconnected,
            ConnectionState::Connecting => TsLibConnectionState::Connecting,
            ConnectionState::Connected => TsLibConnectionState::Connected,
            ConnectionState::Initializing => TsLibConnectionState::Connected,
            ConnectionState::Reconnecting => TsLibConnectionState::Reconnecting,
        }
    }
}

} // verus!
