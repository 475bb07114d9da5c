//! Connection state and outgoing message targets.

use vstd::prelude::*;

verus! {

/// Connection state
#[derive(Debug, Clone, Copy, PartialEq, Eq, Structural)]
pub enum ConnectionState {
    /// Not connected to any server
    Disconnected,
    /// Currently connecting
    Connecting,
    /// Connected and authenticated
    Connected,
    /// Connection established, receiving initial data
    Initializing,
    /// Connection lost, attempting to reconnect
    Reconnecting,
}

impl ConnectionState {
    /// Check if the connection is active
    pub fn is_connected(&self) -> (r: bool)
        ensures
            r <==> (*self == ConnectionState::Connected || *self == ConnectionState::Initializing),
    {
        match self {
            ConnectionState::Connected | ConnectionState::Initializing => true,
            _ => false,
        }
    }

    /// Check if a connection attempt is in progress
    pub fn is_connecting(&self) -> (r: bool)
        ensures
            r <==> (*self == ConnectionState::Connecting || *self == ConnectionState::Reconnecting),
    {
        match self {
            ConnectionState::Connecting | ConnectionState::Reconnecting => true,
            _ => false,
        }
    }
}

/// No connection state is both active and in the middle of connecting.
pub proof fn lemma_connected_excludes_connecting(s: ConnectionState)
    ensures
        !((s == ConnectionState::Connected || s == ConnectionState::Initializing) && (s
            == ConnectionState::Connecting || s == ConnectionState::Reconnecting)),
{
}

/// Message target
#[derive(Debug, Clone, PartialEq, Eq, Structural)]
pub enum MessageTarget {
    /// Send to the entire server
    Server,
    /// Send to the current channel
    Channel,
    /// Send to a specific user
    Private(u16),
}

} // verus!
