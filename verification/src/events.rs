//! Events the client raises, audio codecs and chat targets.

use vstd::prelude::*;
use crate::connection::ConnectionState;
use crate::state::{Channel, User};
use crate::streams::Stream;

verus! {

/// Audio codec types
#[derive(Debug, Clone, Copy, PartialEq, Eq, Structural)]
pub enum AudioCodec {
    /// Speex Narrowband
    SpeexNarrowband,
    /// Speex Wideband
    SpeexWideband,
    /// Speex Ultra-Wideband
    SpeexUltraWideband,
    /// CELT Mono
    CeltMono,
    /// Opus Voice
    OpusVoice,
    /// Opus Music
    OpusMusic,
}

impl AudioCodec {
    /// Protocol identifier of a codec.
    pub open spec fn spec_id(self) -> u8 {
        match self {
            AudioCodec::SpeexNarrowband => 0,
            AudioCodec::SpeexWideband => 1,
            AudioCodec::SpeexUltraWideband => 2,
            AudioCodec::CeltMono => 3,
            AudioCodec::OpusVoice => 4,
            AudioCodec::OpusMusic => 5,
        }
    }

    /// Get the codec ID as used in the protocol
    pub fn id(&self) -> (r: u8)
        ensures
            r == self.spec_id(),
    {
        match self {
            AudioCodec::SpeexNarrowband => 0,
            AudioCodec::SpeexWideband => 1,
            AudioCodec::SpeexUltraWideband => 2,
            AudioCodec::CeltMono => 3,
            AudioCodec::OpusVoice => 4,
            AudioCodec::OpusMusic => 5,
        }
    }

    /// Create from protocol codec ID
    pub fn from_id(id: u8) -> (r: Option<AudioCodec>)
        ensures
            r is Some <==> id <= 5,
            r matches Some(c) ==> c.spec_id() == id,
    {
        match id {
            0 => Some(AudioCodec::SpeexNarrowband),
            1 => Some(AudioCodec::SpeexWideband),
            2 => Some(AudioCodec::SpeexUltraWideband),
            3 => Some(AudioCodec::CeltMono),
            4 => Some(AudioCodec::OpusVoice),
            5 => Some(AudioCodec::OpusMusic),
            _ => None,
        }
    }

    /// Check if this is an Opus codec
    pub fn is_opus(&self) -> (r: bool)
        ensures
            r <==> (*self == AudioCodec::OpusVoice || *self == AudioCodec::OpusMusic),
    {
        match self {
            AudioCodec::OpusVoice | AudioCodec::OpusMusic => true,
            _ => false,
        }
    }
}

/// Reading a codec's identifier back gives the same codec.
pub proof fn lemma_codec_id_roundtrip(c: AudioCodec, d: AudioCodec)
    ensures
        c.spec_id() <= 5,
        c.spec_id() == d.spec_id() ==> c == d,
{
}


/// Message target type
#[derive(Debug, Clone, Copy, PartialEq, Eq, Structural)]
pub enum MessageTarget {
    /// Server-wide message
    Server,
    /// Channel message
    Channel,
    /// Private message
    Private,
}

/// A file entry from a channel's file list
#[derive(Debug, Clone)]
pub struct FileEntry {
    pub name: String,
    pub size: u64,
    pub datetime: i64,
    pub is_file: bool,
}

/// Events that can be emitted by the client
#[derive(Debug, Clone)]
pub enum Event {
    /// Connection state changed
    ConnectionStateChanged { old_state: ConnectionState, new_state: ConnectionState },
    /// Successfully connected to the server
    Connected { server_name: String, welcome_message: Option<String> },
    /// Disconnected from the server
    Disconnected { reason: String },
    /// Connection lost unexpectedly
    ConnectionLost { reason: String },
    /// A new channel was created
    ChannelCreated { channel: Channel },
    /// A channel was deleted
    ChannelDeleted { channel_id: u64 },
    /// A channel was edited
    ChannelEdited { channel: Channel },
    /// We moved to a different channel
    ChannelJoined { channel: Channel },
    /// A user joined the server
    UserJoined { user: User },
    /// A user left the server
    UserLeft { user: User, reason: String },
    /// A user moved to a different channel
    UserMoved { user: User, from_channel: u64, to_channel: u64 },
    /// A user was kicked from a channel
    UserKickedFromChannel { user: User, kicker: User, reason: String },
    /// A user was kicked from the server
    UserKickedFromServer { user: User, kicker: User, reason: String },
    /// A user was banned
    UserBanned { user: User, banner: User, reason: String, duration: Option<u64> },
    /// A user's properties changed
    UserUpdated { user: User },
    /// A user started talking
    TalkStatusStart { user_id: u16 },
    /// A user stopped talking
    TalkStatusStop { user_id: u16 },
    /// Received a text message
    TextMessage { sender_id: u16, sender_name: String, message: String, target: MessageTarget },
    /// We were poked by someone
    Poked { poker_id: u16, poker_name: String, message: String },
    /// Server group assigned to a user
    ServerGroupAssigned { user_id: u16, group_id: u64 },
    /// Server group removed from a user
    ServerGroupRemoved { user_id: u16, group_id: u64 },
    /// Audio data received
    AudioReceived { user_id: u16, codec: AudioCodec, data: Vec<u8> },
    /// The advertised streams changed; the full list, sorted
    StreamsChanged { streams: Vec<Stream> },
    /// A channel's file-permission hints were computed
    ChannelPermissionsUpdated { channel_id: u64, permission_hints: u64 },
    /// A channel's file list arrived
    FileListReceived { channel_id: u64, path: String, files: Vec<FileEntry> },
    /// The server refused a command
    CommandError { error_id: u32, message: String },
    /// A sharer answered our request to join its stream
    StreamJoinResponse {
        owner_id: u16,
        stream_id: String,
        decision: u32,
        /// The sharer's note, when the reply carries one (possibly empty)
        message: Option<String>,
        /// The SDP offer, when the request was granted
        offer: Option<String>,
    },
    /// A viewer asked to join one of our streams, or to leave it
    StreamJoinRequest { viewer_id: u16, stream_id: String, is_remove: bool },
    /// A sharer relayed a WebRTC signaling message
    StreamSignaling { owner_id: u16, stream_id: String, json: String },
    /// A file download completed
    FileDownloaded { channel_id: u64, path: String, data: Vec<u8> },
    /// A file upload completed
    FileUploaded { channel_id: u64, path: String },
    /// A file transfer failed
    FileTransferFailed { path: String, error: String },
}

/// The callback of an event handler that an event goes to by default, with what it is
/// handed.
pub enum Callback<'a> {
    /// `on_connected`: the server's name and welcome message
    Connected(&'a str, Option<&'a str>),
    /// `on_disconnected`: the reason
    Disconnected(&'a str),
    /// `on_text_message`: sender id and name, the message and where it went
    TextMessage(u16, &'a str, &'a str, MessageTarget),
    /// `on_user_joined`: the user
    UserJoined(&'a User),
    /// `on_user_left`: the user and the reason
    UserLeft(&'a User, &'a str),
    /// No specific callback
    Nothing,
}

/// The characters of an optional text.
pub open spec fn opt_text(o: Option<&str>) -> Option<Seq<char>> {
    match o {
        Some(t) => Some(t@),
        None => None,
    }
}

/// The characters of an optional string.
pub open spec fn opt_string(o: Option<String>) -> Option<Seq<char>> {
    match o {
        Some(t) => Some(t@),
        None => None,
    }
}

/// Which callback a handler's default event dispatch calls for `event`, and with what:
/// connecting, disconnecting, text messages, users joining and users leaving have one
/// each; every other event has none.
pub fn default_callback<'a>(event: &'a Event) -> (c: Callback<'a>)
    ensures
        match *event {
            Event::Connected { server_name, welcome_message } => c matches Callback::Connected(n, w)
                && n@ == server_name@ && opt_text(w) == opt_string(welcome_message),
            Event::Disconnected { reason } => c matches Callback::Disconnected(r) && r@ == reason@,
            Event::TextMessage { sender_id, sender_name, message, target } => c matches Callback::TextMessage(
                id,
                name,
                text,
                t,
            ) && id == sender_id && name@ == sender_name@ && text@ == message@ && t == target,
            Event::UserJoined { user } => c matches Callback::UserJoined(u) && *u == user,
            Event::UserLeft { user, reason } => c matches Callback::UserLeft(u, r) && *u == user
                && r@ == reason@,
            _ => c matches Callback::Nothing,
        },
{
    match event {
        Event::Connected { server_name, welcome_message } => {
            let w = match welcome_message {
                Some(m) => Some(m.as_str()),
                None => None,
            };
            Callback::Connected(server_name.as_str(), w)
        },
        Event::Disconnected { reason } => Callback::Disconnected(reason.as_str()),
        Event::TextMessage { sender_id, sender_name, message, target } => Callback::TextMessage(
            *sender_id,
            sender_name.as_str(),
            message.as_str(),
            *target,
        ),
        Event::UserJoined { user } => Callback::UserJoined(user),
        Event::UserLeft { user, reason } => Callback::UserLeft(user, reason.as_str()),
        _ => Callback::Nothing,
    }
}

} // verus!
