//! The client's session logic: what each server notification does to the known server
//! state, and which events it raises. The connection itself (sending, receiving, timers)
//! is driven from outside; it hands each notification in as a plain value.

use vstd::prelude::*;
use crate::connection::ConnectionState;
use crate::events::{AudioCodec, Event, FileEntry, MessageTarget};
use crate::state::{Channel, ServerState, User};
use crate::streams::{sort_streams, StreamNotice, StreamRegistry, apply_notice, without_owner};
use crate::text::{chars_of, string_of};
use crate::state::{enumerates, lemma_enumerates_iter, unpair};
use crate::tree::map_of;
use vstd::std_specs::iter::IteratorSpec;
use std::collections::HashMap;

verus! {

broadcast use vstd::std_specs::hash::group_hash_axioms;

/// Permission: file upload power.
pub const PERM_FT_FILE_UPLOAD_POWER: u32 = 235;
/// Permission: needed file upload power.
pub const PERM_FT_NEEDED_FILE_UPLOAD_POWER: u32 = 236;
/// Permission: file download power.
pub const PERM_FT_FILE_DOWNLOAD_POWER: u32 = 237;
/// Permission: needed file download power.
pub const PERM_FT_NEEDED_FILE_DOWNLOAD_POWER: u32 = 238;
/// Permission: file delete power.
pub const PERM_FT_FILE_DELETE_POWER: u32 = 239;
/// Permission: needed file delete power.
pub const PERM_FT_NEEDED_FILE_DELETE_POWER: u32 = 240;
/// Permission: file rename power.
pub const PERM_FT_FILE_RENAME_POWER: u32 = 241;
/// Permission: needed file rename power.
pub const PERM_FT_NEEDED_FILE_RENAME_POWER: u32 = 242;
/// Permission: file browse power.
pub const PERM_FT_FILE_BROWSE_POWER: u32 = 243;
/// Permission: needed file browse power.
pub const PERM_FT_NEEDED_FILE_BROWSE_POWER: u32 = 244;
/// Permission: directory create power.
pub const PERM_FT_DIRECTORY_CREATE_POWER: u32 = 245;
/// Permission: needed directory create power.
pub const PERM_FT_NEEDED_DIRECTORY_CREATE_POWER: u32 = 246;

/// Channel permission hint: may join.
pub const HINT_JOIN: u64 = 1;
/// Channel permission hint: may upload files.
pub const HINT_FILE_UPLOAD: u64 = 64;
/// Channel permission hint: may download files.
pub const HINT_FILE_DOWNLOAD: u64 = 128;
/// Channel permission hint: may delete files.
pub const HINT_FILE_DELETE: u64 = 256;
/// Channel permission hint: may rename files.
pub const HINT_FILE_RENAME: u64 = 512;
/// Channel permission hint: may browse files.
pub const HINT_FILE_BROWSE: u64 = 1024;
/// Channel permission hint: may create directories.
pub const HINT_FILE_DIRECTORY_CREATE: u64 = 2048;

/// How long after its last audio a user still counts as talking, in milliseconds.
pub const TALK_TIMEOUT_MS: u64 = 300;

/// The most of a download that is read, in bytes.
pub const DOWNLOAD_CAP: u64 = 10_485_760;

/// How many bytes of a download of `size` bytes are read: all of it, up to
/// [`DOWNLOAD_CAP`].
pub fn download_read_size(size: u64) -> (n: usize)
    ensures
        n == if size < DOWNLOAD_CAP {
            size
        } else {
            DOWNLOAD_CAP
        },
{
    if size < DOWNLOAD_CAP {
        size as usize
    } else {
        DOWNLOAD_CAP as usize
    }
}

/// Where an upload of `data_len` bytes resumes when the server asks for the bytes
/// from `seek_position` (taken as a `usize`) on: there, or at the end when that lies
/// past it.
pub fn upload_start(seek_position: u64, data_len: usize) -> (start: usize)
    ensures
        start == if (seek_position as usize) < data_len {
            seek_position as usize
        } else {
            data_len
        },
{
    let offset = seek_position as usize;
    if offset < data_len {
        offset
    } else {
        data_len
    }
}

/// The server's error id for an empty result.
pub const ERROR_DATABASE_EMPTY_RESULT: u32 = 1281;

/// The value a permission overview gives a permission: the listed value, or 0 when the
/// overview does not list it.
pub open spec fn perm_value(perms: Map<u32, i32>, id: u32) -> i32 {
    if perms.contains_key(id) {
        perms[id]
    } else {
        0
    }
}

/// The power `power` reaches the power `needed` asks for: -1 is unlimited, and a
/// permission the overview does not list counts as 0.
pub open spec fn can_do(perms: Map<u32, i32>, power: u32, needed: u32) -> bool {
    perm_value(perms, power) == -1 || perm_value(perms, power) >= perm_value(perms, needed)
}

/// The file-permission hints a permission overview grants.
pub open spec fn permission_hints(perms: Map<u32, i32>) -> u64 {
    (HINT_JOIN + (if can_do(perms, PERM_FT_FILE_UPLOAD_POWER, PERM_FT_NEEDED_FILE_UPLOAD_POWER) {
        HINT_FILE_UPLOAD
    } else {
        0
    }) + (if can_do(perms, PERM_FT_FILE_DOWNLOAD_POWER, PERM_FT_NEEDED_FILE_DOWNLOAD_POWER) {
        HINT_FILE_DOWNLOAD
    } else {
        0
    }) + (if can_do(perms, PERM_FT_FILE_DELETE_POWER, PERM_FT_NEEDED_FILE_DELETE_POWER) {
        HINT_FILE_DELETE
    } else {
        0
    }) + (if can_do(perms, PERM_FT_FILE_RENAME_POWER, PERM_FT_NEEDED_FILE_RENAME_POWER) {
        HINT_FILE_RENAME
    } else {
        0
    }) + (if can_do(perms, PERM_FT_FILE_BROWSE_POWER, PERM_FT_NEEDED_FILE_BROWSE_POWER) {
        HINT_FILE_BROWSE
    } else {
        0
    }) + (if can_do(perms, PERM_FT_DIRECTORY_CREATE_POWER, PERM_FT_NEEDED_DIRECTORY_CREATE_POWER) {
        HINT_FILE_DIRECTORY_CREATE
    } else {
        0
    })) as u64
}

fn can(perms: &HashMap<u32, i32>, power_id: u32, needed_id: u32) -> (r: bool)
    ensures
        r == can_do(perms@, power_id, needed_id),
{
    let power = match perms.get(&power_id) {
        Some(p) => *p,
        None => 0,
    };
    if power == -1 {
        true
    } else {
        let needed = match perms.get(&needed_id) {
            Some(n) => *n,
            None => 0,
        };
        power >= needed
    }
}

/// Compute ChannelPermissionHint bitflags from a permoverview result.
/// For each file operation, the user can do it if their power >= the needed power.
/// Permissions not present in the map default to 0.
pub fn compute_file_permission_hints(perms: &HashMap<u32, i32>) -> (hints: u64)
    ensures
        hints == permission_hints(perms@),
{
    let mut hints: u64 = HINT_JOIN;
    if can(perms, PERM_FT_FILE_UPLOAD_POWER, PERM_FT_NEEDED_FILE_UPLOAD_POWER) {
        hints = hints + HINT_FILE_UPLOAD;
    }
    if can(perms, PERM_FT_FILE_DOWNLOAD_POWER, PERM_FT_NEEDED_FILE_DOWNLOAD_POWER) {
        hints = hints + HINT_FILE_DOWNLOAD;
    }
    if can(perms, PERM_FT_FILE_DELETE_POWER, PERM_FT_NEEDED_FILE_DELETE_POWER) {
        hints = hints + HINT_FILE_DELETE;
    }
    if can(perms, PERM_FT_FILE_RENAME_POWER, PERM_FT_NEEDED_FILE_RENAME_POWER) {
        hints = hints + HINT_FILE_RENAME;
    }
    if can(perms, PERM_FT_FILE_BROWSE_POWER, PERM_FT_NEEDED_FILE_BROWSE_POWER) {
        hints = hints + HINT_FILE_BROWSE;
    }
    if can(perms, PERM_FT_DIRECTORY_CREATE_POWER, PERM_FT_NEEDED_DIRECTORY_CREATE_POWER) {
        hints = hints + HINT_FILE_DIRECTORY_CREATE;
    }
    hints
}


/// Permission hints always allow joining, and hold no flag beyond join and the six file
/// operations.
pub proof fn hints_allow_join(perms: Map<u32, i32>)
    ensures
        permission_hints(perms) % 2 == 1,
        permission_hints(perms) <= HINT_JOIN + HINT_FILE_UPLOAD + HINT_FILE_DOWNLOAD + HINT_FILE_DELETE
            + HINT_FILE_RENAME + HINT_FILE_BROWSE + HINT_FILE_DIRECTORY_CREATE,
{
}

/// An unlimited power (-1) allows the operation, whatever it needs; a power the overview
/// does not list counts as 0, so it allows only what needs no power above 0.
pub proof fn unlimited_allows_and_unlisted_counts_zero(perms: Map<u32, i32>, power: u32, needed: u32)
    ensures
        perms.contains_key(power) && perms[power] == -1 ==> can_do(perms, power, needed),
        !perms.contains_key(power) ==> (can_do(perms, power, needed) <==> perm_value(perms, needed) <= 0),
{
}

/// The best value kept for a permission after `value` arrives: -1 (unlimited) stays, else
/// -1 or a larger value replaces it; an absent permission counts as 0.
pub open spec fn merge_perm(m: Map<u32, i32>, id: u32, value: i32) -> Map<u32, i32> {
    let cur = if m.contains_key(id) {
        m[id]
    } else {
        0
    };
    m.insert(
        id,
        if cur != -1 && (value == -1 || value > cur) {
            value
        } else {
            cur
        },
    )
}

/// The permissions after each of `parts` arrives in turn.
pub open spec fn merge_perms(m: Map<u32, i32>, parts: Seq<PermPart>) -> Map<u32, i32>
    decreases parts.len(),
{
    if parts.len() == 0 {
        m
    } else {
        let p = parts.last();
        merge_perm(merge_perms(m, parts.drop_last()), p.permission_id, p.permission_value)
    }
}

/// What a state-book change is about.
#[derive(Debug, Clone, Copy, PartialEq, Eq, Structural)]
pub enum PropertyRef {
    /// A client as a whole (joined or left)
    Client(u16),
    /// A channel as a whole (created or deleted)
    Channel(u64),
    /// The channel a client is in
    ClientChannel(u16),
    /// A client's name, mute states, away message, talk power, recording or streaming flag
    ClientDetail(u16),
    /// A channel's name, topic, codec, client limit or needed talk power
    ChannelDetail(u64),
    /// Anything else
    Other,
}

/// Where a chat message went.
#[derive(Debug, Clone, Copy, PartialEq, Eq, Structural)]
pub enum ChatTarget {
    Server,
    Channel,
    Client(u16),
    Poke(u16),
}

/// A change to the server's state book. `client` and `channel` hold the book's current
/// record of the client or channel the change names, where the book has one.
#[derive(Debug, Clone)]
pub enum BookEvent {
    Added { id: PropertyRef, client: Option<User>, channel: Option<Channel> },
    Changed { id: PropertyRef, client: Option<User>, channel: Option<Channel> },
    Removed { id: PropertyRef },
    Message { target: ChatTarget, invoker_id: u16, invoker_name: String, message: String },
}

/// One part of a reply to a request to join a stream.
#[derive(Debug, Clone)]
pub struct JoinResponsePart {
    pub client_id: u16,
    pub stream_id: String,
    pub decision: u32,
    pub message: Option<String>,
    pub offer: Option<String>,
}

/// One part of a viewer's request to join, or leave, one of our streams.
#[derive(Debug, Clone)]
pub struct JoinRequestPart {
    pub client_id: u16,
    pub stream_id: String,
    pub is_remove: bool,
}

/// One part of a relayed signaling message.
#[derive(Debug, Clone)]
pub struct SignalingPart {
    pub client_id: u16,
    pub stream_id: String,
    pub json: String,
}

/// One entry of a permission overview.
#[derive(Debug, Clone, Copy)]
pub struct PermPart {
    pub permission_id: u32,
    pub permission_value: i32,
}

/// One part of a command error.
#[derive(Debug, Clone)]
pub struct ErrorPart {
    pub id: u32,
    pub message: String,
}

/// A protocol message outside the state book.
#[derive(Debug, Clone)]
pub enum ServerMessage {
    /// A stream notification
    Streams(StreamNotice),
    /// Replies to our requests to join streams
    JoinStreamResponse(Vec<JoinResponsePart>),
    /// Viewers asking to join or leave our streams
    JoinStreamRequest(Vec<JoinRequestPart>),
    /// Relayed signaling messages
    StreamSignaling(Vec<SignalingPart>),
    /// Entries of a requested file list
    FileList(Vec<FileEntry>),
    /// The end of a requested file list
    FileListFinished,
    /// Entries of a requested permission overview
    PermOverview(Vec<PermPart>),
    /// The server's answer to a command, an error or not
    CommandError(Vec<ErrorPart>),
    /// Anything else
    Other,
}

/// Two users agree on every field, their server groups holding the same ids.
pub open spec fn same_user(a: User, b: User) -> bool {
    &&& a.server_groups@ == b.server_groups@
    &&& a == User { server_groups: a.server_groups, ..b }
}

fn copy_opt_string(o: &Option<String>) -> (r: Option<String>)
    ensures
        r == *o,
{
    match o {
        Some(s) => Some(s.clone()),
        None => None,
    }
}

/// A copy of a user.
fn copy_user(u: &User) -> (r: User)
    ensures
        same_user(r, *u),
{
    let groups = u.server_groups.clone();
    assert(groups@ =~= u.server_groups@);
    User {
        id: u.id,
        uid: u.uid.clone(),
        database_id: u.database_id,
        channel_id: u.channel_id,
        nickname: u.nickname.clone(),
        client_type: u.client_type,
        is_talking: u.is_talking,
        is_input_muted: u.is_input_muted,
        is_output_muted: u.is_output_muted,
        has_input_hardware: u.has_input_hardware,
        has_output_hardware: u.has_output_hardware,
        is_away: u.is_away,
        away_message: copy_opt_string(&u.away_message),
        is_recording: u.is_recording,
        is_priority_speaker: u.is_priority_speaker,
        is_channel_commander: u.is_channel_commander,
        talk_power: u.talk_power,
        is_talker: u.is_talker,
        server_groups: groups,
        channel_group: u.channel_group,
        platform: u.platform.clone(),
        version: u.version.clone(),
        country: copy_opt_string(&u.country),
        description: copy_opt_string(&u.description),
        avatar_id: copy_opt_string(&u.avatar_id),
        icon_id: u.icon_id,
        idle_time: u.idle_time,
        connected_time: u.connected_time,
    }
}

/// An exact copy of a channel.
fn copy_channel(c: &Channel) -> (r: Channel)
    ensures
        r == *c,
{
    Channel {
        id: c.id,
        parent_id: c.parent_id,
        name: c.name.clone(),
        topic: copy_opt_string(&c.topic),
        description: copy_opt_string(&c.description),
        order: c.order,
        is_permanent: c.is_permanent,
        is_semi_permanent: c.is_semi_permanent,
        is_default: c.is_default,
        has_password: c.has_password,
        codec: c.codec,
        codec_quality: c.codec_quality,
        max_clients: c.max_clients,
        max_family_clients: c.max_family_clients,
        needed_talk_power: c.needed_talk_power,
        icon_id: c.icon_id,
        is_subscribed: c.is_subscribed,
        permission_hints: c.permission_hints,
    }
}

/// A channel record as stored: hints the record lacks (0) are kept from the channel known
/// under its id, since the state book does not track them.
pub open spec fn with_known_hints(known: Map<u64, Channel>, c: Channel) -> Channel {
    if c.permission_hints == 0 && known.contains_key(c.id) {
        Channel { permission_hints: known[c.id].permission_hints, ..c }
    } else {
        c
    }
}

/// The channel a client was known to be in (0 when unknown).
pub open spec fn known_channel(users: Map<u16, User>, id: u16) -> u64 {
    if users.contains_key(id) {
        users[id].channel_id
    } else {
        0
    }
}

/// The chat target an event reports for a message target that is not a poke.
pub open spec fn chat_target(t: ChatTarget) -> MessageTarget {
    match t {
        ChatTarget::Server => MessageTarget::Server,
        ChatTarget::Channel => MessageTarget::Channel,
        _ => MessageTarget::Private,
    }
}

/// What the client knows and has pending, apart from the connection itself.
pub struct Session {
    /// Current connection state
    state: ConnectionState,
    /// Server state (channels, users, etc.)
    server_state: ServerState,
    streams: StreamRegistry,
    /// Our client ID on the server
    client_id: Option<u16>,
    /// Current channel ID
    channel_id: Option<u64>,
    /// Users heard talking, with the time of their last audio (ms)
    talking: Vec<(u16, u64)>,
    /// Pending downloads: transfer handle, channel, path
    pending_downloads: Vec<(u16, u64, String)>,
    /// Pending uploads: transfer handle, channel, path, data
    pending_uploads: Vec<(u16, u64, String, Vec<u8>)>,
    /// Our own input-muted state, as last sent
    self_input_muted: Option<bool>,
    /// A file list being received: channel, path, entries so far
    pending_file_list: Option<(u64, String, Vec<FileEntry>)>,
    /// A permission overview being received: channel, best value per permission
    pending_perm_overview: Option<(u64, HashMap<u32, i32>)>,
}

impl Session {
    /// The connection state.
    pub closed spec fn conn_state(&self) -> ConnectionState {
        self.state
    }

    /// The known users, by id.
    pub closed spec fn users(&self) -> Map<u16, User> {
        self.server_state.users@
    }

    /// The known channels, by id.
    pub closed spec fn channels(&self) -> Map<u64, Channel> {
        self.server_state.channels@
    }

    /// Our client id, once known.
    pub closed spec fn own_id(&self) -> Option<u16> {
        self.client_id
    }

    /// The channel we are in, once known.
    pub closed spec fn own_channel(&self) -> Option<u64> {
        self.channel_id
    }

    /// The advertised streams, in the order they were first announced.
    pub closed spec fn stream_entries(&self) -> Seq<crate::streams::Stream> {
        self.streams.entries()
    }

    /// Users counted as talking, with the time of their last audio.
    pub closed spec fn talking(&self) -> Seq<(u16, u64)> {
        self.talking@
    }

    /// The pending file list: channel, path and entries so far.
    pub closed spec fn file_list(&self) -> Option<(u64, Seq<char>, Seq<FileEntry>)> {
        match self.pending_file_list {
            Some((c, p, es)) => Some((c, p@, es@)),
            None => None,
        }
    }

    /// The pending permission overview: channel and best value per permission.
    pub closed spec fn perm_overview(&self) -> Option<(u64, Map<u32, i32>)> {
        match self.pending_perm_overview {
            Some((c, m)) => Some((c, m@)),
            None => None,
        }
    }

    /// Pending downloads: handle, then channel and path.
    pub closed spec fn downloads(&self) -> Seq<(u16, (u64, Seq<char>))> {
        self.pending_downloads@.map_values(|d: (u16, u64, String)| (d.0, (d.1, d.2@)))
    }

    /// Pending uploads: handle, then channel, path and data.
    pub closed spec fn uploads(&self) -> Seq<(u16, (u64, Seq<char>, Seq<u8>))> {
        self.pending_uploads@.map_values(|d: (u16, u64, String, Vec<u8>)| (d.0, (d.1, d.2@, d.3@)))
    }

    /// The server's details.
    pub closed spec fn server_info(&self) -> crate::state::ServerInfo {
        self.server_state.server
    }

    /// Our own input-muted state, as last sent.
    pub closed spec fn own_muted(&self) -> Option<bool> {
        self.self_input_muted
    }

    /// A fresh, disconnected session.
    pub fn new() -> (s: Session)
        ensures
            s.conn_state() == ConnectionState::Disconnected,
            s.users() == Map::<u16, User>::empty(),
            s.channels() == Map::<u64, Channel>::empty(),
            s.stream_entries() == Seq::<crate::streams::Stream>::empty(),
            s.own_id() is None,
            s.own_channel() is None,
            s.talking() == Seq::<(u16, u64)>::empty(),
            s.downloads() == Seq::<(u16, (u64, Seq<char>))>::empty(),
            s.uploads() == Seq::<(u16, (u64, Seq<char>, Seq<u8>))>::empty(),
            s.file_list() is None,
            s.perm_overview() is None,
            s.own_muted() is None,
    {
        let s = Session {
            state: ConnectionState::Disconnected,
            server_state: ServerState {
                server: crate::state::ServerInfo {
                    uid: String::new(),
                    name: String::new(),
                    welcome_message: None,
                    platform: String::new(),
                    version: String::new(),
                    max_clients: 0,
                    clients_online: 0,
                    channels_online: 0,
                    uptime: 0,
                    icon_id: 0,
                    host_banner_url: None,
                    host_banner_gfx_url: None,
                },
                channels: HashMap::new(),
                users: HashMap::new(),
                server_groups: HashMap::new(),
                channel_groups: HashMap::new(),
            },
            streams: StreamRegistry::new(),
            client_id: None,
            channel_id: None,
            talking: Vec::new(),
            pending_downloads: Vec::new(),
            pending_uploads: Vec::new(),
            self_input_muted: None,
            pending_file_list: None,
            pending_perm_overview: None,
        };
        assert(s.downloads() =~= Seq::<(u16, (u64, Seq<char>))>::empty());
        assert(s.uploads() =~= Seq::<(u16, (u64, Seq<char>, Seq<u8>))>::empty());
        s
    }

    fn store_channel(&mut self, channel: Channel) -> (stored: Channel)
        ensures
            stored == with_known_hints(old(self).channels(), channel),
            final(self).channels() == old(self).channels().insert(channel.id, stored),
            final(self).users() == old(self).users(),
            final(self).conn_state() == old(self).conn_state(),
            final(self).stream_entries() == old(self).stream_entries(),
    {
        let mut channel = channel;
        if channel.permission_hints == 0 {
            match self.server_state.channels.get(&channel.id) {
                Some(existing) => {
                    channel.permission_hints = existing.permission_hints;
                },
                None => {},
            }
        }
        let copy = copy_channel(&channel);
        self.server_state.channels.insert(channel.id, channel);
        copy
    }

    /// Process a book event and return any high-level event to emit.
    pub fn book_event(&mut self, event: BookEvent) -> (r: Option<Event>)
        ensures
            final(self).conn_state() == old(self).conn_state(),
            final(self).stream_entries() == old(self).stream_entries(),
            ({
                let users = old(self).users();
                let channels = old(self).channels();
                let users2 = final(self).users();
                let channels2 = final(self).channels();
                match event {
                    BookEvent::Added { id: PropertyRef::Client(_), client: Some(u), .. } => {
                        &&& users2 == users.insert(u.id, u)
                        &&& channels2 == channels
                        &&& r matches Some(Event::UserJoined { user }) && same_user(user, u)
                    },
                    BookEvent::Added { id: PropertyRef::Channel(_), channel: Some(c), .. } => {
                        &&& users2 == users
                        &&& channels2 == channels.insert(c.id, with_known_hints(channels, c))
                        &&& r == Some(Event::ChannelCreated { channel: with_known_hints(channels, c) })
                    },
                    BookEvent::Changed { id: PropertyRef::ClientChannel(_), client: Some(u), .. } => {
                        &&& users2 == users.insert(u.id, u)
                        &&& channels2 == channels
                        &&& if known_channel(users, u.id) != u.channel_id {
                            r matches Some(Event::UserMoved { user, from_channel, to_channel })
                                && same_user(user, u) && from_channel == known_channel(users, u.id)
                                && to_channel == u.channel_id
                        } else {
                            r is None
                        }
                    },
                    BookEvent::Changed { id: PropertyRef::ClientDetail(_), client: Some(u), .. } => {
                        &&& users2 == users.insert(u.id, u)
                        &&& channels2 == channels
                        &&& r matches Some(Event::UserUpdated { user }) && same_user(user, u)
                    },
                    BookEvent::Changed { id: PropertyRef::ChannelDetail(_), channel: Some(c), .. } => {
                        &&& users2 == users
                        &&& channels2 == channels.insert(c.id, with_known_hints(channels, c))
                        &&& r == Some(Event::ChannelEdited { channel: with_known_hints(channels, c) })
                    },
                    BookEvent::Removed { id: PropertyRef::Client(id) } => {
                        &&& users2 == users.remove(id)
                        &&& channels2 == channels
                        &&& if users.contains_key(id) {
                            r matches Some(Event::UserLeft { user, reason }) && user == users[id]
                                && reason@ == "Disconnected"@
                        } else {
                            r is None
                        }
                    },
                    BookEvent::Removed { id: PropertyRef::Channel(id) } => {
                        &&& users2 == users
                        &&& channels2 == channels.remove(id)
                        &&& if channels.contains_key(id) {
                            r == Some(Event::ChannelDeleted { channel_id: id })
                        } else {
                            r is None
                        }
                    },
                    BookEvent::Message { target, invoker_id, invoker_name, message } => {
                        &&& users2 == users
                        &&& channels2 == channels
                        &&& match target {
                            ChatTarget::Poke(_) => r == Some(
                                Event::Poked {
                                    poker_id: invoker_id,
                                    poker_name: invoker_name,
                                    message,
                                },
                            ),
                            _ => r == Some(
                                Event::TextMessage {
                                    sender_id: invoker_id,
                                    sender_name: invoker_name,
                                    message,
                                    target: chat_target(target),
                                },
                            ),
                        }
                    },
                    _ => {
                        &&& users2 == users
                        &&& channels2 == channels
                        &&& r is None
                    },
                }
            }),
    {
        match event {
            BookEvent::Added { id, client, channel } => {
                match id {
                    PropertyRef::Client(_) => {
                        match client {
                            Some(u) => {
                                let copy = copy_user(&u);
                                self.server_state.users.insert(u.id, u);
                                Some(Event::UserJoined { user: copy })
                            },
                            None => None,
                        }
                    },
                    PropertyRef::Channel(_) => {
                        match channel {
                            Some(c) => {
                                let stored = self.store_channel(c);
                                Some(Event::ChannelCreated { channel: stored })
                            },
                            None => None,
                        }
                    },
                    _ => None,
                }
            },
            BookEvent::Changed { id, client, channel } => {
                match id {
                    PropertyRef::ClientChannel(_) => {
                        match client {
                            Some(u) => {
                                let from_channel = match self.server_state.users.get(&u.id) {
                                    Some(known) => known.channel_id,
                                    None => 0,
                                };
                                let to_channel = u.channel_id;
                                let copy = copy_user(&u);
                                self.server_state.users.insert(u.id, u);
                                if from_channel != to_channel {
                                    Some(Event::UserMoved { user: copy, from_channel, to_channel })
                                } else {
                                    None
                                }
                            },
                            None => None,
                        }
                    },
                    PropertyRef::ClientDetail(_) => {
                        match client {
                            Some(u) => {
                                let copy = copy_user(&u);
                                self.server_state.users.insert(u.id, u);
                                Some(Event::UserUpdated { user: copy })
                            },
                            None => None,
                        }
                    },
                    PropertyRef::ChannelDetail(_) => {
                        match channel {
                            Some(c) => {
                                let stored = self.store_channel(c);
                                Some(Event::ChannelEdited { channel: stored })
                            },
                            None => None,
                        }
                    },
                    _ => None,
                }
            },
            BookEvent::Removed { id } => {
                match id {
                    PropertyRef::Client(cid) => {
                        match self.server_state.users.remove(&cid) {
                            Some(user) => Some(
                                Event::UserLeft { user, reason: string_of(&chars_of("Disconnected")) },
                            ),
                            None => None,
                        }
                    },
                    PropertyRef::Channel(chid) => {
                        match self.server_state.channels.remove(&chid) {
                            Some(_) => Some(Event::ChannelDeleted { channel_id: chid }),
                            None => None,
                        }
                    },
                    _ => None,
                }
            },
            BookEvent::Message { target, invoker_id, invoker_name, message } => {
                match target {
                    ChatTarget::Poke(_) => Some(
                        Event::Poked { poker_id: invoker_id, poker_name: invoker_name, message },
                    ),
                    _ => {
                        let t = match target {
                            ChatTarget::Server => MessageTarget::Server,
                            ChatTarget::Channel => MessageTarget::Channel,
                            _ => MessageTarget::Private,
                        };
                        Some(
                            Event::TextMessage {
                                sender_id: invoker_id,
                                sender_name: invoker_name,
                                message,
                                target: t,
                            },
                        )
                    },
                }
            },
        }
    }

    /// The streams-changed event for the current streams.
    fn streams_changed(&self) -> (e: Event)
        ensures
            e matches Event::StreamsChanged { streams } && streams@ == sort_streams(
                self.stream_entries(),
            ),
    {
        Event::StreamsChanged { streams: self.streams.list() }
    }

    /// When a client leaves, its streams go; the streams-changed event if there were any.
    pub fn owner_left(&mut self, event: &BookEvent) -> (r: Option<Event>)
        ensures
            final(self).conn_state() == old(self).conn_state(),
            final(self).users() == old(self).users(),
            final(self).channels() == old(self).channels(),
            match *event {
                BookEvent::Removed { id: PropertyRef::Client(id) } => {
                    &&& final(self).stream_entries() == without_owner(old(self).stream_entries(), id)
                    &&& if final(self).stream_entries().len() != old(self).stream_entries().len() {
                        r matches Some(Event::StreamsChanged { streams }) && streams@
                            == sort_streams(final(self).stream_entries())
                    } else {
                        r is None
                    }
                },
                _ => final(self).stream_entries() == old(self).stream_entries() && r is None,
            },
    {
        match event {
            BookEvent::Removed { id: PropertyRef::Client(id) } => {
                if self.streams.remove_owner(*id) {
                    Some(self.streams_changed())
                } else {
                    None
                }
            },
            _ => None,
        }
    }

    /// A batch of book events arrived: a reconnecting session is connected again.
    pub fn book_events_arrived(&mut self)
        ensures
            final(self).conn_state() == if old(self).conn_state() == ConnectionState::Reconnecting {
                ConnectionState::Connected
            } else {
                old(self).conn_state()
            },
            final(self).users() == old(self).users(),
            final(self).channels() == old(self).channels(),
            final(self).stream_entries() == old(self).stream_entries(),
    {
        if self.state == ConnectionState::Reconnecting {
            self.state = ConnectionState::Connected;
        }
    }

    /// Audio arrived from a user at `now_ms`: a talk-start event if the user was not counted
    /// as talking, then the audio event.
    pub fn audio_received(&mut self, from: u16, codec: AudioCodec, data: Vec<u8>, now_ms: u64) -> (r:
        Vec<Event>)
        ensures
            final(self).talking() == put_transfer(old(self).talking(), from, now_ms),
            final(self).conn_state() == old(self).conn_state(),
            final(self).users() == old(self).users(),
            final(self).channels() == old(self).channels(),
            final(self).stream_entries() == old(self).stream_entries(),
            r@ == if transfer_index(old(self).talking(), from) is Some {
                seq![Event::AudioReceived { user_id: from, codec, data }]
            } else {
                seq![
                    Event::TalkStatusStart { user_id: from },
                    Event::AudioReceived { user_id: from, codec, data },
                ]
            },
    {
        let mut events: Vec<Event> = Vec::new();
        let mut i: usize = 0;
        let mut found = false;
        while i < self.talking.len()
            invariant_except_break
                i <= self.talking.len(),
                !found,
                forall|j: int| 0 <= j < i ==> #[trigger] self.talking@[j].0 != from,
            invariant
                self.talking@ == old(self).talking@,
            ensures
                found ==> i < self.talking.len() && self.talking@[i as int].0 == from && forall|
                    j: int,
                | 0 <= j < i ==> #[trigger] self.talking@[j].0 != from,
                !found ==> forall|j: int|
                    0 <= j < self.talking.len() ==> #[trigger] self.talking@[j].0 != from,
            decreases self.talking.len() - i,
        {
            if self.talking[i].0 == from {
                found = true;
                break ;
            }
            i += 1;
        }
        if found {
            proof {
                lemma_transfer_at(self.talking@, from, i as int);
            }
            self.talking.set(i, (from, now_ms));
        } else {
            proof {
                lemma_transfer_none(self.talking@, from);
            }
            self.talking.push((from, now_ms));
            events.push(Event::TalkStatusStart { user_id: from });
        }
        events.push(Event::AudioReceived { user_id: from, codec, data });
        events
    }

    /// The connection dropped for a while: streams are forgotten (an event if there were
    /// any), the session is reconnecting, and the connection-lost event follows.
    pub fn disconnected_temporarily(&mut self) -> (r: Vec<Event>)
        ensures
            final(self).conn_state() == ConnectionState::Reconnecting,
            final(self).stream_entries() == Seq::<crate::streams::Stream>::empty(),
            final(self).users() == old(self).users(),
            final(self).channels() == old(self).channels(),
            r@.len() == if old(self).stream_entries().len() > 0 { 2int } else { 1int },
            old(self).stream_entries().len() > 0 ==> (r@[0] matches Event::StreamsChanged { streams }
                && streams@.len() == 0),
            r@.last() matches Event::ConnectionLost { reason } && reason@ == "Temporary disconnect"@,
    {
        let mut events: Vec<Event> = Vec::new();
        if self.streams.clear() {
            events.push(self.streams_changed());
        }
        self.state = ConnectionState::Reconnecting;
        events.push(Event::ConnectionLost { reason: string_of(&chars_of("Temporary disconnect")) });
        events
    }

    /// The event stream ended: streams are forgotten (an event if there were any), the
    /// session is disconnected, and the disconnected event follows.
    pub fn connection_closed(&mut self) -> (r: Vec<Event>)
        ensures
            final(self).conn_state() == ConnectionState::Disconnected,
            final(self).stream_entries() == Seq::<crate::streams::Stream>::empty(),
            final(self).users() == old(self).users(),
            final(self).channels() == old(self).channels(),
            r@.len() == if old(self).stream_entries().len() > 0 { 2int } else { 1int },
            old(self).stream_entries().len() > 0 ==> (r@[0] matches Event::StreamsChanged { streams }
                && streams@.len() == 0),
            r@.last() matches Event::Disconnected { reason } && reason@ == "Connection closed"@,
    {
        let mut events: Vec<Event> = Vec::new();
        if self.streams.clear() {
            events.push(self.streams_changed());
        }
        self.state = ConnectionState::Disconnected;
        events.push(Event::Disconnected { reason: string_of(&chars_of("Connection closed")) });
        events
    }

    /// We disconnect on purpose: the session is disconnected, streams are forgotten (an
    /// event if there were any), and the disconnected event follows.
    pub fn disconnect_requested(&mut self) -> (r: Vec<Event>)
        ensures
            final(self).conn_state() == ConnectionState::Disconnected,
            final(self).stream_entries() == Seq::<crate::streams::Stream>::empty(),
            final(self).users() == old(self).users(),
            final(self).channels() == old(self).channels(),
            r@.len() == if old(self).stream_entries().len() > 0 { 2int } else { 1int },
            old(self).stream_entries().len() > 0 ==> (r@[0] matches Event::StreamsChanged { streams }
                && streams@.len() == 0),
            r@.last() matches Event::Disconnected { reason } && reason@ == "User requested"@,
    {
        self.state = ConnectionState::Disconnected;
        let mut events: Vec<Event> = Vec::new();
        if self.streams.clear() {
            events.push(self.streams_changed());
        }
        events.push(Event::Disconnected { reason: string_of(&chars_of("User requested")) });
        events
    }

    /// Users whose last audio is more than the talk timeout before `now_ms` stop counting as
    /// talking; a talk-stop event for each, in the order they were tracked.
    pub fn talk_timeouts(&mut self, now_ms: u64) -> (r: Vec<Event>)
        ensures
            final(self).talking() == still_talking(old(self).talking(), now_ms),
            r@ == stop_events(old(self).talking(), now_ms),
            final(self).conn_state() == old(self).conn_state(),
            final(self).users() == old(self).users(),
            final(self).channels() == old(self).channels(),
            final(self).stream_entries() == old(self).stream_entries(),
    {
        let ghost t = self.talking@;
        let mut kept: Vec<(u16, u64)> = Vec::new();
        let mut events: Vec<Event> = Vec::new();
        let mut i: usize = 0;
        assert(t.take(0) =~= Seq::<(u16, u64)>::empty());
        while i < self.talking.len()
            invariant
                i <= self.talking.len(),
                t == self.talking@,
                kept@ == still_talking(t.take(i as int), now_ms),
                events@ == stop_events(t.take(i as int), now_ms),
            decreases self.talking.len() - i,
        {
            assert(t.take(i + 1).drop_last() =~= t.take(i as int));
            assert(t.take(i + 1).last() == t[i as int]);
            let (user_id, last) = self.talking[i];
            let elapsed: u64 = if now_ms >= last {
                now_ms - last
            } else {
                0
            };
            if elapsed > TALK_TIMEOUT_MS {
                events.push(Event::TalkStatusStop { user_id });
            } else {
                kept.push((user_id, last));
            }
            i += 1;
        }
        assert(t.take(self.talking.len() as int) =~= t);
        self.talking = kept;
        events
    }

    /// A download was started under a transfer handle.
    pub fn register_download(&mut self, handle: u16, channel_id: u64, path: String)
        ensures
            final(self).downloads() == put_transfer(old(self).downloads(), handle, (channel_id, path@)),
            final(self).uploads() == old(self).uploads(),
    {
        let mut i: usize = 0;
        while i < self.pending_downloads.len()
            invariant
                i <= self.pending_downloads.len(),
                self.pending_downloads@ == old(self).pending_downloads@,
                self.pending_uploads@ == old(self).pending_uploads@,
                forall|j: int| 0 <= j < i ==> #[trigger] self.downloads()[j].0 != handle,
            decreases self.pending_downloads.len() - i,
        {
            if self.pending_downloads[i].0 == handle {
                proof {
                    lemma_transfer_at(self.downloads(), handle, i as int);
                }
                self.pending_downloads.set(i, (handle, channel_id, path));
                assert(self.downloads() =~= put_transfer(old(self).downloads(), handle, (channel_id, path@)));
                return ;
            }
            i += 1;
        }
        proof {
            lemma_transfer_none(self.downloads(), handle);
        }
        self.pending_downloads.push((handle, channel_id, path));
        assert(self.downloads() =~= put_transfer(old(self).downloads(), handle, (channel_id, path@)));
    }

    /// A download's data is ready: its channel and path, forgotten here (0 and an empty path
    /// for an unknown handle).
    pub fn take_download(&mut self, handle: u16) -> (r: (u64, String))
        ensures
            match transfer_index(old(self).downloads(), handle) {
                Some(i) => {
                    &&& (r.0, r.1@) == old(self).downloads()[i].1
                    &&& final(self).downloads() == old(self).downloads().remove(i)
                },
                None => {
                    &&& r.0 == 0 && r.1@ == Seq::<char>::empty()
                    &&& final(self).downloads() == old(self).downloads()
                },
            },
            final(self).uploads() == old(self).uploads(),
    {
        let mut i: usize = 0;
        while i < self.pending_downloads.len()
            invariant
                i <= self.pending_downloads.len(),
                self.pending_downloads@ == old(self).pending_downloads@,
                self.pending_uploads@ == old(self).pending_uploads@,
                forall|j: int| 0 <= j < i ==> #[trigger] self.downloads()[j].0 != handle,
            decreases self.pending_downloads.len() - i,
        {
            if self.pending_downloads[i].0 == handle {
                proof {
                    lemma_transfer_at(self.downloads(), handle, i as int);
                }
                let (_, channel_id, path) = self.pending_downloads.remove(i);
                assert(self.downloads() =~= old(self).downloads().remove(i as int));
                return (channel_id, path);
            }
            i += 1;
        }
        proof {
            lemma_transfer_none(self.downloads(), handle);
        }
        (0, String::new())
    }

    /// An upload was started under a transfer handle.
    pub fn register_upload(&mut self, handle: u16, channel_id: u64, path: String, data: Vec<u8>)
        ensures
            final(self).uploads() == put_transfer(
                old(self).uploads(),
                handle,
                (channel_id, path@, data@),
            ),
            final(self).downloads() == old(self).downloads(),
    {
        let mut i: usize = 0;
        while i < self.pending_uploads.len()
            invariant
                i <= self.pending_uploads.len(),
                self.pending_downloads@ == old(self).pending_downloads@,
                self.pending_uploads@ == old(self).pending_uploads@,
                forall|j: int| 0 <= j < i ==> #[trigger] self.uploads()[j].0 != handle,
            decreases self.pending_uploads.len() - i,
        {
            if self.pending_uploads[i].0 == handle {
                proof {
                    lemma_transfer_at(self.uploads(), handle, i as int);
                }
                self.pending_uploads.set(i, (handle, channel_id, path, data));
                assert(self.uploads() =~= put_transfer(
                    old(self).uploads(),
                    handle,
                    (channel_id, path@, data@),
                ));
                return ;
            }
            i += 1;
        }
        proof {
            lemma_transfer_none(self.uploads(), handle);
        }
        self.pending_uploads.push((handle, channel_id, path, data));
        assert(self.uploads() =~= put_transfer(old(self).uploads(), handle, (channel_id, path@, data@)));
    }

    /// An upload may proceed: its channel, path and data, forgotten here; `None` for an
    /// unknown handle.
    pub fn take_upload(&mut self, handle: u16) -> (r: Option<(u64, String, Vec<u8>)>)
        ensures
            match transfer_index(old(self).uploads(), handle) {
                Some(i) => {
                    &&& r matches Some((c, p, d)) && (c, p@, d@) == old(self).uploads()[i].1
                    &&& final(self).uploads() == old(self).uploads().remove(i)
                },
                None => r is None && final(self).uploads() == old(self).uploads(),
            },
            final(self).downloads() == old(self).downloads(),
    {
        let mut i: usize = 0;
        while i < self.pending_uploads.len()
            invariant
                i <= self.pending_uploads.len(),
                self.pending_downloads@ == old(self).pending_downloads@,
                self.pending_uploads@ == old(self).pending_uploads@,
                forall|j: int| 0 <= j < i ==> #[trigger] self.uploads()[j].0 != handle,
            decreases self.pending_uploads.len() - i,
        {
            if self.pending_uploads[i].0 == handle {
                proof {
                    lemma_transfer_at(self.uploads(), handle, i as int);
                }
                let (_, channel_id, path, data) = self.pending_uploads.remove(i);
                assert(self.uploads() =~= old(self).uploads().remove(i as int));
                return Some((channel_id, path, data));
            }
            i += 1;
        }
        proof {
            lemma_transfer_none(self.uploads(), handle);
        }
        None
    }

    /// A transfer failed: it is forgotten (a download first, else an upload) and the failure
    /// event names its path (empty for an unknown handle).
    pub fn transfer_failed(&mut self, handle: u16, error: String) -> (r: Event)
        ensures
            match transfer_index(old(self).downloads(), handle) {
                Some(i) => {
                    &&& final(self).downloads() == old(self).downloads().remove(i)
                    &&& final(self).uploads() == old(self).uploads()
                    &&& r matches Event::FileTransferFailed { path, error: e } && path@
                        == old(self).downloads()[i].1.1 && e == error
                },
                None => match transfer_index(old(self).uploads(), handle) {
                    Some(i) => {
                        &&& final(self).downloads() == old(self).downloads()
                        &&& final(self).uploads() == old(self).uploads().remove(i)
                        &&& r matches Event::FileTransferFailed { path, error: e } && path@
                            == old(self).uploads()[i].1.1 && e == error
                    },
                    None => {
                        &&& final(self).downloads() == old(self).downloads()
                        &&& final(self).uploads() == old(self).uploads()
                        &&& r matches Event::FileTransferFailed { path, error: e } && path@
                            == Seq::<char>::empty() && e == error
                    },
                },
            },
    {
        let mut i: usize = 0;
        while i < self.pending_downloads.len()
            invariant
                i <= self.pending_downloads.len(),
                self.pending_downloads@ == old(self).pending_downloads@,
                self.pending_uploads@ == old(self).pending_uploads@,
                forall|j: int| 0 <= j < i ==> #[trigger] self.downloads()[j].0 != handle,
            decreases self.pending_downloads.len() - i,
        {
            if self.pending_downloads[i].0 == handle {
                proof {
                    lemma_transfer_at(self.downloads(), handle, i as int);
                }
                let (_, _, path) = self.pending_downloads.remove(i);
                assert(self.downloads() =~= old(self).downloads().remove(i as int));
                return Event::FileTransferFailed { path, error };
            }
            i += 1;
        }
        proof {
            lemma_transfer_none(self.downloads(), handle);
        }
        match self.take_upload(handle) {
            Some((_, path, _)) => Event::FileTransferFailed { path, error },
            None => Event::FileTransferFailed { path: String::new(), error },
        }
    }

    /// A file list was requested: entries will collect until it ends.
    pub fn file_list_requested(&mut self, channel_id: u64, path: String)
        ensures
            final(self).file_list() == Some((channel_id, path@, Seq::<FileEntry>::empty())),
            final(self).perm_overview() == old(self).perm_overview(),
            final(self).channels() == old(self).channels(),
    {
        self.pending_file_list = Some((channel_id, path, Vec::new()));
    }

    /// A permission overview was requested: values will collect for the channel.
    pub fn perm_overview_requested(&mut self, channel_id: u64)
        ensures
            final(self).perm_overview() == Some((channel_id, Map::<u32, i32>::empty())),
            final(self).file_list() == old(self).file_list(),
            final(self).channels() == old(self).channels(),
    {
        self.pending_perm_overview = Some((channel_id, HashMap::new()));
    }

    fn set_channel_hints(&mut self, channel_id: u64, hints: u64)
        ensures
            final(self).channels() == with_hints(old(self).channels(), channel_id, hints),
            final(self).users() == old(self).users(),
            final(self).conn_state() == old(self).conn_state(),
            final(self).stream_entries() == old(self).stream_entries(),
            final(self).file_list() == old(self).file_list(),
            final(self).perm_overview() == old(self).perm_overview(),
    {
        match self.server_state.channels.remove(&channel_id) {
            Some(ch) => {
                let mut ch = ch;
                ch.permission_hints = hints;
                self.server_state.channels.insert(channel_id, ch);
                assert(self.channels() =~= with_hints(old(self).channels(), channel_id, hints));
            },
            None => {
                assert(self.channels() =~= old(self).channels());
            },
        }
    }

    fn stream_message(&mut self, notice: StreamNotice) -> (r: (Vec<Event>, bool))
        ensures
            final(self).users() == old(self).users(),
            final(self).channels() == old(self).channels(),
            final(self).conn_state() == old(self).conn_state(),
            final(self).file_list() == old(self).file_list(),
            final(self).perm_overview() == old(self).perm_overview(),
            if old(self).conn_state() == ConnectionState::Connected {
                let (es, changed) = apply_notice(old(self).stream_entries(), notice);
                &&& final(self).stream_entries() == es
                &&& r.1 == changed
                &&& if changed {
                    r.0@.len() == 1 && (r.0@[0] matches Event::StreamsChanged { streams }
                        && streams@ == sort_streams(es))
                } else {
                    r.0@.len() == 0
                }
            } else {
                final(self).stream_entries() == old(self).stream_entries() && r.0@.len() == 0
                    && !r.1
            },
    {
        let mut events: Vec<Event> = Vec::new();
        if self.state == ConnectionState::Connected && self.streams.apply(&notice) {
            events.push(self.streams_changed());
            (events, true)
        } else {
            (events, false)
        }
    }

    fn perm_overview_message(&mut self, parts: Vec<PermPart>) -> (r: (Vec<Event>, bool))
        ensures
            final(self).users() == old(self).users(),
            final(self).conn_state() == old(self).conn_state(),
            final(self).stream_entries() == old(self).stream_entries(),
            final(self).file_list() == old(self).file_list(),
            match old(self).perm_overview() {
                Some((c, m)) => {
                    let hints = permission_hints(merge_perms(m, parts@));
                    &&& final(self).perm_overview() is None
                    &&& final(self).channels() == with_hints(old(self).channels(), c, hints)
                    &&& r.0@ == seq![Event::ChannelPermissionsUpdated { channel_id: c, permission_hints: hints }]
                    &&& r.1
                },
                None => {
                    &&& final(self).perm_overview() is None
                    &&& final(self).channels() == old(self).channels()
                    &&& r.0@.len() == 0 && !r.1
                },
            },
    {
        let mut events: Vec<Event> = Vec::new();
        match self.pending_perm_overview.take() {
            Some((channel_id, perms)) => {
                let mut perms = perms;
                let ghost m0 = perms@;
                let mut i: usize = 0;
                assert(parts@.take(0) =~= Seq::<PermPart>::empty());
                while i < parts.len()
                    invariant
                        i <= parts.len(),
                        perms@ == merge_perms(m0, parts@.take(i as int)),
                    decreases parts.len() - i,
                {
                    let id = parts[i].permission_id;
                    let value = parts[i].permission_value;
                    let cur: i32 = match perms.get(&id) {
                        Some(v) => *v,
                        None => 0,
                    };
                    let next = if cur != -1 && (value == -1 || value > cur) {
                        value
                    } else {
                        cur
                    };
                    perms.insert(id, next);
                    assert(parts@.take(i + 1).drop_last() =~= parts@.take(i as int));
                    assert(parts@.take(i + 1).last() == parts@[i as int]);
                    i += 1;
                }
                assert(parts@.take(parts.len() as int) =~= parts@);
                let hints = compute_file_permission_hints(&perms);
                self.set_channel_hints(channel_id, hints);
                events.push(Event::ChannelPermissionsUpdated { channel_id, permission_hints: hints });
                (events, true)
            },
            None => (events, false),
        }
    }

    fn command_error_message(&mut self, parts: Vec<ErrorPart>) -> (r: (Vec<Event>, bool))
        ensures
            final(self).users() == old(self).users(),
            final(self).conn_state() == old(self).conn_state(),
            final(self).stream_entries() == old(self).stream_entries(),
            ({
                let empty_dir = old(self).file_list() is Some && has_error_id(
                    parts@,
                    ERROR_DATABASE_EMPTY_RESULT,
                );
                let denied = old(self).perm_overview() is Some && has_failure(parts@);
                if empty_dir {
                    let (c, p, es) = old(self).file_list().unwrap();
                    &&& final(self).file_list() is None
                    &&& final(self).perm_overview() == old(self).perm_overview()
                    &&& final(self).channels() == old(self).channels()
                    &&& r.1 && r.0@.len() == 1
                    &&& r.0@[0] matches Event::FileListReceived { channel_id, path, files }
                        && channel_id == c && path@ == p && files@ == es
                } else if denied {
                    let c = old(self).perm_overview().unwrap().0;
                    &&& final(self).file_list() == old(self).file_list()
                    &&& final(self).perm_overview() is None
                    &&& final(self).channels() == with_hints(old(self).channels(), c, DEFAULT_HINTS)
                    &&& r.0@ == seq![Event::ChannelPermissionsUpdated { channel_id: c, permission_hints: DEFAULT_HINTS }]
                    &&& r.1
                } else {
                    &&& final(self).file_list() == old(self).file_list()
                    &&& final(self).perm_overview() == old(self).perm_overview()
                    &&& final(self).channels() == old(self).channels()
                    &&& r.0@ == error_events(parts@)
                    &&& !r.1
                }
            }),
    {
        let mut events: Vec<Event> = Vec::new();
        if self.pending_file_list.is_some() && any_error_id(&parts, ERROR_DATABASE_EMPTY_RESULT) {
            match self.pending_file_list.take() {
                Some((channel_id, path, files)) => {
                    events.push(Event::FileListReceived { channel_id, path, files });
                    return (events, true);
                },
                None => {},
            }
        }
        if self.pending_perm_overview.is_some() && any_failure(&parts) {
            match self.pending_perm_overview.take() {
                Some((channel_id, _)) => {
                    self.set_channel_hints(channel_id, DEFAULT_HINTS);
                    events.push(
                        Event::ChannelPermissionsUpdated { channel_id, permission_hints: DEFAULT_HINTS },
                    );
                    return (events, true);
                },
                None => {},
            }
        }
        let mut i: usize = 0;
        assert(parts@.take(0) =~= Seq::<ErrorPart>::empty());
        while i < parts.len()
            invariant
                i <= parts.len(),
                events@ == error_events(parts@.take(i as int)),
            decreases parts.len() - i,
        {
            assert(parts@.take(i + 1).drop_last() =~= parts@.take(i as int));
            assert(parts@.take(i + 1).last() == parts@[i as int]);
            if parts[i].id != 0 {
                events.push(Event::CommandError { error_id: parts[i].id, message: parts[i].message.clone() });
            }
            i += 1;
        }
        assert(parts@.take(parts.len() as int) =~= parts@);
        (events, false)
    }

    /// Process a protocol message outside the state book: the events to announce, in order,
    /// and whether the last of them is also this message's result.
    pub fn message_event(&mut self, msg: ServerMessage) -> (r: (Vec<Event>, bool))
        ensures
            final(self).users() == old(self).users(),
            final(self).conn_state() == old(self).conn_state(),
            r.1 ==> r.0@.len() > 0,
            match msg {
                ServerMessage::Streams(n) => {
                    &&& final(self).channels() == old(self).channels()
                    &&& if old(self).conn_state() == ConnectionState::Connected {
                        let (es, changed) = apply_notice(old(self).stream_entries(), n);
                        &&& final(self).stream_entries() == es
                        &&& r.1 == changed
                        &&& if changed {
                            r.0@.len() == 1 && (r.0@[0] matches Event::StreamsChanged { streams }
                                && streams@ == sort_streams(es))
                        } else {
                            r.0@.len() == 0
                        }
                    } else {
                        final(self).stream_entries() == old(self).stream_entries() && r.0@.len()
                            == 0 && !r.1
                    }
                },
                ServerMessage::JoinStreamResponse(parts) => {
                    &&& final(self).channels() == old(self).channels()
                    &&& final(self).stream_entries() == old(self).stream_entries()
                    &&& r.0@ == join_events(parts@)
                    &&& r.1 == (parts@.len() > 0)
                },
                ServerMessage::JoinStreamRequest(parts) => {
                    &&& final(self).channels() == old(self).channels()
                    &&& final(self).stream_entries() == old(self).stream_entries()
                    &&& r.0@ == join_request_events(parts@)
                    &&& r.1 == (parts@.len() > 0)
                },
                ServerMessage::StreamSignaling(parts) => {
                    &&& final(self).channels() == old(self).channels()
                    &&& final(self).stream_entries() == old(self).stream_entries()
                    &&& r.0@ == signaling_events(parts@)
                    &&& r.1 == (parts@.len() > 0)
                },
                ServerMessage::FileList(entries) => {
                    &&& final(self).channels() == old(self).channels()
                    &&& final(self).stream_entries() == old(self).stream_entries()
                    &&& final(self).file_list() == match old(self).file_list() {
                        Some((c, p, es)) => Some((c, p, es + entries@)),
                        None => None,
                    }
                    &&& r.0@.len() == 0 && !r.1
                },
                ServerMessage::FileListFinished => {
                    &&& final(self).channels() == old(self).channels()
                    &&& final(self).stream_entries() == old(self).stream_entries()
                    &&& final(self).file_list() is None
                    &&& match old(self).file_list() {
                        Some((c, p, es)) => r.1 && r.0@.len() == 1 && (r.0@[0] matches Event::FileListReceived {
                            channel_id,
                            path,
                            files,
                        } && channel_id == c && path@ == p && files@ == es),
                        None => r.0@.len() == 0 && !r.1,
                    }
                },
                ServerMessage::PermOverview(parts) => {
                    &&& final(self).stream_entries() == old(self).stream_entries()
                    &&& final(self).file_list() == old(self).file_list()
                    &&& final(self).perm_overview() is None
                    &&& match old(self).perm_overview() {
                        Some((c, m)) => {
                            let hints = permission_hints(merge_perms(m, parts@));
                            &&& final(self).channels() == with_hints(old(self).channels(), c, hints)
                            &&& r.0@ == seq![Event::ChannelPermissionsUpdated { channel_id: c, permission_hints: hints }]
                            &&& r.1
                        },
                        None => final(self).channels() == old(self).channels() && r.0@.len() == 0
                            && !r.1,
                    }
                },
                ServerMessage::CommandError(parts) => {
                    let empty_dir = old(self).file_list() is Some && has_error_id(
                        parts@,
                        ERROR_DATABASE_EMPTY_RESULT,
                    );
                    let denied = old(self).perm_overview() is Some && has_failure(parts@);
                    &&& final(self).stream_entries() == old(self).stream_entries()
                    &&& if empty_dir {
                        let (c, p, es) = old(self).file_list().unwrap();
                        &&& final(self).file_list() is None
                        &&& final(self).perm_overview() == old(self).perm_overview()
                        &&& final(self).channels() == old(self).channels()
                        &&& r.1 && r.0@.len() == 1
                        &&& r.0@[0] matches Event::FileListReceived { channel_id, path, files }
                            && channel_id == c && path@ == p && files@ == es
                    } else if denied {
                        let c = old(self).perm_overview().unwrap().0;
                        &&& final(self).file_list() == old(self).file_list()
                        &&& final(self).perm_overview() is None
                        &&& final(self).channels() == with_hints(old(self).channels(), c, DEFAULT_HINTS)
                        &&& r.0@ == seq![Event::ChannelPermissionsUpdated { channel_id: c, permission_hints: DEFAULT_HINTS }]
                        &&& r.1
                    } else {
                        &&& final(self).file_list() == old(self).file_list()
                        &&& final(self).perm_overview() == old(self).perm_overview()
                        &&& final(self).channels() == old(self).channels()
                        &&& r.0@ == error_events(parts@)
                        &&& !r.1
                    }
                },
                ServerMessage::Other => {
                    &&& final(self).channels() == old(self).channels()
                    &&& final(self).stream_entries() == old(self).stream_entries()
                    &&& final(self).file_list() == old(self).file_list()
                    &&& final(self).perm_overview() == old(self).perm_overview()
                    &&& r.0@.len() == 0 && !r.1
                },
            },
    {
        match msg {
            ServerMessage::Streams(n) => self.stream_message(n),
            ServerMessage::JoinStreamResponse(parts) => {
                let mut events: Vec<Event> = Vec::new();
                let ghost ps = parts@;
                for part in it: parts.into_iter()
                    invariant
                        it.seq() == ps,
                        events@ == join_events(ps.take(it.index() as int)),
                {
                    proof {
                        let i = it.index() as int;
                        assert(join_events(ps.take(i + 1)) =~= join_events(ps.take(i)).push(
                            join_event(ps[i]),
                        ));
                    }
                    events.push(
                        Event::StreamJoinResponse {
                            owner_id: part.client_id,
                            stream_id: part.stream_id,
                            decision: part.decision,
                            message: part.message,
                            offer: part.offer,
                        },
                    );
                }
                assert(ps.take(ps.len() as int) =~= ps);
                let any = events.len() > 0;
                (events, any)
            },
            ServerMessage::JoinStreamRequest(parts) => {
                let mut events: Vec<Event> = Vec::new();
                let ghost ps = parts@;
                for part in it: parts.into_iter()
                    invariant
                        it.seq() == ps,
                        events@ == join_request_events(ps.take(it.index() as int)),
                {
                    proof {
                        let i = it.index() as int;
                        assert(join_request_events(ps.take(i + 1)) =~= join_request_events(
                            ps.take(i),
                        ).push(join_request_event(ps[i])));
                    }
                    events.push(
                        Event::StreamJoinRequest {
                            viewer_id: part.client_id,
                            stream_id: part.stream_id,
                            is_remove: part.is_remove,
                        },
                    );
                }
                assert(ps.take(ps.len() as int) =~= ps);
                let any = events.len() > 0;
                (events, any)
            },
            ServerMessage::StreamSignaling(parts) => {
                let mut events: Vec<Event> = Vec::new();
                let ghost ps = parts@;
                for part in it: parts.into_iter()
                    invariant
                        it.seq() == ps,
                        events@ == signaling_events(ps.take(it.index() as int)),
                {
                    proof {
                        let i = it.index() as int;
                        assert(signaling_events(ps.take(i + 1)) =~= signaling_events(ps.take(i)).push(
                            signaling_event(ps[i]),
                        ));
                    }
                    events.push(
                        Event::StreamSignaling {
                            owner_id: part.client_id,
                            stream_id: part.stream_id,
                            json: part.json,
                        },
                    );
                }
                assert(ps.take(ps.len() as int) =~= ps);
                let any = events.len() > 0;
                (events, any)
            },
            ServerMessage::FileList(entries) => {
                match self.pending_file_list.take() {
                    Some((channel_id, path, files)) => {
                        let mut files = files;
                        let mut entries = entries;
                        files.append(&mut entries);
                        self.pending_file_list = Some((channel_id, path, files));
                    },
                    None => {},
                }
                (Vec::new(), false)
            },
            ServerMessage::FileListFinished => {
                let mut events: Vec<Event> = Vec::new();
                match self.pending_file_list.take() {
                    Some((channel_id, path, files)) => {
                        events.push(Event::FileListReceived { channel_id, path, files });
                        (events, true)
                    },
                    None => (events, false),
                }
            },
            ServerMessage::PermOverview(parts) => self.perm_overview_message(parts),
            ServerMessage::CommandError(parts) => self.command_error_message(parts),
            ServerMessage::Other => (Vec::new(), false),
        }
    }

    /// Get current connection state
    pub fn state(&self) -> (r: ConnectionState)
        ensures
            r == self.conn_state(),
    {
        self.state
    }

    /// Check if connected
    pub fn is_connected(&self) -> (r: bool)
        ensures
            r == (self.conn_state() == ConnectionState::Connected || self.conn_state()
                == ConnectionState::Initializing),
    {
        self.state.is_connected()
    }

    /// Get our client ID
    pub fn client_id(&self) -> (r: Option<u16>)
        ensures
            r == self.own_id(),
    {
        self.client_id
    }

    /// Get our current channel ID
    pub fn channel_id(&self) -> (r: Option<u64>)
        ensures
            r == self.own_channel(),
    {
        self.channel_id
    }

    /// Get a snapshot of the server state
    pub fn server_state(&self) -> (r: &ServerState)
        ensures
            r.users@ == self.users(),
            r.channels@ == self.channels(),
    {
        &self.server_state
    }

    /// Snapshot of advertised streams, sorted by owner ID and stream ID.
    pub fn streams(&self) -> (r: Vec<crate::streams::Stream>)
        ensures
            r@ == sort_streams(self.stream_entries()),
    {
        self.streams.list()
    }

    /// The advertised streams we own, sorted by stream ID; none before the server
    /// has given us a client ID.
    pub fn own_streams(&self) -> (r: Vec<crate::streams::Stream>)
        ensures
            r@ == match self.own_id() {
                Some(id) => sort_streams(self.stream_entries()).filter(owned_by(id)),
                None => Seq::<crate::streams::Stream>::empty(),
            },
    {
        let mut own: Vec<crate::streams::Stream> = Vec::new();
        match self.client_id {
            Some(id) => {
                let all = self.streams.list();
                let ghost ss = all@;
                let ghost mine = owned_by(id);
                proof {
                    reveal(Seq::filter);
                    assert(ss.take(0).filter(mine) =~= Seq::<crate::streams::Stream>::empty());
                }
                for st in it: all.into_iter()
                    invariant
                        it.seq() == ss,
                        mine == owned_by(id),
                        own@ == ss.take(it.index() as int).filter(mine),
                {
                    let ghost i = it.index() as int;
                    proof {
                        lemma_filter_step(ss, i, mine);
                        assert(st == ss[i]);
                    }
                    if st.owner_id == id {
                        own.push(st);
                    }
                    assert(own@ == ss.take(i + 1).filter(mine));
                }
                assert(ss.take(ss.len() as int) =~= ss);
            },
            None => {},
        }
        own
    }

    /// Get a specific channel
    pub fn channel(&self, id: u64) -> (r: Option<Channel>)
        ensures
            match r {
                Some(c) => self.channels().contains_key(id) && c == self.channels()[id],
                None => !self.channels().contains_key(id),
            },
    {
        match self.server_state.channels.get(&id) {
            Some(c) => Some(copy_channel(c)),
            None => None,
        }
    }

    /// Get a specific user
    pub fn user(&self, id: u16) -> (r: Option<User>)
        ensures
            match r {
                Some(u) => self.users().contains_key(id) && same_user(u, self.users()[id]),
                None => !self.users().contains_key(id),
            },
    {
        match self.server_state.users.get(&id) {
            Some(u) => Some(copy_user(u)),
            None => None,
        }
    }

    /// Get all channels
    pub fn channels_list(&self) -> (r: Vec<Channel>)
        ensures
            exists|v: Seq<(u64, Channel)>|
                enumerates(self.channels(), v) && r@ == v.map_values(|e: (u64, Channel)| e.1),
    {
        let ghost v = unpair(
            vstd::std_specs::hash::spec_hash_map_iter(&self.server_state.channels).remaining(),
        );
        let mut r: Vec<Channel> = Vec::new();
        for pair in it: self.server_state.channels.iter()
            invariant
                it.seq() == vstd::std_specs::hash::spec_hash_map_iter(
                    &self.server_state.channels,
                ).remaining(),
                it.seq().no_duplicates(),
                v == unpair(it.seq()),
                r@ == v.take(it.index() as int).map_values(|e: (u64, Channel)| e.1),
        {
            let (_, c) = pair;
            proof {
                let i = it.index() as int;
                assert(pair == it.seq()[i]);
                assert(*c == v[i].1);
            }
            let ghost before = r@;
            r.push(copy_channel(c));
            proof {
                let i = it.index() as int;
                assert(v.take(i + 1).map_values(|e: (u64, Channel)| e.1) =~= before.push(v[i].1));
            }
        }
        proof {
            assert(v.take(v.len() as int) =~= v);
            lemma_enumerates_iter(&self.server_state.channels);
            assert(enumerates(self.channels(), v) && r@ == v.map_values(|e: (u64, Channel)| e.1));
        }
        r
    }

    /// Get all users, our own input-muted state as last sent applied to ourselves
    pub fn users_list(&self) -> (r: Vec<User>)
        ensures
            exists|v: Seq<(u16, User)>|
                {
                    &&& enumerates(self.users(), v)
                    &&& r@.len() == v.len()
                    &&& forall|i: int|
                        0 <= i < v.len() ==> same_user(
                            #[trigger] r@[i],
                            with_own_mute(v[i].1, self.own_id(), self.own_muted()),
                        )
                },
    {
        let ghost v = unpair(
            vstd::std_specs::hash::spec_hash_map_iter(&self.server_state.users).remaining(),
        );
        let mut r: Vec<User> = Vec::new();
        for pair in it: self.server_state.users.iter()
            invariant
                it.seq() == vstd::std_specs::hash::spec_hash_map_iter(
                    &self.server_state.users,
                ).remaining(),
                it.seq().no_duplicates(),
                v == unpair(it.seq()),
                r@.len() == it.index(),
                forall|i: int|
                    0 <= i < it.index() ==> same_user(
                        #[trigger] r@[i],
                        with_own_mute(v[i].1, self.client_id, self.self_input_muted),
                    ),
        {
            let (_, u) = pair;
            proof {
                let i = it.index() as int;
                assert(pair == it.seq()[i]);
                assert(*u == v[i].1);
            }
            let mut c = copy_user(u);
            match (self.client_id, self.self_input_muted) {
                (Some(own), Some(muted)) => {
                    if c.id == own {
                        c.is_input_muted = muted;
                    }
                },
                _ => {},
            }
            r.push(c);
        }
        proof {
            lemma_enumerates_iter(&self.server_state.users);
            assert(enumerates(self.users(), v));
            assert(forall|i: int|
                0 <= i < v.len() ==> same_user(
                    #[trigger] r@[i],
                    with_own_mute(v[i].1, self.own_id(), self.own_muted()),
                ));
        }
        r
    }

    /// We told the server our input-muted state: remember it and apply it to ourselves.
    pub fn own_mute_sent(&mut self, muted: bool)
        ensures
            final(self).own_muted() == Some(muted),
            final(self).users() == match old(self).own_id() {
                Some(id) => if old(self).users().contains_key(id) {
                    old(self).users().insert(id, User { is_input_muted: muted, ..old(self).users()[id] })
                } else {
                    old(self).users()
                },
                None => old(self).users(),
            },
            final(self).channels() == old(self).channels(),
            final(self).own_id() == old(self).own_id(),
            final(self).conn_state() == old(self).conn_state(),
    {
        self.self_input_muted = Some(muted);
        match self.client_id {
            Some(id) => {
                match self.server_state.users.remove(&id) {
                    Some(u) => {
                        let mut u = u;
                        u.is_input_muted = muted;
                        self.server_state.users.insert(id, u);
                    },
                    None => {},
                }
            },
            None => {},
        }
    }

    /// We moved to a channel.
    pub fn moved_to_channel(&mut self, channel_id: u64)
        ensures
            final(self).own_channel() == Some(channel_id),
            final(self).users() == old(self).users(),
            final(self).channels() == old(self).channels(),
            final(self).own_id() == old(self).own_id(),
    {
        self.channel_id = Some(channel_id);
    }

    /// The connection is up: the state is connected.
    pub fn connected(&mut self)
        ensures
            final(self).conn_state() == ConnectionState::Connected,
            final(self).users() == old(self).users(),
            final(self).channels() == old(self).channels(),
            final(self).stream_entries() == old(self).stream_entries(),
    {
        self.state = ConnectionState::Connected;
    }

    /// Replace the known state with the state book's: server details, every channel and
    /// user (a later record replacing an earlier one with the same id), our client id, and
    /// our channel when the book lists our client.
    pub fn sync(
        &mut self,
        info: crate::state::ServerInfo,
        channels: Vec<Channel>,
        users: Vec<User>,
        own_client: u16,
        own_channel: Option<u64>,
    )
        ensures
            final(self).server_info() == info,
            final(self).channels() == map_of(channels@),
            final(self).users() == users_by_id(users@),
            final(self).own_id() == Some(own_client),
            final(self).own_channel() == match own_channel {
                Some(c) => Some(c),
                None => old(self).own_channel(),
            },
            final(self).conn_state() == old(self).conn_state(),
            final(self).stream_entries() == old(self).stream_entries(),
    {
        self.server_state.server = info;
        self.server_state.channels = HashMap::new();
        self.server_state.users = HashMap::new();
        let ghost cs = channels@;
        assert(cs.take(0) =~= Seq::<Channel>::empty());
        for c in it: channels.into_iter()
            invariant
                it.seq() == cs,
                self.server_state.channels@ == map_of(cs.take(it.index() as int)),
                self.server_state.users@ == Map::<u16, User>::empty(),
                self.server_state.server == info,
                self.state == old(self).state,
                self.streams.entries() == old(self).streams.entries(),
                self.channel_id == old(self).channel_id,
        {
            proof {
                let i = it.index() as int;
                assert(cs.take(i + 1).drop_last() =~= cs.take(i));
                assert(cs.take(i + 1).last() == c);
            }
            self.server_state.channels.insert(c.id, c);
        }
        assert(cs.take(cs.len() as int) =~= cs);
        let ghost us = users@;
        assert(us.take(0) =~= Seq::<User>::empty());
        for u in it: users.into_iter()
            invariant
                it.seq() == us,
                self.server_state.users@ == users_by_id(us.take(it.index() as int)),
                self.server_state.channels@ == map_of(cs),
                self.server_state.server == info,
                self.state == old(self).state,
                self.streams.entries() == old(self).streams.entries(),
                self.channel_id == old(self).channel_id,
        {
            proof {
                let i = it.index() as int;
                assert(us.take(i + 1).drop_last() =~= us.take(i));
                assert(us.take(i + 1).last() == u);
            }
            self.server_state.users.insert(u.id, u);
        }
        assert(us.take(us.len() as int) =~= us);
        self.client_id = Some(own_client);
        match own_channel {
            Some(c) => {
                self.channel_id = Some(c);
            },
            None => {},
        }
    }
}


/// A user as we report it: our own input-muted state, as last sent, applied to ourselves.
pub open spec fn with_own_mute(u: User, own: Option<u16>, muted: Option<bool>) -> User {
    match (own, muted) {
        (Some(id), Some(m)) => if u.id == id {
            User { is_input_muted: m, ..u }
        } else {
            u
        },
        _ => u,
    }
}

/// The map a list of users fills, by id, a later user replacing an earlier one.
pub open spec fn users_by_id(us: Seq<User>) -> Map<u16, User>
    decreases us.len(),
{
    if us.len() == 0 {
        Map::empty()
    } else {
        users_by_id(us.drop_last()).insert(us.last().id, us.last())
    }
}

/// Hints for a channel whose permission overview was refused: join, browse and download.
pub const DEFAULT_HINTS: u64 = 1153;

/// The channels with the hints of channel `c` set to `hints` (unchanged when unknown).
pub open spec fn with_hints(m: Map<u64, Channel>, c: u64, hints: u64) -> Map<u64, Channel> {
    if m.contains_key(c) {
        m.insert(c, Channel { permission_hints: hints, ..m[c] })
    } else {
        m
    }
}

/// Some part carries the error id `id`.
pub open spec fn has_error_id(parts: Seq<ErrorPart>, id: u32) -> bool {
    exists|i: int| 0 <= i < parts.len() && #[trigger] parts[i].id == id
}

/// Some part reports a failure (a non-zero id).
pub open spec fn has_failure(parts: Seq<ErrorPart>) -> bool {
    exists|i: int| 0 <= i < parts.len() && #[trigger] parts[i].id != 0
}

fn any_error_id(parts: &Vec<ErrorPart>, id: u32) -> (r: bool)
    ensures
        r == has_error_id(parts@, id),
{
    let mut i: usize = 0;
    while i < parts.len()
        invariant
            i <= parts.len(),
            forall|j: int| 0 <= j < i ==> #[trigger] parts@[j].id != id,
        decreases parts.len() - i,
    {
        if parts[i].id == id {
            return true;
        }
        i += 1;
    }
    false
}

fn any_failure(parts: &Vec<ErrorPart>) -> (r: bool)
    ensures
        r == has_failure(parts@),
{
    let mut i: usize = 0;
    while i < parts.len()
        invariant
            i <= parts.len(),
            forall|j: int| 0 <= j < i ==> #[trigger] parts@[j].id == 0,
        decreases parts.len() - i,
    {
        if parts[i].id != 0 {
            return true;
        }
        i += 1;
    }
    false
}

/// The command-error event of each failing part, in order.
pub open spec fn error_events(parts: Seq<ErrorPart>) -> Seq<Event>
    decreases parts.len(),
{
    if parts.len() == 0 {
        Seq::empty()
    } else if parts.last().id != 0 {
        error_events(parts.drop_last()).push(
            Event::CommandError { error_id: parts.last().id, message: parts.last().message },
        )
    } else {
        error_events(parts.drop_last())
    }
}

/// The event a join-stream reply part raises.
pub open spec fn join_event(p: JoinResponsePart) -> Event {
    Event::StreamJoinResponse {
        owner_id: p.client_id,
        stream_id: p.stream_id,
        decision: p.decision,
        message: p.message,
        offer: p.offer,
    }
}

/// The events join-stream reply parts raise.
pub open spec fn join_events(ps: Seq<JoinResponsePart>) -> Seq<Event> {
    ps.map_values(|p: JoinResponsePart| join_event(p))
}

/// Whether a stream is `id`'s.
pub open spec fn owned_by(id: u16) -> spec_fn(crate::streams::Stream) -> bool {
    |st: crate::streams::Stream| st.owner_id == id
}

/// Filtering one more element of a sequence's prefix keeps it when it passes.
proof fn lemma_filter_step<A>(s: Seq<A>, i: int, pred: spec_fn(A) -> bool)
    requires
        0 <= i < s.len(),
    ensures
        s.take(i + 1).filter(pred) == if pred(s[i]) {
            s.take(i).filter(pred).push(s[i])
        } else {
            s.take(i).filter(pred)
        },
{
    reveal(Seq::filter);
    assert(s.take(i + 1).drop_last() =~= s.take(i));
    assert(s.take(i + 1).last() == s[i]);
}

/// The event a viewer's join request part raises.
pub open spec fn join_request_event(p: JoinRequestPart) -> Event {
    Event::StreamJoinRequest { viewer_id: p.client_id, stream_id: p.stream_id, is_remove: p.is_remove }
}

/// The events viewers' join request parts raise.
pub open spec fn join_request_events(ps: Seq<JoinRequestPart>) -> Seq<Event> {
    ps.map_values(|p: JoinRequestPart| join_request_event(p))
}

/// The event a signaling part raises.
pub open spec fn signaling_event(p: SignalingPart) -> Event {
    Event::StreamSignaling { owner_id: p.client_id, stream_id: p.stream_id, json: p.json }
}

/// The events signaling parts raise.
pub open spec fn signaling_events(ps: Seq<SignalingPart>) -> Seq<Event> {
    ps.map_values(|p: SignalingPart| signaling_event(p))
}

/// Milliseconds from `last` to `now` (0 when `now` is earlier).
pub open spec fn elapsed_ms(now: u64, last: u64) -> int {
    if now >= last {
        now - last
    } else {
        0
    }
}

/// The talkers still within the talk timeout at `now`, in order.
pub open spec fn still_talking(t: Seq<(u16, u64)>, now: u64) -> Seq<(u16, u64)>
    decreases t.len(),
{
    if t.len() == 0 {
        Seq::empty()
    } else if elapsed_ms(now, t.last().1) > TALK_TIMEOUT_MS {
        still_talking(t.drop_last(), now)
    } else {
        still_talking(t.drop_last(), now).push(t.last())
    }
}

/// A talk-stop event for each talker past the talk timeout at `now`, in order.
pub open spec fn stop_events(t: Seq<(u16, u64)>, now: u64) -> Seq<Event>
    decreases t.len(),
{
    if t.len() == 0 {
        Seq::empty()
    } else if elapsed_ms(now, t.last().1) > TALK_TIMEOUT_MS {
        stop_events(t.drop_last(), now).push(Event::TalkStatusStop { user_id: t.last().0 })
    } else {
        stop_events(t.drop_last(), now)
    }
}

/// The index of the transfer with handle `h`.
pub open spec fn transfer_index<V>(ts: Seq<(u16, V)>, h: u16) -> Option<int>
    decreases ts.len(),
{
    if ts.len() == 0 {
        None
    } else {
        match transfer_index(ts.drop_last(), h) {
            Some(i) => Some(i),
            None => if ts.last().0 == h {
                Some(ts.len() - 1)
            } else {
                None
            },
        }
    }
}

/// The transfers with `v` recorded under handle `h`, in place or appended.
pub open spec fn put_transfer<V>(ts: Seq<(u16, V)>, h: u16, v: V) -> Seq<(u16, V)> {
    match transfer_index(ts, h) {
        Some(i) => ts.update(i, (h, v)),
        None => ts.push((h, v)),
    }
}

proof fn lemma_transfer_at<V>(ts: Seq<(u16, V)>, h: u16, i: int)
    requires
        0 <= i < ts.len(),
        ts[i].0 == h,
        forall|j: int| 0 <= j < i ==> #[trigger] ts[j].0 != h,
    ensures
        transfer_index(ts, h) == Some(i),
    decreases ts.len(),
{
    if i < ts.len() - 1 {
        lemma_transfer_at(ts.drop_last(), h, i);
    } else {
        lemma_transfer_none(ts.drop_last(), h);
    }
}

proof fn lemma_transfer_none<V>(ts: Seq<(u16, V)>, h: u16)
    requires
        forall|j: int| 0 <= j < ts.len() ==> #[trigger] ts[j].0 != h,
    ensures
        transfer_index(ts, h) is None,
    decreases ts.len(),
{
    if ts.len() > 0 {
        lemma_transfer_none(ts.drop_last(), h);
    }
}


proof fn lemma_transfer_some<V>(ts: Seq<(u16, V)>, h: u16)
    requires
        transfer_index(ts, h) is Some,
    ensures
        0 <= transfer_index(ts, h).unwrap() < ts.len(),
        ts[transfer_index(ts, h).unwrap()].0 == h,
    decreases ts.len(),
{
    let t = ts.drop_last();
    if transfer_index(t, h) is Some {
        lemma_transfer_some(t, h);
        assert(t[transfer_index(t, h).unwrap()] == ts[transfer_index(t, h).unwrap()]);
    }
}

proof fn lemma_transfer_none_all<V>(ts: Seq<(u16, V)>, h: u16)
    requires
        transfer_index(ts, h) is None,
    ensures
        forall|j: int| 0 <= j < ts.len() ==> #[trigger] ts[j].0 != h,
    decreases ts.len(),
{
    if ts.len() > 0 {
        let t = ts.drop_last();
        lemma_transfer_none_all(t, h);
        assert forall|j: int| 0 <= j < ts.len() implies #[trigger] ts[j].0 != h by {
            if j < ts.len() - 1 {
                assert(t[j] == ts[j]);
            }
        }
    }
}

/// No two entries share a handle (for the talkers: a user id).
pub open spec fn distinct_handles<V>(ts: Seq<(u16, V)>) -> bool {
    forall|i: int, j: int| 0 <= i < j < ts.len() ==> ts[i].0 != ts[j].0
}

/// Recording under a handle keeps the handles distinct; the handle then names the entry
/// just recorded, which replaced the one it named before or was added after the others.
pub proof fn recording_keeps_handles_distinct<V>(ts: Seq<(u16, V)>, h: u16, v: V)
    requires
        distinct_handles(ts),
    ensures
        distinct_handles(put_transfer(ts, h, v)),
        transfer_index(put_transfer(ts, h, v), h) is Some,
        put_transfer(ts, h, v)[transfer_index(put_transfer(ts, h, v), h).unwrap()] == (h, v),
        put_transfer(ts, h, v).len() == if transfer_index(ts, h) is Some {
            ts.len() as int
        } else {
            ts.len() + 1int
        },
{
    let r = put_transfer(ts, h, v);
    match transfer_index(ts, h) {
        Some(i) => {
            lemma_transfer_some(ts, h);
            assert forall|a: int, b: int| 0 <= a < b < r.len() implies r[a].0 != r[b].0 by {
                assert(r[a].0 == ts[a].0);
                assert(r[b].0 == ts[b].0);
            }
            assert forall|j: int| 0 <= j < i implies #[trigger] r[j].0 != h by {
                assert(r[j] == ts[j]);
                assert(ts[j].0 != ts[i].0);
            }
            lemma_transfer_at(r, h, i);
        },
        None => {
            lemma_transfer_none_all(ts, h);
            assert forall|a: int, b: int| 0 <= a < b < r.len() implies r[a].0 != r[b].0 by {
                assert(r[a] == ts[a]);
                if b < ts.len() {
                    assert(r[b] == ts[b]);
                }
            }
            assert forall|j: int| 0 <= j < ts.len() implies #[trigger] r[j].0 != h by {
                assert(r[j] == ts[j]);
            }
            lemma_transfer_at(r, h, ts.len() as int);
        },
    }
}

/// Taking an entry out keeps the handles distinct, and its handle then names nothing.
pub proof fn taking_keeps_handles_distinct<V>(ts: Seq<(u16, V)>, i: int)
    requires
        distinct_handles(ts),
        0 <= i < ts.len(),
    ensures
        distinct_handles(ts.remove(i)),
        transfer_index(ts.remove(i), ts[i].0) is None,
{
    let r = ts.remove(i);
    assert forall|a: int, b: int| 0 <= a < b < r.len() implies r[a].0 != r[b].0 by {
        let a0 = if a < i { a } else { a + 1 };
        let b0 = if b < i { b } else { b + 1 };
        assert(r[a] == ts[a0] && r[b] == ts[b0]);
    }
    assert forall|j: int| 0 <= j < r.len() implies #[trigger] r[j].0 != ts[i].0 by {
        let j0 = if j < i { j } else { j + 1 };
        assert(r[j] == ts[j0]);
    }
    lemma_transfer_none(r, ts[i].0);
}

/// Dropping the talkers past the talk timeout keeps the user ids distinct.
pub proof fn talkers_stay_distinct(t: Seq<(u16, u64)>, now: u64)
    requires
        distinct_handles(t),
    ensures
        distinct_handles(still_talking(t, now)),
        forall|k: int|
            0 <= k < still_talking(t, now).len() ==> exists|m: int|
                0 <= m < t.len() && #[trigger] still_talking(t, now)[k] == t[m],
    decreases t.len(),
{
    if t.len() > 0 {
        let p = t.drop_last();
        assert(distinct_handles(p)) by {
            assert forall|a: int, b: int| 0 <= a < b < p.len() implies p[a].0 != p[b].0 by {
                assert(p[a] == t[a] && p[b] == t[b]);
            }
        }
        talkers_stay_distinct(p, now);
        let w = still_talking(p, now);
        let r = still_talking(t, now);
        assert forall|k: int| 0 <= k < w.len() implies exists|m: int|
            0 <= m < t.len() - 1 && #[trigger] w[k] == t[m] by {
            let m = choose|m: int| 0 <= m < p.len() && w[k] == p[m];
            assert(p[m] == t[m]);
        }
        if elapsed_ms(now, t.last().1) <= TALK_TIMEOUT_MS {
            assert forall|a: int, b: int| 0 <= a < b < r.len() implies r[a].0 != r[b].0 by {
                assert(r[a] == w[a]);
                let ma = choose|m: int| 0 <= m < t.len() - 1 && w[a] == t[m];
                if b < w.len() {
                    assert(r[b] == w[b]);
                } else {
                    assert(r[b] == t[t.len() - 1]);
                }
            }
            assert forall|k: int| 0 <= k < r.len() implies exists|m: int|
                0 <= m < t.len() && #[trigger] r[k] == t[m] by {
                if k < w.len() {
                    assert(r[k] == w[k]);
                } else {
                    assert(r[k] == t[t.len() - 1]);
                }
            }
        }
    }
}

} // verus!
