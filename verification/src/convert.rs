//! Channel and client records as the server's state book holds them, and the library's
//! `Channel` and `User` made from them.

use vstd::prelude::*;
use crate::events::AudioCodec;
use crate::state::{Channel, User};
use base64::Engine;
use crate::text::{append_str, decimal, decimal_chars_u64, string_of};

verus! {

/// The digit of the standard base64 alphabet for a value below 64: `A`-`Z`, `a`-`z`,
/// `0`-`9`, `+`, `/`.
pub open spec fn base64_digit(v: int) -> char {
    if v < 26 {
        (65 + v) as char
    } else if v < 52 {
        (97 + v - 26) as char
    } else if v < 62 {
        (48 + v - 52) as char
    } else if v == 62 {
        '+'
    } else {
        '/'
    }
}

/// The standard, padded base64 text of some bytes: each group of three bytes gives four
/// digits of six bits each; a last group of one or two bytes gives two or three digits
/// and is padded with `=` to four.
pub open spec fn base64_standard(bytes: Seq<u8>) -> Seq<char>
    decreases bytes.len(),
{
    if bytes.len() == 0 {
        Seq::empty()
    } else {
        let b0 = bytes[0] as int;
        let b1 = if bytes.len() > 1 { bytes[1] as int } else { 0 };
        let b2 = if bytes.len() > 2 { bytes[2] as int } else { 0 };
        let d0 = base64_digit(b0 / 4);
        let d1 = base64_digit((b0 % 4) * 16 + b1 / 16);
        let d2 = base64_digit((b1 % 16) * 4 + b2 / 64);
        let d3 = base64_digit(b2 % 64);
        if bytes.len() == 1 {
            seq![d0, d1, '=', '=']
        } else if bytes.len() == 2 {
            seq![d0, d1, d2, '=']
        } else {
            seq![d0, d1, d2, d3] + base64_standard(bytes.skip(3))
        }
    }
}

/// `base64::engine::general_purpose::STANDARD.encode`: the standard, padded base64 text of
/// the bytes. Its length computation would overflow only past `isize::MAX` bytes, which no
/// slice reaches.
#[verifier::external_body]
fn base64_encode(bytes: &[u8]) -> (r: String)
    requires
        bytes@.len() <= isize::MAX,
    ensures
        r@ == base64_standard(bytes@),
{
    base64::engine::general_purpose::STANDARD.encode(bytes)
}

/// An identity key in its exported text form: the key counter in decimal, a `V`,
/// then the key's bytes in standard base64.
pub fn export_key_string(counter: u64, key_bytes: &[u8]) -> (r: String)
    requires
        key_bytes@.len() <= isize::MAX,
    ensures
        r@ == decimal(counter as nat) + "V"@ + base64_standard(key_bytes@),
{
    let mut v = decimal_chars_u64(counter);
    append_str(&mut v, "V");
    let key = base64_encode(key_bytes);
    append_str(&mut v, key.as_str());
    string_of(&v)
}

/// How long a channel lives.
#[derive(Debug, Clone, Copy, PartialEq, Eq, Structural)]
pub enum ChannelKind {
    Permanent,
    SemiPermanent,
    Temporary,
}

/// A client limit as the server states it.
#[derive(Debug, Clone, Copy, PartialEq, Eq, Structural)]
pub enum ClientLimit {
    Unlimited,
    Inherited,
    Limited(u16),
}

/// A channel as the state book records it.
#[derive(Debug, Clone)]
pub struct ChannelRecord {
    pub id: u64,
    pub parent: u64,
    pub name: String,
    pub topic: Option<String>,
    /// The description, where the optional data was received
    pub description: Option<String>,
    /// The id of the channel this one sorts after
    pub order: u64,
    pub kind: ChannelKind,
    pub is_default: Option<bool>,
    pub has_password: Option<bool>,
    pub codec: AudioCodec,
    pub codec_quality: Option<u8>,
    pub max_clients: Option<ClientLimit>,
    pub max_family_clients: Option<ClientLimit>,
    pub needed_talk_power: Option<i32>,
    pub icon: Option<u32>,
    pub subscribed: bool,
    pub permission_hints: Option<u64>,
}

/// A client as the state book records it.
#[derive(Debug, Clone)]
pub struct ClientRecord {
    pub id: u16,
    /// The unique identifier's bytes
    pub uid: Option<Vec<u8>>,
    pub database_id: u64,
    pub channel: u64,
    pub name: String,
    /// A server query client
    pub is_query: bool,
    pub input_muted: bool,
    pub output_muted: bool,
    pub input_hardware_enabled: bool,
    pub output_hardware_enabled: bool,
    pub away_message: Option<String>,
    pub is_recording: bool,
    pub is_priority_speaker: bool,
    pub is_channel_commander: bool,
    pub talk_power: i32,
    pub talk_power_granted: bool,
    pub server_groups: Vec<u64>,
    pub channel_group: u64,
    /// Platform and version, where the optional data was received
    pub optional_data: Option<(String, String)>,
    pub avatar_hash: String,
    pub icon: u32,
}

/// A client limit as a number: -1 for unlimited, inherited or absent.
pub open spec fn limit_value(l: Option<ClientLimit>) -> i32 {
    match l {
        Some(ClientLimit::Limited(n)) => n as i32,
        _ => -1i32,
    }
}

fn limit_number(l: Option<ClientLimit>) -> (r: i32)
    ensures
        r == limit_value(l),
{
    match l {
        Some(ClientLimit::Limited(n)) => n as i32,
        _ => -1,
    }
}

/// The channel a record describes.
pub open spec fn channel_of(r: ChannelRecord) -> Channel {
    Channel {
        id: r.id,
        parent_id: r.parent,
        name: r.name,
        topic: r.topic,
        description: r.description,
        order: r.order as i32,
        is_permanent: r.kind == ChannelKind::Permanent,
        is_semi_permanent: r.kind == ChannelKind::SemiPermanent,
        is_default: match r.is_default {
            Some(b) => b,
            None => false,
        },
        has_password: match r.has_password {
            Some(b) => b,
            None => false,
        },
        codec: r.codec.spec_id(),
        codec_quality: match r.codec_quality {
            Some(q) => q,
            None => 7u8,
        },
        max_clients: limit_value(r.max_clients),
        max_family_clients: limit_value(r.max_family_clients),
        needed_talk_power: match r.needed_talk_power {
            Some(p) => p,
            None => 0i32,
        },
        icon_id: match r.icon {
            Some(i) => i as i64,
            None => 0i64,
        },
        is_subscribed: r.subscribed,
        permission_hints: match r.permission_hints {
            Some(h) => h,
            None => 0u64,
        },
    }
}

/// Convert a state-book channel record to our Channel type
pub fn channel_from_record(r: ChannelRecord) -> (c: Channel)
    ensures
        c == channel_of(r),
        c.is_permanent <==> r.kind == ChannelKind::Permanent,
        c.is_semi_permanent <==> r.kind == ChannelKind::SemiPermanent,
{
    let is_permanent = match r.kind {
        ChannelKind::Permanent => true,
        _ => false,
    };
    let is_semi_permanent = match r.kind {
        ChannelKind::SemiPermanent => true,
        _ => false,
    };
    let codec = r.codec.id();
    let max_clients = limit_number(r.max_clients);
    let max_family_clients = limit_number(r.max_family_clients);
    let order = r.order as i32;
    Channel {
        id: r.id,
        parent_id: r.parent,
        name: r.name,
        topic: r.topic,
        description: r.description,
        order,
        is_permanent,
        is_semi_permanent,
        is_default: match r.is_default {
            Some(b) => b,
            None => false,
        },
        has_password: match r.has_password {
            Some(b) => b,
            None => false,
        },
        codec,
        codec_quality: match r.codec_quality {
            Some(q) => q,
            None => 7,
        },
        max_clients,
        max_family_clients,
        needed_talk_power: match r.needed_talk_power {
            Some(p) => p,
            None => 0,
        },
        icon_id: match r.icon {
            Some(i) => i as i64,
            None => 0,
        },
        is_subscribed: r.subscribed,
        permission_hints: match r.permission_hints {
            Some(h) => h,
            None => 0,
        },
    }
}

/// The characters of an optional string.
pub open spec fn opt_text(o: Option<String>) -> Option<Seq<char>> {
    match o {
        Some(s) => Some(s@),
        None => None,
    }
}

/// `u` is the user the record describes, but for its unique identifier's text.
pub open spec fn user_describes(u: User, r: ClientRecord) -> bool {
    &&& u.id == r.id
    &&& u.database_id == r.database_id
    &&& u.channel_id == r.channel
    &&& u.nickname == r.name
    &&& u.client_type == (if r.is_query {
        1u8
    } else {
        0u8
    })
    &&& !u.is_talking
    &&& u.is_input_muted == r.input_muted
    &&& u.is_output_muted == r.output_muted
    &&& u.has_input_hardware == r.input_hardware_enabled
    &&& u.has_output_hardware == r.output_hardware_enabled
    &&& u.is_away == r.away_message is Some
    &&& u.away_message == r.away_message
    &&& u.is_recording == r.is_recording
    &&& u.is_priority_speaker == r.is_priority_speaker
    &&& u.is_channel_commander == r.is_channel_commander
    &&& u.talk_power == r.talk_power
    &&& u.is_talker == r.talk_power_granted
    &&& u.server_groups == r.server_groups
    &&& u.channel_group == r.channel_group
    &&& u.platform@ == match r.optional_data {
        Some((p, _)) => p@,
        None => Seq::<char>::empty(),
    }
    &&& u.version@ == match r.optional_data {
        Some((_, v)) => v@,
        None => Seq::<char>::empty(),
    }
    &&& u.country is None
    &&& u.description is None
    &&& opt_text(u.avatar_id) == if r.avatar_hash@.len() == 0 {
        None
    } else {
        Some(r.avatar_hash@)
    }
    &&& u.icon_id == r.icon as i64
    &&& u.idle_time == 0
    &&& u.connected_time == 0
}

/// The text a unique identifier's bytes are shown as: their base64, empty when absent.
pub open spec fn uid_text(uid: Option<Vec<u8>>) -> Seq<char> {
    match uid {
        Some(b) => base64_standard(b@),
        None => Seq::empty(),
    }
}

/// Convert a state-book client record to our User type
pub fn user_from_record(r: ClientRecord) -> (u: User)
    requires
        r.uid matches Some(b) ==> b@.len() <= isize::MAX,
    ensures
        u.uid@ == uid_text(r.uid),
        user_describes(u, r),
        u.is_input_muted == r.input_muted,
        u.is_output_muted == r.output_muted,
{
    let uid = match &r.uid {
        Some(b) => base64_encode(b.as_slice()),
        None => String::new(),
    };
    let client_type: u8 = if r.is_query {
        1
    } else {
        0
    };
    let is_away = r.away_message.is_some();
    let (platform, version) = match r.optional_data {
        Some((p, v)) => (p, v),
        None => (String::new(), String::new()),
    };
    let avatar_id = if r.avatar_hash.as_str().is_empty() {
        None
    } else {
        Some(r.avatar_hash)
    };
    User {
        id: r.id,
        uid,
        database_id: r.database_id,
        channel_id: r.channel,
        nickname: r.name,
        client_type,
        is_talking: false,
        is_input_muted: r.input_muted,
        is_output_muted: r.output_muted,
        has_input_hardware: r.input_hardware_enabled,
        has_output_hardware: r.output_hardware_enabled,
        is_away,
        away_message: r.away_message,
        is_recording: r.is_recording,
        is_priority_speaker: r.is_priority_speaker,
        is_channel_commander: r.is_channel_commander,
        talk_power: r.talk_power,
        is_talker: r.talk_power_granted,
        server_groups: r.server_groups,
        channel_group: r.channel_group,
        platform,
        version,
        country: None,
        description: None,
        avatar_id,
        icon_id: r.icon as i64,
        idle_time: 0,
        connected_time: 0,
    }
}


/// A channel's lifetime flags follow its kind: a permanent channel is permanent and not
/// semi-permanent, a semi-permanent one the other way round, and a temporary one is
/// neither.
pub proof fn channel_lifetime_follows_kind(r: ChannelRecord)
    ensures
        channel_of(r).is_permanent <==> r.kind == ChannelKind::Permanent,
        channel_of(r).is_semi_permanent <==> r.kind == ChannelKind::SemiPermanent,
        r.kind == ChannelKind::Temporary ==> !channel_of(r).is_permanent
            && !channel_of(r).is_semi_permanent,
        !(channel_of(r).is_permanent && channel_of(r).is_semi_permanent),
{
}

/// A user's mute flags are the record's: the microphone (input) mute stays the input
/// mute and the speaker (output) mute stays the output mute, whatever the other is.
pub proof fn user_mutes_follow_record(u: User, r: ClientRecord)
    requires
        user_describes(u, r),
    ensures
        u.is_input_muted == r.input_muted,
        u.is_output_muted == r.output_muted,
        r.input_muted != r.output_muted ==> u.is_input_muted != u.is_output_muted,
        u.has_input_hardware == r.input_hardware_enabled,
        u.has_output_hardware == r.output_hardware_enabled,
        u.is_away <==> r.away_message is Some,
        u.is_recording == r.is_recording,
        u.is_priority_speaker == r.is_priority_speaker,
        u.is_channel_commander == r.is_channel_commander,
        u.is_talker == r.talk_power_granted,
        !u.is_talking,
        u.client_type == 1 <==> r.is_query,
{
}

/// What a channel record leaves out reads as the defaults: not the default channel, no
/// password, codec quality 7, no talk power needed, no icon, no permission hints; a
/// client limit that is absent, unlimited or inherited reads as -1, and a set limit is
/// the limit itself.
pub proof fn channel_defaults(r: ChannelRecord)
    ensures
        r.is_default is None ==> !channel_of(r).is_default,
        r.has_password is None ==> !channel_of(r).has_password,
        r.codec_quality is None ==> channel_of(r).codec_quality == 7,
        r.needed_talk_power is None ==> channel_of(r).needed_talk_power == 0,
        r.icon is None ==> channel_of(r).icon_id == 0,
        r.permission_hints is None ==> channel_of(r).permission_hints == 0,
        r.max_clients matches Some(ClientLimit::Limited(n)) ==> channel_of(r).max_clients == n,
        !(r.max_clients matches Some(ClientLimit::Limited(_))) ==> channel_of(r).max_clients == -1,
        r.max_family_clients matches Some(ClientLimit::Limited(n)) ==> channel_of(
            r,
        ).max_family_clients == n,
        !(r.max_family_clients matches Some(ClientLimit::Limited(_))) ==> channel_of(
            r,
        ).max_family_clients == -1,
{
}

} // verus!
