//! Server state management
//!
//! Tracks channels, users, and other server information.

use vstd::prelude::*;
use crate::text::{starts_with, str_eq, str_starts_with};
use std::collections::HashMap;
use vstd::std_specs::iter::IteratorSpec;

verus! {

broadcast use vstd::std_specs::hash::group_hash_axioms;

/// `v` lists every entry of `m` exactly once, in some order.
pub open spec fn enumerates<K, V>(m: Map<K, V>, v: Seq<(K, V)>) -> bool {
    &&& v.len() == m.dom().len()
    &&& forall|i: int| 0 <= i < v.len() ==> m.contains_key(#[trigger] v[i].0) && m[v[i].0] == v[i].1
    &&& forall|k: K| #[trigger] m.contains_key(k) ==> exists|i: int| 0 <= i < v.len() && v[i].0 == k
    &&& forall|i: int, j: int| 0 <= i < j < v.len() ==> v[i].0 != v[j].0
}

/// The values of the entries that satisfy `p`, in order.
pub open spec fn select<K, V>(v: Seq<(K, V)>, p: spec_fn(V) -> bool) -> Seq<V>
    decreases v.len(),
{
    if v.len() == 0 {
        Seq::empty()
    } else if p(v.last().1) {
        select(v.drop_last(), p).push(v.last().1)
    } else {
        select(v.drop_last(), p)
    }
}

/// The value of the first entry that satisfies `p`.
pub open spec fn first<K, V>(v: Seq<(K, V)>, p: spec_fn(V) -> bool) -> Option<V>
    decreases v.len(),
{
    if v.len() == 0 {
        None
    } else if p(v[0].1) {
        Some(v[0].1)
    } else {
        first(v.drop_first(), p)
    }
}

/// The entries of a map iteration, dereferenced.
pub open spec fn unpair<K, V>(v: Seq<(&K, &V)>) -> Seq<(K, V)> {
    v.map_values(|p: (&K, &V)| (*p.0, *p.1))
}

/// The values a list of references points at.
pub open spec fn deref_all<V>(v: Seq<&V>) -> Seq<V> {
    v.map_values(|r: &V| *r)
}

/// Channel information
#[derive(Debug, Clone, Default)]
pub struct Channel {
    /// Channel ID
    pub id: u64,
    /// Parent channel ID (0 for root)
    pub parent_id: u64,
    /// Channel name
    pub name: String,
    /// Channel topic
    pub topic: Option<String>,
    /// Channel description
    pub description: Option<String>,
    /// Channel order
    pub order: i32,
    /// Is permanent channel
    pub is_permanent: bool,
    /// Is semi-permanent channel
    pub is_semi_permanent: bool,
    /// Is default channel
    pub is_default: bool,
    /// Has password
    pub has_password: bool,
    /// Audio codec
    pub codec: u8,
    /// Codec quality (0-10)
    pub codec_quality: u8,
    /// Maximum clients (-1 for unlimited)
    pub max_clients: i32,
    /// Max family clients
    pub max_family_clients: i32,
    /// Needed talk power
    pub needed_talk_power: i32,
    /// Channel icon ID
    pub icon_id: i64,
    /// Is channel subscribed
    pub is_subscribed: bool,
    /// Permission hints bitflags (from ChannelPermissionHint)
    /// FILE_UPLOAD=64, FILE_DOWNLOAD=128, FILE_DELETE=256,
    /// FILE_RENAME=512, FILE_BROWSE=1024, FILE_DIRECTORY_CREATE=2048
    pub permission_hints: u64,
}

/// A spacer channel's name begins with `[spacer`, `[cspacer`, `[lspacer` or `[rspacer`.
pub open spec fn spacer_name(name: Seq<char>) -> bool {
    starts_with(name, "[spacer"@) || starts_with(name, "[cspacer"@) || starts_with(
        name,
        "[lspacer"@,
    ) || starts_with(name, "[rspacer"@)
}

/// The client limit as `usize`, the way a cast sign-extends a negative limit.
pub open spec fn limit_as_usize(max_clients: i32) -> int {
    if max_clients >= 0 {
        max_clients as int
    } else {
        usize::MAX + 1 + max_clients
    }
}

impl Channel {
    /// Check if this is a spacer channel
    pub fn is_spacer(&self) -> (r: bool)
        ensures
            r == spacer_name(self.name@),
    {
        let n = self.name.as_str();
        str_starts_with(n, "[spacer") || str_starts_with(n, "[cspacer") || str_starts_with(
            n,
            "[lspacer",
        ) || str_starts_with(n, "[rspacer")
    }

    /// Check if channel has unlimited slots
    pub fn is_unlimited(&self) -> (r: bool)
        ensures
            r == (self.max_clients == -1),
    {
        self.max_clients == -1
    }

    /// Check if channel is full
    pub fn is_full(&self, current_users: usize) -> (r: bool)
        ensures
            r == (self.max_clients != -1 && current_users >= limit_as_usize(self.max_clients)),
    {
        if self.is_unlimited() {
            false
        } else if self.max_clients >= 0 {
            current_users >= self.max_clients as usize
        } else {
            let below: i64 = -(self.max_clients as i64) - 1;
            current_users >= usize::MAX - below as usize
        }
    }
}

/// User information
#[derive(Debug, Clone, Default)]
pub struct User {
    /// Client ID (session-specific)
    pub id: u16,
    /// Unique identifier (persistent)
    pub uid: String,
    /// Database ID
    pub database_id: u64,
    /// Current channel ID
    pub channel_id: u64,
    /// Nickname
    pub nickname: String,
    /// Client type (0 = normal, 1 = query)
    pub client_type: u8,
    /// Is currently talking
    pub is_talking: bool,
    /// Is input muted (microphone)
    pub is_input_muted: bool,
    /// Is output muted (speakers)
    pub is_output_muted: bool,
    /// Is input hardware available
    pub has_input_hardware: bool,
    /// Is output hardware available
    pub has_output_hardware: bool,
    /// Is away
    pub is_away: bool,
    /// Away message
    pub away_message: Option<String>,
    /// Is recording
    pub is_recording: bool,
    /// Is priority speaker
    pub is_priority_speaker: bool,
    /// Is channel commander
    pub is_channel_commander: bool,
    /// Talk power
    pub talk_power: i32,
    /// Is talker
    pub is_talker: bool,
    /// Server groups
    pub server_groups: Vec<u64>,
    /// Channel group
    pub channel_group: u64,
    /// Client platform
    pub platform: String,
    /// Client version
    pub version: String,
    /// Country code
    pub country: Option<String>,
    /// Client description
    pub description: Option<String>,
    /// Avatar ID
    pub avatar_id: Option<String>,
    /// Icon ID
    pub icon_id: i64,
    /// Idle time in milliseconds
    pub idle_time: u64,
    /// Connection time in milliseconds
    pub connected_time: u64,
}

impl User {
    /// Check if user can talk in their current channel
    pub fn can_talk(&self) -> (r: bool)
        ensures
            r == (!self.is_input_muted && self.has_input_hardware && self.is_talker),
    {
        !self.is_input_muted && self.has_input_hardware && self.is_talker
    }

    /// Check if user is a server query client
    pub fn is_query(&self) -> (r: bool)
        ensures
            r == (self.client_type == 1),
    {
        self.client_type == 1
    }
}

/// Server information
#[derive(Debug, Clone, Default)]
pub struct ServerInfo {
    /// Server unique identifier
    pub uid: String,
    /// Server name
    pub name: String,
    /// Welcome message
    pub welcome_message: Option<String>,
    /// Server platform
    pub platform: String,
    /// Server version
    pub version: String,
    /// Maximum clients allowed
    pub max_clients: u32,
    /// Current number of clients
    pub clients_online: u32,
    /// Number of channels
    pub channels_online: u32,
    /// Server uptime in seconds
    pub uptime: u64,
    /// Server icon ID
    pub icon_id: i64,
    /// Host banner URL
    pub host_banner_url: Option<String>,
    /// Host banner image URL
    pub host_banner_gfx_url: Option<String>,
}

/// Server group information
#[derive(Debug, Clone, Default)]
pub struct ServerGroup {
    /// Group ID
    pub id: u64,
    /// Group name
    pub name: String,
    /// Group type (0 = template, 1 = regular, 2 = query)
    pub group_type: u8,
    /// Icon ID
    pub icon_id: i64,
    /// Is the group saved to the database
    pub is_permanent: bool,
    /// Sort order
    pub sort_id: i32,
    /// Required member add power
    pub needed_member_add_power: i32,
    /// Required member remove power
    pub needed_member_remove_power: i32,
}

/// Channel group information
#[derive(Debug, Clone, Default)]
pub struct ChannelGroup {
    /// Group ID
    pub id: u64,
    /// Group name
    pub name: String,
    /// Group type
    pub group_type: u8,
    /// Icon ID
    pub icon_id: i64,
    /// Is permanent
    pub is_permanent: bool,
    /// Sort order
    pub sort_id: i32,
}

/// Complete server state
#[derive(Debug, Clone, Default)]
pub struct ServerState {
    /// Server information
    pub server: ServerInfo,
    /// All channels on the server
    pub channels: HashMap<u64, Channel>,
    /// All users currently connected
    pub users: HashMap<u16, User>,
    /// Server groups
    pub server_groups: HashMap<u64, ServerGroup>,
    /// Channel groups
    pub channel_groups: HashMap<u64, ChannelGroup>,
}

impl ServerState {
    /// Get a channel by ID
    pub fn channel(&self, id: u64) -> (r: Option<&Channel>)
        ensures
            match r {
                Some(c) => self.channels@.contains_key(id) && *c == self.channels@[id],
                None => !self.channels@.contains_key(id),
            },
    {
        self.channels.get(&id)
    }

    /// Get a user by ID
    pub fn user(&self, id: u16) -> (r: Option<&User>)
        ensures
            match r {
                Some(u) => self.users@.contains_key(id) && *u == self.users@[id],
                None => !self.users@.contains_key(id),
            },
    {
        self.users.get(&id)
    }

    /// Get all users in a specific channel
    pub fn users_in_channel(&self, channel_id: u64) -> (r: Vec<&User>)
        ensures
            exists|v: Seq<(u16, User)>|
                enumerates(self.users@, v) && deref_all(r@) == select(
                    v,
                    |u: User| u.channel_id == channel_id,
                ),
    {
        let ghost p = |u: User| u.channel_id == channel_id;
        let ghost v = unpair(vstd::std_specs::hash::spec_hash_map_iter(&self.users).remaining());
        let mut r: Vec<&User> = Vec::new();
        assert(deref_all(r@) =~= Seq::<User>::empty());
        for pair in it: self.users.iter()
            invariant
                it.seq() == vstd::std_specs::hash::spec_hash_map_iter(&self.users).remaining(),
                it.seq().no_duplicates(),
                v == unpair(it.seq()),
                forall|x: User| #[trigger] p(x) == (x.channel_id == channel_id),
                deref_all(r@) == select(v.take(it.index() as int), p),
        {
            let (_, u) = pair;
            let ghost before = r@;
            proof {
                let i = it.index() as int;
                assert(pair == it.seq()[i]);
                assert(*u == v[i].1);
                lemma_select_step(v, i, p);
            }
            if u.channel_id == channel_id {
                r.push(u);
                assert(deref_all(r@) =~= deref_all(before).push(*u));
            }
        }
        proof {
            assert(v.take(v.len() as int) =~= v);
            lemma_enumerates_iter(&self.users);
        }
        r
    }

    /// Get the root channels (no parent)
    pub fn root_channels(&self) -> (r: Vec<&Channel>)
        ensures
            exists|v: Seq<(u64, Channel)>|
                enumerates(self.channels@, v) && deref_all(r@) == select(
                    v,
                    |c: Channel| c.parent_id == 0,
                ),
    {
        self.child_channels(0)
    }

    /// Get child channels of a parent
    pub fn child_channels(&self, parent_id: u64) -> (r: Vec<&Channel>)
        ensures
            exists|v: Seq<(u64, Channel)>|
                enumerates(self.channels@, v) && deref_all(r@) == select(
                    v,
                    |c: Channel| c.parent_id == parent_id,
                ),
    {
        let ghost p = |c: Channel| c.parent_id == parent_id;
        let ghost v = unpair(vstd::std_specs::hash::spec_hash_map_iter(&self.channels).remaining());
        let mut r: Vec<&Channel> = Vec::new();
        assert(deref_all(r@) =~= Seq::<Channel>::empty());
        for pair in it: self.channels.iter()
            invariant
                it.seq() == vstd::std_specs::hash::spec_hash_map_iter(&self.channels).remaining(),
                it.seq().no_duplicates(),
                v == unpair(it.seq()),
                forall|x: Channel| #[trigger] p(x) == (x.parent_id == parent_id),
                deref_all(r@) == select(v.take(it.index() as int), p),
        {
            let (_, c) = pair;
            let ghost before = r@;
            proof {
                let i = it.index() as int;
                assert(pair == it.seq()[i]);
                assert(*c == v[i].1);
                lemma_select_step(v, i, p);
            }
            if c.parent_id == parent_id {
                r.push(c);
                assert(deref_all(r@) =~= deref_all(before).push(*c));
            }
        }
        proof {
            assert(v.take(v.len() as int) =~= v);
            lemma_enumerates_iter(&self.channels);
        }
        r
    }

    /// Find a channel by name
    pub fn find_channel_by_name(&self, name: &str) -> (r: Option<&Channel>)
        ensures
            exists|v: Seq<(u64, Channel)>|
                enumerates(self.channels@, v) && opt_deref(r) == first(
                    v,
                    channel_named(name@),
                ),
            r is None <==> forall|k: u64|
                #[trigger] self.channels@.contains_key(k) ==> self.channels@[k].name@ != name@,
            r matches Some(c) ==> c.name@ == name@,
    {
        let ghost p = channel_named(name@);
        let ghost v = unpair(vstd::std_specs::hash::spec_hash_map_iter(&self.channels).remaining());
        for pair in it: self.channels.iter()
            invariant
                it.seq() == vstd::std_specs::hash::spec_hash_map_iter(&self.channels).remaining(),
                it.seq().no_duplicates(),
                v == unpair(it.seq()),
                p == channel_named(name@),
                forall|j: int| 0 <= j < it.index() ==> !p(#[trigger] v[j].1),
        {
            let (_, c) = pair;
            proof {
                let i = it.index() as int;
                assert(pair == it.seq()[i]);
                assert(*c == v[i].1);
                lemma_enumerates_iter(&self.channels);
            }
            if str_eq(c.name.as_str(), name) {
                proof {
                    lemma_first_at(v, it.index() as int, p);
                    assert(enumerates(self.channels@, v) && opt_deref(Some(c)) == first(
                        v,
                        channel_named(name@),
                    ));
                }
                return Some(c);
            }
        }
        proof {
            lemma_enumerates_iter(&self.channels);
            lemma_first_none(v, p);
            lemma_none_all(self.channels@, v, p);
        }
        None
    }

    /// Find a user by nickname
    pub fn find_user_by_name(&self, name: &str) -> (r: Option<&User>)
        ensures
            exists|v: Seq<(u16, User)>|
                enumerates(self.users@, v) && opt_deref(r) == first(
                    v,
                    user_named(name@),
                ),
            r is None <==> forall|k: u16|
                #[trigger] self.users@.contains_key(k) ==> self.users@[k].nickname@ != name@,
            r matches Some(c) ==> c.nickname@ == name@,
    {
        let ghost p = user_named(name@);
        let ghost v = unpair(vstd::std_specs::hash::spec_hash_map_iter(&self.users).remaining());
        for pair in it: self.users.iter()
            invariant
                it.seq() == vstd::std_specs::hash::spec_hash_map_iter(&self.users).remaining(),
                it.seq().no_duplicates(),
                v == unpair(it.seq()),
                p == user_named(name@),
                forall|j: int| 0 <= j < it.index() ==> !p(#[trigger] v[j].1),
        {
            let (_, c) = pair;
            proof {
                let i = it.index() as int;
                assert(pair == it.seq()[i]);
                assert(*c == v[i].1);
                lemma_enumerates_iter(&self.users);
            }
            if str_eq(c.nickname.as_str(), name) {
                proof {
                    lemma_first_at(v, it.index() as int, p);
                    assert(enumerates(self.users@, v) && opt_deref(Some(c)) == first(
                        v,
                        user_named(name@),
                    ));
                }
                return Some(c);
            }
        }
        proof {
            lemma_enumerates_iter(&self.users);
            lemma_first_none(v, p);
            lemma_none_all(self.users@, v, p);
        }
        None
    }
}

/// Channels with the given name.
pub open spec fn channel_named(n: Seq<char>) -> spec_fn(Channel) -> bool {
    |c: Channel| c.name@ == n
}

/// Users with the given nickname.
pub open spec fn user_named(n: Seq<char>) -> spec_fn(User) -> bool {
    |u: User| u.nickname@ == n
}

/// The value an optional reference points at.
pub open spec fn opt_deref<V>(o: Option<&V>) -> Option<V> {
    match o {
        Some(r) => Some(*r),
        None => None,
    }
}

/// The first entry satisfying `p` is at `i` when none before it does.
pub proof fn lemma_first_at<K, V>(v: Seq<(K, V)>, i: int, p: spec_fn(V) -> bool)
    requires
        0 <= i < v.len(),
        p(v[i].1),
        forall|j: int| 0 <= j < i ==> !p(#[trigger] v[j].1),
    ensures
        first(v, p) == Some(v[i].1),
    decreases i,
{
    if i > 0 {
        assert(!p(v[0].1));
        let w = v.drop_first();
        assert forall|j: int| 0 <= j < i - 1 implies !p(#[trigger] w[j].1) by {
            assert(w[j] == v[j + 1]);
        }
        lemma_first_at(w, i - 1, p);
    }
}

/// No entry satisfies `p`: there is no first one.
pub proof fn lemma_first_none<K, V>(v: Seq<(K, V)>, p: spec_fn(V) -> bool)
    requires
        forall|j: int| 0 <= j < v.len() ==> !p(#[trigger] v[j].1),
    ensures
        first(v, p) is None,
    decreases v.len(),
{
    if v.len() > 0 {
        assert(!p(v[0].1));
        let w = v.drop_first();
        assert forall|j: int| 0 <= j < w.len() implies !p(#[trigger] w[j].1) by {
            assert(w[j] == v[j + 1]);
        }
        lemma_first_none(w, p);
    }
}

/// When no listed entry satisfies `p`, no entry of the map does.
pub proof fn lemma_none_all<K, V>(m: Map<K, V>, v: Seq<(K, V)>, p: spec_fn(V) -> bool)
    requires
        enumerates(m, v),
        forall|j: int| 0 <= j < v.len() ==> !p(#[trigger] v[j].1),
    ensures
        forall|k: K| #[trigger] m.contains_key(k) ==> !p(m[k]),
{
    assert forall|k: K| #[trigger] m.contains_key(k) implies !p(m[k]) by {
        let i = choose|i: int| 0 <= i < v.len() && v[i].0 == k;
        assert(!p(v[i].1));
    }
}

/// One more entry of a selection.
pub proof fn lemma_select_step<K, V>(v: Seq<(K, V)>, i: int, p: spec_fn(V) -> bool)
    requires
        0 <= i < v.len(),
    ensures
        select(v.take(i + 1), p) == if p(v[i].1) {
            select(v.take(i), p).push(v[i].1)
        } else {
            select(v.take(i), p)
        },
{
    let s = v.take(i + 1);
    assert(s.drop_last() =~= v.take(i));
    assert(s.last() == v[i]);
}

/// A map iteration lists every entry exactly once.
pub proof fn lemma_enumerates_iter<K, V>(m: &HashMap<K, V>)
    requires
        vstd::std_specs::hash::obeys_key_model::<K>(),
        vstd::std_specs::hash::spec_hash_map_iter(m).remaining().no_duplicates(),
    ensures
        enumerates(m@, unpair(vstd::std_specs::hash::spec_hash_map_iter(m).remaining())),
{
    let s = vstd::std_specs::hash::spec_hash_map_iter(m).remaining();
    let v = unpair(s);
    assert forall|i: int| 0 <= i < v.len() implies m@.contains_key(#[trigger] v[i].0) && m@[v[i].0]
        == v[i].1 by {
        assert(m@.contains_key(*s[i].0));
    }
    assert forall|k: K| #[trigger] m@.contains_key(k) implies exists|i: int|
        0 <= i < v.len() && v[i].0 == k by {
        assert(s.contains((&k, &m@[k])));
        let i = choose|i: int| 0 <= i < s.len() && s[i] == (&k, &m@[k]);
        assert(v[i].0 == k);
    }
    assert forall|i: int, j: int| 0 <= i < j < v.len() implies v[i].0 != v[j].0 by {
        assert(m@.contains_key(*s[i].0));
        assert(m@.contains_key(*s[j].0));
        if v[i].0 == v[j].0 {
            assert(s[i] == s[j]);
        }
    }
}

} // verus!
