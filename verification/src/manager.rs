//! Channel creation builder

use vstd::prelude::*;
use crate::state::Channel;
use crate::text::{chars_of, string_of};

verus! {

fn owned(s: &str) -> (r: String)
    ensures
        r@ == s@,
{
    string_of(&chars_of(s))
}

/// Channel creation builder
#[derive(Debug, Clone)]
pub struct ChannelBuilder {
    name: Option<String>,
    parent_id: u64,
    topic: Option<String>,
    description: Option<String>,
    password: Option<String>,
    codec: u8,
    codec_quality: u8,
    max_clients: i32,
    is_permanent: bool,
    is_semi_permanent: bool,
    order: i32,
}

/// The characters of an optional string.
pub open spec fn opt_view(o: Option<String>) -> Option<Seq<char>> {
    match o {
        Some(s) => Some(s@),
        None => None,
    }
}

/// The value a quality setting is clamped to: 1 to 10.
pub open spec fn clamp_quality(q: u8) -> u8 {
    if q < 1 {
        1
    } else if q > 10 {
        10
    } else {
        q
    }
}

impl Default for ChannelBuilder {
    /// No name, so nothing can be built until one is given; every other setting zero,
    /// empty or off.
    fn default() -> (b: ChannelBuilder)
        ensures
            b.spec_name() is None,
            b.spec_parent_id() == 0,
            b.spec_topic() is None,
            b.spec_description() is None,
            b.spec_password() is None,
            b.spec_codec() == 0,
            b.spec_codec_quality() == 0,
            b.spec_max_clients() == 0,
            b.spec_lifetime() == (false, false),
            b.spec_order() == 0,
    {
        ChannelBuilder {
            name: None,
            parent_id: 0,
            topic: None,
            description: None,
            password: None,
            codec: 0,
            codec_quality: 0,
            max_clients: 0,
            is_permanent: false,
            is_semi_permanent: false,
            order: 0,
        }
    }
}

impl ChannelBuilder {
    /// The name given.
    pub closed spec fn spec_name(&self) -> Option<Seq<char>> {
        opt_view(self.name)
    }

    /// The parent channel's id (0: a root channel).
    pub closed spec fn spec_parent_id(&self) -> u64 {
        self.parent_id
    }

    /// The topic set.
    pub closed spec fn spec_topic(&self) -> Option<Seq<char>> {
        opt_view(self.topic)
    }

    /// The description set.
    pub closed spec fn spec_description(&self) -> Option<Seq<char>> {
        opt_view(self.description)
    }

    /// The password set.
    pub closed spec fn spec_password(&self) -> Option<Seq<char>> {
        opt_view(self.password)
    }

    /// The codec id.
    pub closed spec fn spec_codec(&self) -> u8 {
        self.codec
    }

    /// The codec quality.
    pub closed spec fn spec_codec_quality(&self) -> u8 {
        self.codec_quality
    }

    /// The client limit (-1: unlimited).
    pub closed spec fn spec_max_clients(&self) -> i32 {
        self.max_clients
    }

    /// Permanent and semi-permanent flags.
    pub closed spec fn spec_lifetime(&self) -> (bool, bool) {
        (self.is_permanent, self.is_semi_permanent)
    }

    /// The sort order.
    pub closed spec fn spec_order(&self) -> i32 {
        self.order
    }

    /// Two builders agree on everything but the settings named by `but`, an index per setting
    /// in declaration order (0 name, 1 parent, 2 topic, 3 description, 4 password, 5 codec, 6 quality, 7 client
    /// limit, 8 both lifetime flags, 9 order).
    pub open spec fn same_except(&self, other: &ChannelBuilder, but: int) -> bool {
        &&& (but != 0 ==> self.spec_name() == other.spec_name())
        &&& (but != 1 ==> self.spec_parent_id() == other.spec_parent_id())
        &&& (but != 2 ==> self.spec_topic() == other.spec_topic())
        &&& (but != 3 ==> self.spec_description() == other.spec_description())
        &&& (but != 4 ==> self.spec_password() == other.spec_password())
        &&& (but != 5 ==> self.spec_codec() == other.spec_codec())
        &&& (but != 6 ==> self.spec_codec_quality() == other.spec_codec_quality())
        &&& (but != 7 ==> self.spec_max_clients() == other.spec_max_clients())
        &&& (but != 8 ==> self.spec_lifetime() == other.spec_lifetime())
        &&& (but != 9 ==> self.spec_order() == other.spec_order())
    }

    /// Create a new channel builder
    pub fn new(name: &str) -> (b: ChannelBuilder)
        ensures
            b.spec_name() == Some(name@),
            b.spec_parent_id() == 0,
            b.spec_topic() is None,
            b.spec_description() is None,
            b.spec_password() is None,
            b.spec_codec() == 4,
            b.spec_codec_quality() == 6,
            b.spec_max_clients() == -1,
            b.spec_lifetime() == (false, false),
            b.spec_order() == 0,
    {
        ChannelBuilder {
            name: Some(owned(name)),
            parent_id: 0,
            topic: None,
            description: None,
            password: None,
            codec: 4,
            codec_quality: 6,
            max_clients: -1,
            is_permanent: false,
            is_semi_permanent: false,
            order: 0,
        }
    }

    /// Set parent channel
    pub fn parent(self, parent_id: u64) -> (b: ChannelBuilder)
        ensures
            b.spec_parent_id() == parent_id,
            b.same_except(&self, 1),
    {
        let mut b = self;
        b.parent_id = parent_id;
        b
    }

    /// Set topic
    pub fn topic(self, topic: &str) -> (b: ChannelBuilder)
        ensures
            b.spec_topic() == Some(topic@),
            b.same_except(&self, 2),
    {
        let mut b = self;
        b.topic = Some(owned(topic));
        b
    }

    /// Set description
    pub fn description(self, description: &str) -> (b: ChannelBuilder)
        ensures
            b.spec_description() == Some(description@),
            b.same_except(&self, 3),
    {
        let mut b = self;
        b.description = Some(owned(description));
        b
    }

    /// Set password
    pub fn password(self, password: &str) -> (b: ChannelBuilder)
        ensures
            b.spec_password() == Some(password@),
            b.same_except(&self, 4),
    {
        let mut b = self;
        b.password = Some(owned(password));
        b
    }

    /// Set codec (4 = Opus Voice, 5 = Opus Music)
    pub fn codec(self, codec: u8) -> (b: ChannelBuilder)
        ensures
            b.spec_codec() == codec,
            b.same_except(&self, 5),
    {
        let mut b = self;
        b.codec = codec;
        b
    }

    /// Set codec quality (1-10)
    pub fn codec_quality(self, quality: u8) -> (b: ChannelBuilder)
        ensures
            b.spec_codec_quality() == clamp_quality(quality),
            b.same_except(&self, 6),
    {
        let mut b = self;
        b.codec_quality = if quality < 1 {
            1
        } else if quality > 10 {
            10
        } else {
            quality
        };
        b
    }

    /// Set max clients (-1 for unlimited)
    pub fn max_clients(self, max: i32) -> (b: ChannelBuilder)
        ensures
            b.spec_max_clients() == max,
            b.same_except(&self, 7),
    {
        let mut b = self;
        b.max_clients = max;
        b
    }

    /// Make channel permanent
    pub fn permanent(self) -> (b: ChannelBuilder)
        ensures
            b.spec_lifetime() == (true, false),
            b.same_except(&self, 8),
    {
        let mut b = self;
        b.is_permanent = true;
        b.is_semi_permanent = false;
        b
    }

    /// Make channel semi-permanent
    pub fn semi_permanent(self) -> (b: ChannelBuilder)
        ensures
            b.spec_lifetime() == (false, true),
            b.same_except(&self, 8),
    {
        let mut b = self;
        b.is_semi_permanent = true;
        b.is_permanent = false;
        b
    }

    /// Make channel temporary (default)
    pub fn temporary(self) -> (b: ChannelBuilder)
        ensures
            b.spec_lifetime() == (false, false),
            b.same_except(&self, 8),
    {
        let mut b = self;
        b.is_permanent = false;
        b.is_semi_permanent = false;
        b
    }

    /// Set channel order
    pub fn order(self, order: i32) -> (b: ChannelBuilder)
        ensures
            b.spec_order() == order,
            b.same_except(&self, 9),
    {
        let mut b = self;
        b.order = order;
        b
    }

    /// Build the channel (for local use, not server creation)
    pub fn build(self) -> (r: Option<Channel>)
        ensures
            match r {
                None => self.spec_name() is None,
                Some(c) => {
                    &&& self.spec_name() == Some(c.name@)
                    &&& c.id == 0
                    &&& c.parent_id == self.spec_parent_id()
                    &&& opt_view(c.topic) == self.spec_topic()
                    &&& opt_view(c.description) == self.spec_description()
                    &&& c.order == self.spec_order()
                    &&& (c.is_permanent, c.is_semi_permanent) == self.spec_lifetime()
                    &&& !c.is_default
                    &&& c.has_password == self.spec_password() is Some
                    &&& c.codec == self.spec_codec()
                    &&& c.codec_quality == self.spec_codec_quality()
                    &&& c.max_clients == self.spec_max_clients()
                    &&& c.max_family_clients == -1
                    &&& c.needed_talk_power == 0
                    &&& c.icon_id == 0
                    &&& !c.is_subscribed
                    &&& c.permission_hints == 0
                },
            },
    {
        let name = match self.name {
            Some(n) => n,
            None => return None,
        };
        Some(
            Channel {
                id: 0,
                parent_id: self.parent_id,
                name,
                topic: self.topic,
                description: self.description,
                order: self.order,
                is_permanent: self.is_permanent,
                is_semi_permanent: self.is_semi_permanent,
                is_default: false,
                has_password: self.password.is_some(),
                codec: self.codec,
                codec_quality: self.codec_quality,
                max_clients: self.max_clients,
                max_family_clients: -1,
                needed_talk_power: 0,
                icon_id: 0,
                is_subscribed: false,
                permission_hints: 0,
            },
        )
    }
}

} // verus!
