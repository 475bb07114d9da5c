//! Bot configuration and its builder.
//!
//! The identity a bot signs in with is a type parameter: the library only
//! carries it from the builder into the configuration, and makes one through a
//! caller-supplied function when none was given.

use vstd::prelude::*;
use std::time::Duration;
use crate::error::BotError;
use crate::manager::opt_view;
use crate::timing::{duration_from_secs, duration_is_zero, is_zero_span, seconds};

verus! {

/// The characters of each string, in order.
pub open spec fn texts(v: Seq<String>) -> Seq<Seq<char>> {
    v.map_values(|s: String| s@)
}

/// Bot configuration builder
#[derive(Debug, Clone)]
pub struct BotConfigBuilder<I> {
    address: Option<String>,
    identity: Option<I>,
    nickname: Option<String>,
    password: Option<String>,
    channel: Option<String>,
    channel_password: Option<String>,
    command_prefix: String,
    owners: Vec<String>,
    auto_reconnect: bool,
    reconnect_delay: Duration,
}

/// Bot configuration
#[derive(Debug, Clone)]
pub struct BotConfig<I> {
    /// Server address
    pub address: String,
    /// Bot identity
    pub identity: I,
    /// Bot nickname
    pub nickname: String,
    /// Server password
    pub password: Option<String>,
    /// Default channel
    pub channel: Option<String>,
    /// Channel password
    pub channel_password: Option<String>,
    /// Command prefix
    pub command_prefix: String,
    /// Bot owners (unique IDs)
    pub owners: Vec<String>,
    /// Auto-reconnect on disconnect
    pub auto_reconnect: bool,
    /// Reconnect delay
    pub reconnect_delay: Duration,
}

impl<I> Default for BotConfigBuilder<I> {
    /// Nothing set: no address, identity, nickname or passwords, an empty prefix,
    /// no owners, no reconnecting, and a zero delay.
    fn default() -> (b: Self)
        ensures
            b.spec_address() is None,
            b.spec_identity() is None,
            b.spec_nickname() is None,
            b.spec_password() is None,
            b.spec_channel() is None,
            b.spec_channel_password() is None,
            b.spec_command_prefix() == Seq::<char>::empty(),
            b.spec_owners() == Seq::<Seq<char>>::empty(),
            !b.spec_auto_reconnect(),
            b.spec_reconnect_delay() == duration_from_secs(0),
    {
        let b = BotConfigBuilder {
            address: None,
            identity: None,
            nickname: None,
            password: None,
            channel: None,
            channel_password: None,
            command_prefix: String::new(),
            owners: Vec::new(),
            auto_reconnect: false,
            reconnect_delay: seconds(0),
        };
        assert(texts(b.owners@) =~= Seq::<Seq<char>>::empty());
        b
    }
}

impl<I> BotConfigBuilder<I> {
    /// The server address set.
    pub closed spec fn spec_address(&self) -> Option<Seq<char>> {
        opt_view(self.address)
    }

    /// The identity set.
    pub closed spec fn spec_identity(&self) -> Option<I> {
        self.identity
    }

    /// The nickname set.
    pub closed spec fn spec_nickname(&self) -> Option<Seq<char>> {
        opt_view(self.nickname)
    }

    /// The server password set.
    pub closed spec fn spec_password(&self) -> Option<Seq<char>> {
        opt_view(self.password)
    }

    /// The default channel set.
    pub closed spec fn spec_channel(&self) -> Option<Seq<char>> {
        opt_view(self.channel)
    }

    /// The channel password set.
    pub closed spec fn spec_channel_password(&self) -> Option<Seq<char>> {
        opt_view(self.channel_password)
    }

    /// The command prefix set (empty: not set).
    pub closed spec fn spec_command_prefix(&self) -> Seq<char> {
        self.command_prefix@
    }

    /// The owners added, in order.
    pub closed spec fn spec_owners(&self) -> Seq<Seq<char>> {
        texts(self.owners@)
    }

    /// Whether reconnecting is on.
    pub closed spec fn spec_auto_reconnect(&self) -> bool {
        self.auto_reconnect
    }

    /// The reconnect delay set.
    pub closed spec fn spec_reconnect_delay(&self) -> Duration {
        self.reconnect_delay
    }

    /// Two builders agree on every setting but the one numbered `but`, in
    /// declaration order (0 address, 1 identity, 2 nickname, 3 password, 4 channel,
    /// 5 channel password, 6 prefix, 7 owners, 8 reconnecting, 9 delay).
    pub open spec fn same_except(&self, other: &Self, but: int) -> bool {
        &&& (but != 0 ==> self.spec_address() == other.spec_address())
        &&& (but != 1 ==> self.spec_identity() == other.spec_identity())
        &&& (but != 2 ==> self.spec_nickname() == other.spec_nickname())
        &&& (but != 3 ==> self.spec_password() == other.spec_password())
        &&& (but != 4 ==> self.spec_channel() == other.spec_channel())
        &&& (but != 5 ==> self.spec_channel_password() == other.spec_channel_password())
        &&& (but != 6 ==> self.spec_command_prefix() == other.spec_command_prefix())
        &&& (but != 7 ==> self.spec_owners() == other.spec_owners())
        &&& (but != 8 ==> self.spec_auto_reconnect() == other.spec_auto_reconnect())
        &&& (but != 9 ==> self.spec_reconnect_delay() == other.spec_reconnect_delay())
    }

    /// Set the server address
    pub fn address(self, address: &str) -> (b: Self)
        ensures
            b.spec_address() == Some(address@),
            b.same_except(&self, 0),
    {
        BotConfigBuilder { address: Some(address.to_owned()), ..self }
    }

    /// Set the identity
    pub fn identity(self, identity: I) -> (b: Self)
        ensures
            b.spec_identity() == Some(identity),
            b.same_except(&self, 1),
    {
        BotConfigBuilder { identity: Some(identity), ..self }
    }

    /// Set the nickname
    pub fn nickname(self, nickname: &str) -> (b: Self)
        ensures
            b.spec_nickname() == Some(nickname@),
            b.same_except(&self, 2),
    {
        BotConfigBuilder { nickname: Some(nickname.to_owned()), ..self }
    }

    /// Set the server password
    pub fn password(self, password: &str) -> (b: Self)
        ensures
            b.spec_password() == Some(password@),
            b.same_except(&self, 3),
    {
        BotConfigBuilder { password: Some(password.to_owned()), ..self }
    }

    /// Set the default channel
    pub fn channel(self, channel: &str) -> (b: Self)
        ensures
            b.spec_channel() == Some(channel@),
            b.same_except(&self, 4),
    {
        BotConfigBuilder { channel: Some(channel.to_owned()), ..self }
    }

    /// Set the channel password
    pub fn channel_password(self, password: &str) -> (b: Self)
        ensures
            b.spec_channel_password() == Some(password@),
            b.same_except(&self, 5),
    {
        BotConfigBuilder { channel_password: Some(password.to_owned()), ..self }
    }

    /// Set the command prefix
    pub fn command_prefix(self, prefix: &str) -> (b: Self)
        ensures
            b.spec_command_prefix() == prefix@,
            b.same_except(&self, 6),
    {
        BotConfigBuilder { command_prefix: prefix.to_owned(), ..self }
    }

    /// Add a bot owner (by unique ID)
    pub fn owner(self, uid: &str) -> (b: Self)
        ensures
            b.spec_owners() == self.spec_owners().push(uid@),
            b.same_except(&self, 7),
    {
        let mut owners = self.owners;
        let ghost before = owners@;
        owners.push(uid.to_owned());
        assert(texts(owners@) =~= texts(before).push(uid@));
        BotConfigBuilder { owners, ..self }
    }

    /// Add multiple bot owners, in order
    pub fn owners(self, uids: Vec<&str>) -> (b: Self)
        ensures
            b.spec_owners() == self.spec_owners() + uids@.map_values(|u: &str| u@),
            b.same_except(&self, 7),
    {
        let mut owners = self.owners;
        let ghost before = texts(owners@);
        let mut i: usize = 0;
        while i < uids.len()
            invariant
                i <= uids.len(),
                texts(owners@) == before + uids@.take(i as int).map_values(|u: &str| u@),
            decreases uids.len() - i,
        {
            let ghost prev = owners@;
            owners.push(uids[i].to_owned());
            assert(texts(owners@) =~= texts(prev).push(uids@[i as int]@));
            assert(uids@.take(i + 1).map_values(|u: &str| u@) =~= uids@.take(i as int).map_values(
                |u: &str| u@,
            ).push(uids@[i as int]@));
            i += 1;
        }
        assert(uids@.take(uids.len() as int) =~= uids@);
        BotConfigBuilder { owners, ..self }
    }

    /// Enable/disable auto-reconnect
    pub fn auto_reconnect(self, enabled: bool) -> (b: Self)
        ensures
            b.spec_auto_reconnect() == enabled,
            b.same_except(&self, 8),
    {
        BotConfigBuilder { auto_reconnect: enabled, ..self }
    }

    /// Set reconnect delay
    pub fn reconnect_delay(self, delay: Duration) -> (b: Self)
        ensures
            b.spec_reconnect_delay() == delay,
            b.same_except(&self, 9),
    {
        BotConfigBuilder { reconnect_delay: delay, ..self }
    }

    /// Build the configuration. Without an address this fails; without an
    /// identity, `create_identity` makes one; an unset nickname becomes
    /// `TsLibBot`, an empty prefix `!`, and a zero delay five seconds, so a
    /// built configuration always has a prefix and a delay that is not zero.
    pub fn build<F: FnOnce() -> I>(self, create_identity: F) -> (r: Result<BotConfig<I>, BotError>)
        requires
            self.spec_identity() is None ==> call_requires(create_identity, ()),
        ensures
            r is Err <==> self.spec_address() is None,
            r matches Err(e) ==> e matches BotError::Config(m) && m@ == "Server address is required"@,
            r matches Ok(cfg) ==> {
                &&& self.spec_address() == Some(cfg.address@)
                &&& match self.spec_identity() {
                    Some(id) => cfg.identity == id,
                    None => call_ensures(create_identity, (), cfg.identity),
                }
                &&& cfg.nickname@ == match self.spec_nickname() {
                    Some(n) => n,
                    None => "TsLibBot"@,
                }
                &&& opt_view(cfg.password) == self.spec_password()
                &&& opt_view(cfg.channel) == self.spec_channel()
                &&& opt_view(cfg.channel_password) == self.spec_channel_password()
                &&& cfg.command_prefix@ == if self.spec_command_prefix().len() == 0 {
                    "!"@
                } else {
                    self.spec_command_prefix()
                }
                &&& texts(cfg.owners@) == self.spec_owners()
                &&& cfg.auto_reconnect == self.spec_auto_reconnect()
                &&& cfg.reconnect_delay == if duration_is_zero(self.spec_reconnect_delay()) {
                    duration_from_secs(5)
                } else {
                    self.spec_reconnect_delay()
                }
                &&& cfg.command_prefix@.len() > 0
                &&& !duration_is_zero(cfg.reconnect_delay)
            },
    {
        let address = match self.address {
            Some(a) => a,
            None => {
                return Err(BotError::Config("Server address is required".to_owned()));
            },
        };
        let identity = match self.identity {
            Some(id) => id,
            None => create_identity(),
        };
        let nickname = match self.nickname {
            Some(n) => n,
            None => "TsLibBot".to_owned(),
        };
        let command_prefix = if self.command_prefix.as_str().is_empty() {
            proof {
                reveal_strlit("!");
            }
            "!".to_owned()
        } else {
            self.command_prefix
        };
        let reconnect_delay = if is_zero_span(&self.reconnect_delay) {
            seconds(5)
        } else {
            self.reconnect_delay
        };
        Ok(
            BotConfig {
                address,
                identity,
                nickname,
                password: self.password,
                channel: self.channel,
                channel_password: self.channel_password,
                command_prefix,
                owners: self.owners,
                auto_reconnect: self.auto_reconnect,
                reconnect_delay,
            },
        )
    }
}

impl<I> BotConfig<I> {
    /// Create a new configuration builder
    pub fn builder() -> (b: BotConfigBuilder<I>)
        ensures
            b.spec_address() is None,
            b.spec_identity() is None,
            b.spec_nickname() is None,
            b.spec_password() is None,
            b.spec_channel() is None,
            b.spec_channel_password() is None,
            b.spec_command_prefix() == Seq::<char>::empty(),
            b.spec_owners() == Seq::<Seq<char>>::empty(),
            !b.spec_auto_reconnect(),
            b.spec_reconnect_delay() == duration_from_secs(0),
    {
        BotConfigBuilder::default()
    }

    /// Whether `uid` is one of the bot's owners
    pub fn is_owner(&self, uid: &str) -> (r: bool)
        ensures
            r == texts(self.owners@).contains(uid@),
    {
        let mut i: usize = 0;
        while i < self.owners.len()
            invariant
                i <= self.owners.len(),
                forall|j: int| 0 <= j < i ==> self.owners@[j]@ != uid@,
            decreases self.owners.len() - i,
        {
            if crate::text::str_eq(self.owners[i].as_str(), uid) {
                assert(texts(self.owners@)[i as int] == uid@);
                return true;
            }
            i += 1;
        }
        assert(!texts(self.owners@).contains(uid@)) by {
            if texts(self.owners@).contains(uid@) {
                let k = choose|k: int| 0 <= k < texts(self.owners@).len() && texts(self.owners@)[k] == uid@;
                assert(self.owners@[k]@ == uid@);
            }
        }
        false
    }
}

} // verus!
