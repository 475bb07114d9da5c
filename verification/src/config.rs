//! Client configuration: its builder, server addresses, hex ids and durations
//! written in seconds.

use vstd::prelude::*;
use rand::Rng;
use std::time::Duration;
use crate::error::Error;
use crate::manager::opt_view;
use crate::timing::{duration_from_secs, seconds};
use crate::text::{append_str, chars_of, decimal, decimal_chars_u64, string_of};

verus! {

/// The port a server listens on when its address names none.
pub const DEFAULT_PORT: u16 = 9987;

/// The lowercase hexadecimal digit of a value below 16.
pub open spec fn hex_digit(d: u8) -> char {
    if d < 10 {
        ((d + 48) as u8) as char
    } else {
        ((d + 87) as u8) as char
    }
}

/// Two lowercase hexadecimal digits per byte, most significant first.
pub open spec fn hex_of(bytes: Seq<u8>) -> Seq<char>
    decreases bytes.len(),
{
    if bytes.len() == 0 {
        Seq::empty()
    } else {
        hex_of(bytes.drop_last()) + seq![
            hex_digit(bytes.last() / 16),
            hex_digit(bytes.last() % 16),
        ]
    }
}

fn hex_char(d: u8) -> (c: char)
    requires
        d < 16,
    ensures
        c == hex_digit(d),
{
    if d < 10 {
        ((d + 48) as u8) as char
    } else {
        ((d + 87) as u8) as char
    }
}

/// Lowercase hexadecimal text of some bytes.
pub fn encode(bytes: &[u8]) -> (r: String)
    ensures
        r@ == hex_of(bytes@),
{
    let mut v: Vec<char> = Vec::new();
    let mut i: usize = 0;
    assert(bytes@.take(0) =~= Seq::<u8>::empty());
    while i < bytes.len()
        invariant
            i <= bytes.len(),
            v@ == hex_of(bytes@.take(i as int)),
        decreases bytes.len() - i,
    {
        let b = bytes[i];
        v.push(hex_char(b / 16));
        v.push(hex_char(b % 16));
        assert(bytes@.take(i + 1).drop_last() =~= bytes@.take(i as int));
        assert(bytes@.take(i + 1).last() == b);
        assert(v@ =~= hex_of(bytes@.take(i + 1)));
        i += 1;
    }
    assert(bytes@.take(bytes.len() as int) =~= bytes@);
    string_of(&v)
}

/// The index of the first `c` in `s`.
pub open spec fn first_index(s: Seq<char>, c: char) -> Option<int>
    decreases s.len(),
{
    if s.len() == 0 {
        None
    } else {
        match first_index(s.drop_last(), c) {
            Some(i) => Some(i),
            None => if s.last() == c {
                Some(s.len() - 1)
            } else {
                None
            },
        }
    }
}

fn find_char(s: &Vec<char>, c: char) -> (r: Option<usize>)
    ensures
        match r {
            Some(i) => first_index(s@, c) == Some(i as int) && i < s@.len(),
            None => first_index(s@, c) is None,
        },
{
    let mut i: usize = 0;
    while i < s.len()
        invariant
            i <= s.len(),
            first_index(s@.take(i as int), c) is None,
        decreases s.len() - i,
    {
        assert(s@.take(i + 1).drop_last() =~= s@.take(i as int));
        if s[i] == c {
            proof {
                lemma_first_index_prefix(s@, c, i as int);
            }
            return Some(i);
        }
        i += 1;
    }
    assert(s@.take(s.len() as int) =~= s@);
    None
}

proof fn lemma_first_index_prefix(s: Seq<char>, c: char, i: int)
    requires
        0 <= i < s.len(),
        s[i] == c,
        first_index(s.take(i), c) is None,
    ensures
        first_index(s, c) == Some(i),
    decreases s.len(),
{
    if s.len() - 1 == i {
        assert(s.drop_last() =~= s.take(i));
    } else {
        assert(s.drop_last().take(i) =~= s.take(i));
        lemma_first_index_prefix(s.drop_last(), c, i);
    }
}

/// The address with the default port appended when it names none (no ':' in it).
pub open spec fn normalized(address: Seq<char>) -> Seq<char> {
    if first_index(address, ':') is Some {
        address
    } else {
        address + ":9987"@
    }
}

/// Normalize a server address to `host:port`.
pub fn normalize_address(address: &str) -> (r: Result<String, Error>)
    ensures
        r matches Ok(s) && s@ == normalized(address@),
{
    let a = chars_of(address);
    if find_char(&a, ':').is_some() {
        Ok(string_of(&a))
    } else {
        let mut v = a;
        append_str(&mut v, ":9987");
        Ok(string_of(&v))
    }
}

/// The host part of an address: the text before its first ':', or all of it.
pub open spec fn host_part(address: Seq<char>) -> Seq<char> {
    match first_index(address, ':') {
        Some(i) => address.take(i),
        None => address,
    }
}

/// The port part of an address: the text between its first and second ':'.
pub open spec fn port_part(address: Seq<char>) -> Option<Seq<char>> {
    match first_index(address, ':') {
        Some(i) => {
            let rest = address.skip(i + 1);
            Some(
                match first_index(rest, ':') {
                    Some(j) => rest.take(j),
                    None => rest,
                },
            )
        },
        None => None,
    }
}

/// Get the host part of the address
pub fn host_of(address: &str) -> (r: String)
    ensures
        r@ == host_part(address@),
{
    let a = chars_of(address);
    match find_char(&a, ':') {
        Some(i) => {
            let mut v: Vec<char> = Vec::new();
            let mut k: usize = 0;
            while k < i
                invariant
                    k <= i <= a.len(),
                    v@ == a@.take(k as int),
                decreases i - k,
            {
                v.push(a[k]);
                k += 1;
                assert(v@ =~= a@.take(k as int));
            }
            string_of(&v)
        },
        None => string_of(&a),
    }
}

/// The value of a nonempty run of decimal digits.
pub open spec fn digits_value(s: Seq<char>) -> Option<nat>
    decreases s.len(),
{
    if s.len() == 0 {
        None
    } else if !('0' <= s.last() && s.last() <= '9') {
        None
    } else if s.len() == 1 {
        Some((s.last() as nat - '0' as nat) as nat)
    } else {
        match digits_value(s.drop_last()) {
            Some(v) => Some(v * 10 + (s.last() as nat - '0' as nat) as nat),
            None => None,
        }
    }
}

/// The number an unsigned integer parse reads: an optional '+', then decimal digits.
pub open spec fn unsigned_value(s: Seq<char>) -> Option<nat> {
    if s.len() > 0 && s[0] == '+' {
        digits_value(s.drop_first())
    } else {
        digits_value(s)
    }
}

/// Reads an unsigned number no greater than `max`.
fn parse_unsigned(s: &Vec<char>, max: u64) -> (r: Option<u64>)
    requires
        max >= 9,
    ensures
        match unsigned_value(s@) {
            Some(v) => if v <= max {
                r == Some(v as u64)
            } else {
                r is None
            },
            None => r is None,
        },
{
    let start: usize = if s.len() > 0 && s[0] == '+' {
        1
    } else {
        0
    };
    let ghost t = s@.skip(start as int);
    assert(start == 1 ==> t =~= s@.drop_first());
    assert(start == 0 ==> t =~= s@);
    assert(unsigned_value(s@) == digits_value(t));
    if start >= s.len() {
        assert(t.len() == 0);
        return None;
    }
    let mut value: u64 = 0;
    let mut too_big = false;
    let mut i: usize = start;
    while i < s.len()
        invariant
            start <= i <= s.len(),
            start < s.len(),
            t == s@.skip(start as int),
            unsigned_value(s@) == digits_value(t),
            max >= 9,
            i == start ==> value == 0 && !too_big,
            i > start ==> digits_value(t.take(i - start)) is Some,
            i > start && !too_big ==> digits_value(t.take(i - start)) == Some(value as nat)
                && value <= max,
            too_big ==> (i > start && (digits_value(t.take(i - start)) matches Some(v) && v > max)),
        decreases s.len() - i,
    {
        let c = s[i];
        let k = i - start;
        assert(t.take(k + 1).drop_last() =~= t.take(k as int));
        assert(t.take(k + 1).last() == c);
        assert(t[k as int] == c);
        if !('0' <= c && c <= '9') {
            proof {
                lemma_digits_bad_suffix(t, k + 1);
            }
            return None;
        }
        let d = (c as u32 - '0' as u32) as u64;
        proof {
            let x = t.take(k + 1);
            assert(x.drop_last() =~= t.take(k as int));
            assert(d as nat == (c as nat - '0' as nat));
            if k == 0 {
                assert(digits_value(x) == Some(d as nat));
            } else {
                assert(digits_value(x) == match digits_value(t.take(k as int)) {
                    Some(v) => Some((v * 10 + d) as nat),
                    None => None,
                });
            }
        }
        if !too_big {
            if value > (max - d) / 10 {
                too_big = true;
                proof {
                    assert(value * 10 + d > max) by (nonlinear_arith)
                        requires
                            value > (max - d) / 10,
                            d <= max || true,
                    {
                    }
                }
            } else {
                proof {
                    assert(value * 10 + d <= max) by (nonlinear_arith)
                        requires
                            value <= (max - d) / 10,
                    {
                    }
                }
                value = value * 10 + d;
            }
        } else {
            proof {
                let v = digits_value(t.take(k as int)).unwrap();
                assert(v * 10 + d > max) by (nonlinear_arith)
                    requires
                        v > max,
                {
                }
            }
        }
        i += 1;
    }
    assert(t.take(s.len() - start) =~= t);
    if too_big {
        None
    } else {
        Some(value)
    }
}

proof fn lemma_digits_bad_suffix(t: Seq<char>, n: int)
    requires
        0 < n <= t.len(),
        !('0' <= t[n - 1] && t[n - 1] <= '9'),
    ensures
        digits_value(t) is None,
    decreases t.len(),
{
    if t.len() == n {
        assert(t.last() == t[n - 1]);
    } else {
        assert(t.drop_last()[n - 1] == t[n - 1]);
        lemma_digits_bad_suffix(t.drop_last(), n);
    }
}

/// The port an address names: its port part read as a number that fits in 16
/// bits, or the default port.
pub open spec fn address_port(address: Seq<char>) -> u16 {
    match port_part(address) {
        Some(p) => match unsigned_value(p) {
            Some(v) => if v <= u16::MAX {
                v as u16
            } else {
                DEFAULT_PORT
            },
            None => DEFAULT_PORT,
        },
        None => DEFAULT_PORT,
    }
}

/// Get the port from the address (the default port where none can be read)
pub fn port_of(address: &str) -> (r: u16)
    ensures
        r == address_port(address@),
{
    let a = chars_of(address);
    match find_char(&a, ':') {
        Some(i) => {
            assert(i < a.len());
            let mut rest: Vec<char> = Vec::new();
            let mut k: usize = i + 1;
            while k < a.len()
                invariant
                    i < a.len(),
                    i + 1 <= k <= a.len(),
                    rest@ == a@.subrange(i + 1, k as int),
                decreases a.len() - k,
            {
                rest.push(a[k]);
                k += 1;
                assert(rest@ =~= a@.subrange(i + 1, k as int));
            }
            assert(rest@ =~= a@.skip(i + 1));
            let mut part: Vec<char> = Vec::new();
            let end = match find_char(&rest, ':') {
                Some(j) => j,
                None => rest.len(),
            };
            let mut k: usize = 0;
            while k < end
                invariant
                    k <= end <= rest.len(),
                    part@ == rest@.take(k as int),
                decreases end - k,
            {
                part.push(rest[k]);
                k += 1;
                assert(part@ =~= rest@.take(k as int));
            }
            assert(end == rest.len() ==> part@ =~= rest@);
            match parse_unsigned(&part, 65535) {
                Some(v) => v as u16,
                None => DEFAULT_PORT,
            }
        },
        None => DEFAULT_PORT,
    }
}


/// Normalizing an address twice gives what normalizing it once gives, and a normalized
/// address always names a port.
pub proof fn normalize_idempotent(address: Seq<char>)
    ensures
        normalized(normalized(address)) == normalized(address),
        first_index(normalized(address), ':') is Some,
{
    if first_index(address, ':') is None {
        let n = address + ":9987"@;
        reveal_strlit(":9987");
        assert(n[address.len() as int] == ':');
        lemma_first_index_some_at(n, ':', address.len() as int);
    }
}

proof fn lemma_first_index_some_at(s: Seq<char>, c: char, i: int)
    requires
        0 <= i < s.len(),
        s[i] == c,
    ensures
        first_index(s, c) is Some,
    decreases s.len(),
{
    if i < s.len() - 1 {
        assert(s.drop_last()[i] == c);
        lemma_first_index_some_at(s.drop_last(), c, i);
    }
}

/// A host without a port keeps its name, and gets the default port.
pub proof fn normalized_host_and_port(host: Seq<char>)
    requires
        first_index(host, ':') is None,
    ensures
        host_part(normalized(host)) == host,
        port_part(normalized(host)) == Some("9987"@),
{
    reveal_strlit(":9987");
    reveal_strlit("9987");
    let n = host + ":9987"@;
    lemma_first_index_extend(host, ":9987"@, ':');
    assert(n.take(host.len() as int) =~= host);
    let rest = n.skip(host.len() as int + 1);
    assert(rest =~= "9987"@);
    lemma_first_index_none_digits(rest);
}

proof fn lemma_first_index_extend(a: Seq<char>, b: Seq<char>, c: char)
    requires
        first_index(a, c) is None,
        b.len() > 0,
        b[0] == c,
    ensures
        first_index(a + b, c) == Some(a.len() as int),
    decreases b.len(),
{
    if b.len() == 1 {
        assert((a + b).drop_last() =~= a);
    } else {
        lemma_first_index_extend(a, b.drop_last(), c);
        assert((a + b).drop_last() =~= a + b.drop_last());
    }
}

proof fn lemma_first_index_none_digits(s: Seq<char>)
    requires
        forall|i: int| 0 <= i < s.len() ==> '0' <= #[trigger] s[i] <= '9',
    ensures
        first_index(s, ':') is None,
    decreases s.len(),
{
    if s.len() > 0 {
        assert forall|i: int| 0 <= i < s.len() - 1 implies '0' <= #[trigger] s.drop_last()[i] <= '9' by {
            assert(s.drop_last()[i] == s[i]);
        }
        lemma_first_index_none_digits(s.drop_last());
    }
}

/// Hex text has two digits per byte.
pub proof fn hex_two_digits_per_byte(bytes: Seq<u8>)
    ensures
        hex_of(bytes).len() == 2 * bytes.len(),
    decreases bytes.len(),
{
    if bytes.len() > 0 {
        hex_two_digits_per_byte(bytes.drop_last());
    }
}

proof fn lemma_decimal_digits(n: nat)
    ensures
        digits_value(decimal(n)) == Some(n),
        decimal(n).len() > 0,
        forall|i: int| 0 <= i < decimal(n).len() ==> '0' <= #[trigger] decimal(n)[i] <= '9',
    decreases n,
{
    if n >= 10 {
        lemma_decimal_digits(n / 10);
        let d = decimal(n);
        assert(d.drop_last() =~= decimal(n / 10));
        assert forall|i: int| 0 <= i < d.len() implies '0' <= #[trigger] d[i] <= '9' by {
            if i < d.len() - 1 {
                assert(d[i] == decimal(n / 10)[i]);
            }
        }
    }
}

/// A duration written in seconds reads back as the same number of seconds.
pub proof fn duration_text_round_trip(secs: u64)
    ensures
        unsigned_value(trim_end(decimal(secs as nat) + "s"@, 's')) == Some(secs as nat),
{
    reveal_strlit("s");
    let d = decimal(secs as nat);
    lemma_decimal_digits(secs as nat);
    let t = d + "s"@;
    assert(t.drop_last() =~= d);
    assert(trim_end(d, 's') == d);
    assert(d[0] != '+');
}

/// A duration written as whole seconds followed by `s`.
pub fn format_duration_secs(secs: u64) -> (r: String)
    ensures
        r@ == decimal(secs as nat) + "s"@,
{
    let mut v = decimal_chars_u64(secs);
    append_str(&mut v, "s");
    string_of(&v)
}

/// `s` without its trailing `c`s.
pub open spec fn trim_end(s: Seq<char>, c: char) -> Seq<char>
    decreases s.len(),
{
    if s.len() > 0 && s.last() == c {
        trim_end(s.drop_last(), c)
    } else {
        s
    }
}

/// Read a duration written as whole seconds: trailing `s`s dropped, then an unsigned number
/// that fits in 64 bits.
pub fn parse_duration_secs(text: &str) -> (r: Option<u64>)
    ensures
        match unsigned_value(trim_end(text@, 's')) {
            Some(v) => if v <= u64::MAX {
                r == Some(v as u64)
            } else {
                r is None
            },
            None => r is None,
        },
{
    let mut v = chars_of(text);
    while v.len() > 0 && v[v.len() - 1] == 's'
        invariant
            trim_end(v@, 's') == trim_end(text@, 's'),
        decreases v.len(),
    {
        let ghost before = v@;
        v.pop();
        assert(v@ =~= before.drop_last());
    }
    parse_unsigned(&v, u64::MAX)
}


/// `rand::thread_rng().gen::<[u8; 16]>()`: sixteen bytes from the thread's
/// random generator. Which bytes come back is left open.
#[verifier::external_body]
fn random_id_bytes() -> (r: Vec<u8>)
    ensures
        r@.len() == 16,
{
    let bytes: [u8; 16] = rand::thread_rng().gen();
    bytes.to_vec()
}

/// A fresh hardware id: sixteen random bytes as hex text.
pub fn generate_hardware_id() -> (r: String)
    ensures
        exists|bytes: Seq<u8>| bytes.len() == 16 && r@ == hex_of(bytes),
{
    let bytes = random_id_bytes();
    let r = encode(bytes.as_slice());
    assert(bytes@.len() == 16 && r@ == hex_of(bytes@));
    r
}

/// Client configuration builder
#[derive(Debug, Clone)]
pub struct ClientConfigBuilder<I> {
    address: Option<String>,
    identity: Option<I>,
    nickname: Option<String>,
    password: Option<String>,
    channel: Option<String>,
    channel_password: Option<String>,
    hardware_id: Option<String>,
    connect_timeout: Duration,
    auto_reconnect: bool,
    reconnect_delay: Duration,
    max_reconnect_attempts: u32,
}

/// Client configuration
#[derive(Debug, Clone)]
pub struct ClientConfig<I> {
    /// Server address (host:port)
    pub address: String,
    /// Identity for authentication
    pub identity: I,
    /// Display nickname
    pub nickname: String,
    /// Server password (optional)
    pub password: Option<String>,
    /// Default channel to join
    pub channel: Option<String>,
    /// Channel password (optional)
    pub channel_password: Option<String>,
    /// Hardware ID
    pub hardware_id: String,
    /// Connection timeout
    pub connect_timeout: Duration,
    /// Auto-reconnect on disconnect
    pub auto_reconnect: bool,
    /// Delay between reconnect attempts
    pub reconnect_delay: Duration,
    /// Maximum reconnect attempts
    pub max_reconnect_attempts: u32,
}

impl<I> Default for ClientConfigBuilder<I> {
    /// Nothing named yet; a ten-second connect timeout, reconnecting on, five
    /// seconds between at most five attempts.
    fn default() -> (b: Self)
        ensures
            b.spec_address() is None,
            b.spec_identity() is None,
            b.spec_nickname() is None,
            b.spec_password() is None,
            b.spec_channel() is None,
            b.spec_channel_password() is None,
            b.spec_hardware_id() is None,
            b.spec_connect_timeout() == duration_from_secs(10),
            b.spec_auto_reconnect(),
            b.spec_reconnect_delay() == duration_from_secs(5),
            b.spec_max_reconnect_attempts() == 5,
    {
        ClientConfigBuilder {
            address: None,
            identity: None,
            nickname: None,
            password: None,
            channel: None,
            channel_password: None,
            hardware_id: None,
            connect_timeout: seconds(10),
            auto_reconnect: true,
            reconnect_delay: seconds(5),
            max_reconnect_attempts: 5,
        }
    }
}

impl<I> ClientConfigBuilder<I> {
    /// The server address set.
    pub closed spec fn spec_address(&self) -> Option<Seq<char>> {
        opt_view(self.address)
    }

    /// The identity set.
    pub closed spec fn spec_identity(&self) -> Option<I> {
        self.identity
    }

    /// The nickname set.
    pub closed spec fn spec_nickname(&self) -> Option<Seq<char>> {
        opt_view(self.nickname)
    }

    /// The server password set.
    pub closed spec fn spec_password(&self) -> Option<Seq<char>> {
        opt_view(self.password)
    }

    /// The default channel set.
    pub closed spec fn spec_channel(&self) -> Option<Seq<char>> {
        opt_view(self.channel)
    }

    /// The channel password set.
    pub closed spec fn spec_channel_password(&self) -> Option<Seq<char>> {
        opt_view(self.channel_password)
    }

    /// The hardware id set.
    pub closed spec fn spec_hardware_id(&self) -> Option<Seq<char>> {
        opt_view(self.hardware_id)
    }

    /// The connect timeout.
    pub closed spec fn spec_connect_timeout(&self) -> Duration {
        self.connect_timeout
    }

    /// Whether reconnecting is on.
    pub closed spec fn spec_auto_reconnect(&self) -> bool {
        self.auto_reconnect
    }

    /// The delay between reconnect attempts.
    pub closed spec fn spec_reconnect_delay(&self) -> Duration {
        self.reconnect_delay
    }

    /// The most reconnect attempts.
    pub closed spec fn spec_max_reconnect_attempts(&self) -> u32 {
        self.max_reconnect_attempts
    }

    /// Two builders agree on every setting but the one numbered `but`, in
    /// declaration order (0 address, 1 identity, 2 nickname, 3 password, 4 channel,
    /// 5 channel password, 6 hardware id, 7 timeout, 8 reconnecting, 9 delay,
    /// 10 attempts).
    pub open spec fn same_except(&self, other: &Self, but: int) -> bool {
        &&& (but != 0 ==> self.spec_address() == other.spec_address())
        &&& (but != 1 ==> self.spec_identity() == other.spec_identity())
        &&& (but != 2 ==> self.spec_nickname() == other.spec_nickname())
        &&& (but != 3 ==> self.spec_password() == other.spec_password())
        &&& (but != 4 ==> self.spec_channel() == other.spec_channel())
        &&& (but != 5 ==> self.spec_channel_password() == other.spec_channel_password())
        &&& (but != 6 ==> self.spec_hardware_id() == other.spec_hardware_id())
        &&& (but != 7 ==> self.spec_connect_timeout() == other.spec_connect_timeout())
        &&& (but != 8 ==> self.spec_auto_reconnect() == other.spec_auto_reconnect())
        &&& (but != 9 ==> self.spec_reconnect_delay() == other.spec_reconnect_delay())
        &&& (but != 10 ==> self.spec_max_reconnect_attempts()
            == other.spec_max_reconnect_attempts())
    }

    /// Set the server address (host:port or just host for default port 9987)
    pub fn address(self, address: &str) -> (b: Self)
        ensures
            b.spec_address() == Some(address@),
            b.same_except(&self, 0),
    {
        ClientConfigBuilder { address: Some(address.to_owned()), ..self }
    }

    /// Set the identity to use for authentication
    pub fn identity(self, identity: I) -> (b: Self)
        ensures
            b.spec_identity() == Some(identity),
            b.same_except(&self, 1),
    {
        ClientConfigBuilder { identity: Some(identity), ..self }
    }

    /// Set the nickname to display on the server
    pub fn nickname(self, nickname: &str) -> (b: Self)
        ensures
            b.spec_nickname() == Some(nickname@),
            b.same_except(&self, 2),
    {
        ClientConfigBuilder { nickname: Some(nickname.to_owned()), ..self }
    }

    /// Set the server password (if required)
    pub fn password(self, password: &str) -> (b: Self)
        ensures
            b.spec_password() == Some(password@),
            b.same_except(&self, 3),
    {
        ClientConfigBuilder { password: Some(password.to_owned()), ..self }
    }

    /// Set the default channel to join
    pub fn channel(self, channel: &str) -> (b: Self)
        ensures
            b.spec_channel() == Some(channel@),
            b.same_except(&self, 4),
    {
        ClientConfigBuilder { channel: Some(channel.to_owned()), ..self }
    }

    /// Set the channel password (if required)
    pub fn channel_password(self, password: &str) -> (b: Self)
        ensures
            b.spec_channel_password() == Some(password@),
            b.same_except(&self, 5),
    {
        ClientConfigBuilder { channel_password: Some(password.to_owned()), ..self }
    }

    /// Set a custom hardware ID
    pub fn hardware_id(self, hwid: &str) -> (b: Self)
        ensures
            b.spec_hardware_id() == Some(hwid@),
            b.same_except(&self, 6),
    {
        ClientConfigBuilder { hardware_id: Some(hwid.to_owned()), ..self }
    }

    /// Set the connection timeout
    pub fn connect_timeout(self, timeout: Duration) -> (b: Self)
        ensures
            b.spec_connect_timeout() == timeout,
            b.same_except(&self, 7),
    {
        ClientConfigBuilder { connect_timeout: timeout, ..self }
    }

    /// Enable or disable automatic reconnection
    pub fn auto_reconnect(self, enabled: bool) -> (b: Self)
        ensures
            b.spec_auto_reconnect() == enabled,
            b.same_except(&self, 8),
    {
        ClientConfigBuilder { auto_reconnect: enabled, ..self }
    }

    /// Set the delay between reconnection attempts
    pub fn reconnect_delay(self, delay: Duration) -> (b: Self)
        ensures
            b.spec_reconnect_delay() == delay,
            b.same_except(&self, 9),
    {
        ClientConfigBuilder { reconnect_delay: delay, ..self }
    }

    /// Set the maximum number of reconnection attempts
    pub fn max_reconnect_attempts(self, max: u32) -> (b: Self)
        ensures
            b.spec_max_reconnect_attempts() == max,
            b.same_except(&self, 10),
    {
        ClientConfigBuilder { max_reconnect_attempts: max, ..self }
    }

    /// Build the configuration. It needs an address and an identity. The
    /// nickname falls back to what `identity_nickname` reads off the identity,
    /// then to `TsLibUser`; the address gets the default port when it names
    /// none; a missing hardware id is made up of sixteen random bytes.
    pub fn build<F: FnOnce(&I) -> Option<String>>(self, identity_nickname: F) -> (r: Result<
        ClientConfig<I>,
        Error,
    >)
        requires
            self.spec_nickname() is None && self.spec_identity() is Some ==> call_requires(
                identity_nickname,
                (&self.spec_identity()->0,),
            ),
        ensures
            r is Err <==> (self.spec_address() is None || self.spec_identity() is None),
            self.spec_address() is None ==> (r matches Err(e) && e matches Error::Config(m) && m@
                == "Server address is required"@),
            self.spec_address() is Some && self.spec_identity() is None ==> (r matches Err(e)
                && e matches Error::Config(m) && m@ == "Identity is required"@),
            r matches Ok(cfg) ==> cfg.address@ == normalized(self.spec_address()->0),
            r matches Ok(cfg) ==> self.spec_identity() == Some(cfg.identity),
            r matches Ok(cfg) ==> match self.spec_nickname() {
                Some(n) => cfg.nickname@ == n,
                None => exists|got: Option<String>|
                    call_ensures(identity_nickname, (&cfg.identity,), got) && cfg.nickname@
                        == match got {
                        Some(n) => n@,
                        None => "TsLibUser"@,
                    },
            },
            r matches Ok(cfg) ==> opt_view(cfg.password) == self.spec_password(),
            r matches Ok(cfg) ==> opt_view(cfg.channel) == self.spec_channel(),
            r matches Ok(cfg) ==> opt_view(cfg.channel_password) == self.spec_channel_password(),
            r matches Ok(cfg) ==> match self.spec_hardware_id() {
                Some(h) => cfg.hardware_id@ == h,
                None => exists|bytes: Seq<u8>| bytes.len() == 16 && cfg.hardware_id@ == hex_of(bytes),
            },
            r matches Ok(cfg) ==> cfg.connect_timeout == self.spec_connect_timeout(),
            r matches Ok(cfg) ==> cfg.auto_reconnect == self.spec_auto_reconnect(),
            r matches Ok(cfg) ==> cfg.reconnect_delay == self.spec_reconnect_delay(),
            r matches Ok(cfg) ==> cfg.max_reconnect_attempts == self.spec_max_reconnect_attempts(),
    {
        let address = match self.address {
            Some(a) => a,
            None => {
                return Err(Error::Config("Server address is required".to_owned()));
            },
        };
        let identity = match self.identity {
            Some(id) => id,
            None => {
                return Err(Error::Config("Identity is required".to_owned()));
            },
        };
        let ghost mut read_off: Option<String> = None;
        let nickname = match self.nickname {
            Some(n) => n,
            None => {
                let got = identity_nickname(&identity);
                proof {
                    read_off = got;
                }
                match got {
                    Some(n) => n,
                    None => "TsLibUser".to_owned(),
                }
            },
        };
        let address = match normalize_address(address.as_str()) {
            Ok(a) => a,
            Err(e) => {
                return Err(e);
            },
        };
        let hardware_id = match self.hardware_id {
            Some(h) => h,
            None => generate_hardware_id(),
        };
        let cfg = ClientConfig {
            address,
            identity,
            nickname,
            password: self.password,
            channel: self.channel,
            channel_password: self.channel_password,
            hardware_id,
            connect_timeout: self.connect_timeout,
            auto_reconnect: self.auto_reconnect,
            reconnect_delay: self.reconnect_delay,
            max_reconnect_attempts: self.max_reconnect_attempts,
        };
        assert(self.spec_nickname() is None ==> call_ensures(identity_nickname, (&cfg.identity,), read_off)
            && cfg.nickname@ == match read_off {
            Some(n) => n@,
            None => "TsLibUser"@,
        });
        assert(match self.spec_hardware_id() {
            Some(h) => cfg.hardware_id@ == h,
            None => exists|bytes: Seq<u8>| bytes.len() == 16 && cfg.hardware_id@ == hex_of(bytes),
        });
        Ok(cfg)
    }
}

impl<I> ClientConfig<I> {
    /// Create a new configuration builder
    pub fn builder() -> (b: ClientConfigBuilder<I>)
        ensures
            b.spec_address() is None,
            b.spec_identity() is None,
            b.spec_nickname() is None,
            b.spec_password() is None,
            b.spec_channel() is None,
            b.spec_channel_password() is None,
            b.spec_hardware_id() is None,
            b.spec_connect_timeout() == duration_from_secs(10),
            b.spec_auto_reconnect(),
            b.spec_reconnect_delay() == duration_from_secs(5),
            b.spec_max_reconnect_attempts() == 5,
    {
        ClientConfigBuilder::default()
    }

    /// Get the host part of the address
    pub fn host(&self) -> (r: String)
        ensures
            r@ == host_part(self.address@),
    {
        host_of(self.address.as_str())
    }

    /// Get the port from the address (the default port where none can be read)
    pub fn port(&self) -> (r: u16)
        ensures
            r == address_port(self.address@),
    {
        port_of(self.address.as_str())
    }
}

} // verus!
