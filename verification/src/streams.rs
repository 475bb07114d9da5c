//! Metadata for streams advertised on the TeamSpeak command channel.

use vstd::prelude::*;
use crate::command::{lex_le, lex_le_exec, lex_le_total, lex_le_transitive};
use crate::text::{chars_of, str_eq, string_of};

verus! {

/// An advertised stream. Missing metadata remains unknown until received.
#[derive(Debug, Clone, PartialEq, Eq)]
pub struct Stream {
    pub owner_id: u16,
    pub id: String,
    pub name: Option<String>,
    pub stream_type: Option<u32>,
    pub access: Option<u32>,
    pub mode: Option<u32>,
    pub bitrate: Option<u32>,
    pub viewer_limit: Option<u32>,
    pub viewer_count: Option<u32>,
    pub audio: Option<bool>,
}

/// Source type: a whole screen. The desktop client also uses 1 (camera) and
/// 3 (window).
pub const STREAM_TYPE_SCREEN: u32 = 2;

/// Accessibility: anyone who can see us may ask to join.
pub const STREAM_ACCESS_PUBLIC: u32 = 1;

/// What to publish when setting up a stream.
#[derive(Debug, Clone, PartialEq, Eq)]
pub struct StreamSetup {
    pub name: String,
    pub stream_type: u32,
    pub accessibility: u32,
    /// Requested bitrate in bit/s; the server reports its own figure back.
    pub bitrate: u32,
    /// 0 means unlimited.
    pub viewer_limit: u32,
    /// Whether the WebRTC session carries an audio track.
    pub audio: bool,
}

impl StreamSetup {
    /// A public, video-only screen share.
    pub fn new(name: &str, bitrate: u32) -> (s: StreamSetup)
        ensures
            s.name@ == name@,
            s.stream_type == STREAM_TYPE_SCREEN,
            s.accessibility == STREAM_ACCESS_PUBLIC,
            s.bitrate == bitrate,
            s.viewer_limit == 0,
            !s.audio,
    {
        StreamSetup {
            name: string_of(&chars_of(name)),
            stream_type: STREAM_TYPE_SCREEN,
            accessibility: STREAM_ACCESS_PUBLIC,
            bitrate,
            viewer_limit: 0,
            audio: false,
        }
    }
}

/// One part of a stream notification, as the server lists it.
#[derive(Debug, Clone)]
pub struct StreamPart {
    pub client_id: u16,
    pub stream_id: String,
    pub name: Option<String>,
    pub stream_type: Option<u32>,
    /// The `access` field of the part.
    pub access: Option<u32>,
    /// The `accessibility` field of the part.
    pub accessibility: Option<u32>,
    pub mode: Option<u32>,
    pub bitrate: Option<u32>,
    pub viewer_limit: Option<u32>,
    pub viewer_count: Option<u32>,
    pub audio: Option<bool>,
}

/// A notification that may concern advertised streams.
#[derive(Debug, Clone)]
pub enum StreamNotice {
    /// Streams were started
    Started(Vec<StreamPart>),
    /// Stream information was sent
    Info(Vec<StreamPart>),
    /// Streams were updated
    Updated(Vec<StreamPart>),
    /// Streams were stopped
    Stopped(Vec<StreamPart>),
    /// Any other notification
    Other,
}

/// The identity of a stream: owner and stream id.
pub open spec fn key_of(s: Stream) -> (u16, Seq<char>) {
    (s.owner_id, s.id@)
}

/// The characters of an optional string.
pub open spec fn opt_chars(o: Option<String>) -> Option<Seq<char>> {
    match o {
        Some(s) => Some(s@),
        None => None,
    }
}

/// Two streams hold the same metadata (strings compared by their characters).
pub open spec fn same(a: Stream, b: Stream) -> bool {
    &&& a.owner_id == b.owner_id
    &&& a.id@ == b.id@
    &&& opt_chars(a.name) == opt_chars(b.name)
    &&& a.stream_type == b.stream_type
    &&& a.access == b.access
    &&& a.mode == b.mode
    &&& a.bitrate == b.bitrate
    &&& a.viewer_limit == b.viewer_limit
    &&& a.viewer_count == b.viewer_count
    &&& a.audio == b.audio
}

/// `a`, or `b` where `a` is absent.
pub open spec fn or_else<T>(a: Option<T>, b: Option<T>) -> Option<T> {
    match a {
        Some(x) => Some(x),
        None => b,
    }
}

/// `s` with every absent field taken from `prev`.
pub open spec fn fill(s: Stream, prev: Stream) -> Stream {
    Stream {
        owner_id: s.owner_id,
        id: s.id,
        name: or_else(s.name, prev.name),
        stream_type: or_else(s.stream_type, prev.stream_type),
        access: or_else(s.access, prev.access),
        mode: or_else(s.mode, prev.mode),
        bitrate: or_else(s.bitrate, prev.bitrate),
        viewer_limit: or_else(s.viewer_limit, prev.viewer_limit),
        viewer_count: or_else(s.viewer_count, prev.viewer_count),
        audio: or_else(s.audio, prev.audio),
    }
}

/// The index of the stream with key `k`.
pub open spec fn find(es: Seq<Stream>, k: (u16, Seq<char>)) -> Option<int>
    decreases es.len(),
{
    if es.len() == 0 {
        None
    } else {
        match find(es.drop_last(), k) {
            Some(i) => Some(i),
            None => if key_of(es.last()) == k {
                Some(es.len() - 1)
            } else {
                None
            },
        }
    }
}

/// The streams after merging `s` in, and whether anything changed: a known stream gets the
/// fields `s` carries and keeps the others; a new one is added.
pub open spec fn merge_into(es: Seq<Stream>, s: Stream) -> (Seq<Stream>, bool) {
    match find(es, key_of(s)) {
        Some(i) => if same(fill(s, es[i]), es[i]) {
            (es, false)
        } else {
            (es.update(i, fill(s, es[i])), true)
        },
        None => (es.push(s), true),
    }
}

/// The streams after merging each of `ss` in turn, and whether any merge changed them.
pub open spec fn merge_all(es: Seq<Stream>, ss: Seq<Stream>) -> (Seq<Stream>, bool)
    decreases ss.len(),
{
    if ss.len() == 0 {
        (es, false)
    } else {
        let (a, c1) = merge_all(es, ss.drop_last());
        let (b, c2) = merge_into(a, ss.last());
        (b, c1 || c2)
    }
}

/// The streams without the one with key `k`, and whether it was there.
pub open spec fn remove_key(es: Seq<Stream>, k: (u16, Seq<char>)) -> (Seq<Stream>, bool) {
    match find(es, k) {
        Some(i) => (es.remove(i), true),
        None => (es, false),
    }
}

/// The streams without those with each of `ks` in turn, and whether any was there.
pub open spec fn remove_all(es: Seq<Stream>, ks: Seq<(u16, Seq<char>)>) -> (Seq<Stream>, bool)
    decreases ks.len(),
{
    if ks.len() == 0 {
        (es, false)
    } else {
        let (a, c1) = remove_all(es, ks.drop_last());
        let (b, c2) = remove_key(a, ks.last());
        (b, c1 || c2)
    }
}

/// The stream a part announces, for each kind of notification: a start carries no viewer
/// count, an info carries `accessibility` as the access level, an update either field.
pub open spec fn part_stream(kind: int, p: StreamPart) -> Stream {
    Stream {
        owner_id: p.client_id,
        id: p.stream_id,
        name: p.name,
        stream_type: p.stream_type,
        access: if kind == 0 {
            p.access
        } else if kind == 1 {
            p.accessibility
        } else {
            or_else(p.accessibility, p.access)
        },
        mode: p.mode,
        bitrate: p.bitrate,
        viewer_limit: p.viewer_limit,
        viewer_count: if kind == 0 {
            None
        } else {
            p.viewer_count
        },
        audio: p.audio,
    }
}

/// The streams the parts of a notification announce.
pub open spec fn part_streams(kind: int, ps: Seq<StreamPart>) -> Seq<Stream> {
    ps.map_values(|p: StreamPart| part_stream(kind, p))
}

/// The keys of the streams the parts of a notification name.
pub open spec fn part_keys(ps: Seq<StreamPart>) -> Seq<(u16, Seq<char>)> {
    ps.map_values(|p: StreamPart| (p.client_id, p.stream_id@))
}

/// The streams after a notification, and whether they changed.
pub open spec fn apply_notice(es: Seq<Stream>, n: StreamNotice) -> (Seq<Stream>, bool) {
    match n {
        StreamNotice::Started(ps) => merge_all(es, part_streams(0, ps@)),
        StreamNotice::Info(ps) => merge_all(es, part_streams(1, ps@)),
        StreamNotice::Updated(ps) => merge_all(es, part_streams(2, ps@)),
        StreamNotice::Stopped(ps) => remove_all(es, part_keys(ps@)),
        StreamNotice::Other => (es, false),
    }
}

/// The streams whose owner is not `owner`, in order.
pub open spec fn without_owner(es: Seq<Stream>, owner: u16) -> Seq<Stream>
    decreases es.len(),
{
    if es.len() == 0 {
        Seq::empty()
    } else if es.last().owner_id == owner {
        without_owner(es.drop_last(), owner)
    } else {
        without_owner(es.drop_last(), owner).push(es.last())
    }
}

/// Stream `a` sorts before or with `b`: by owner, then by stream id.
pub open spec fn key_le(a: Stream, b: Stream) -> bool {
    a.owner_id < b.owner_id || (a.owner_id == b.owner_id && lex_le(a.id@, b.id@))
}

/// `x` inserted into `s` after the last stream that sorts with or before it.
pub open spec fn insert_stream(s: Seq<Stream>, x: Stream) -> Seq<Stream>
    decreases s.len(),
{
    if s.len() == 0 {
        seq![x]
    } else if key_le(s.last(), x) {
        s.push(x)
    } else {
        insert_stream(s.drop_last(), x).push(s.last())
    }
}

/// `s` sorted by owner and stream id.
pub open spec fn sort_streams(s: Seq<Stream>) -> Seq<Stream>
    decreases s.len(),
{
    if s.len() == 0 {
        Seq::empty()
    } else {
        insert_stream(sort_streams(s.drop_last()), s.last())
    }
}

fn copy_opt_string(o: &Option<String>) -> (r: Option<String>)
    ensures
        r == *o,
{
    match o {
        Some(s) => Some(s.clone()),
        None => None,
    }
}

/// An exact copy of a stream.
fn copy_stream(s: &Stream) -> (r: Stream)
    ensures
        r == *s,
{
    Stream {
        owner_id: s.owner_id,
        id: s.id.clone(),
        name: copy_opt_string(&s.name),
        stream_type: s.stream_type,
        access: s.access,
        mode: s.mode,
        bitrate: s.bitrate,
        viewer_limit: s.viewer_limit,
        viewer_count: s.viewer_count,
        audio: s.audio,
    }
}

fn opt_str_eq(a: &Option<String>, b: &Option<String>) -> (r: bool)
    ensures
        r == (opt_chars(*a) == opt_chars(*b)),
{
    match (a, b) {
        (Some(x), Some(y)) => str_eq(x.as_str(), y.as_str()),
        (None, None) => true,
        _ => false,
    }
}

fn same_exec(a: &Stream, b: &Stream) -> (r: bool)
    ensures
        r == same(*a, *b),
{
    a.owner_id == b.owner_id && str_eq(a.id.as_str(), b.id.as_str()) && opt_str_eq(
        &a.name,
        &b.name,
    ) && a.stream_type == b.stream_type && a.access == b.access && a.mode == b.mode
        && a.bitrate == b.bitrate && a.viewer_limit == b.viewer_limit && a.viewer_count
        == b.viewer_count && a.audio == b.audio
}

fn or_else_u32(a: Option<u32>, b: Option<u32>) -> (r: Option<u32>)
    ensures
        r == or_else(a, b),
{
    match a {
        Some(x) => Some(x),
        None => b,
    }
}

/// The stream a part announces, by kind of notification (0 start, 1 info, 2 update).
fn part_to_stream(kind: u8, p: &StreamPart) -> (s: Stream)
    requires
        kind <= 2,
    ensures
        s == part_stream(kind as int, *p),
{
    Stream {
        owner_id: p.client_id,
        id: p.stream_id.clone(),
        name: copy_opt_string(&p.name),
        stream_type: p.stream_type,
        access: if kind == 0 {
            p.access
        } else if kind == 1 {
            p.accessibility
        } else {
            or_else_u32(p.accessibility, p.access)
        },
        mode: p.mode,
        bitrate: p.bitrate,
        viewer_limit: p.viewer_limit,
        viewer_count: if kind == 0 {
            None
        } else {
            p.viewer_count
        },
        audio: p.audio,
    }
}

/// The registry of advertised streams.
pub struct StreamRegistry {
    streams: Vec<Stream>,
}

impl StreamRegistry {
    /// The known streams, in the order they were first announced.
    pub closed spec fn entries(&self) -> Seq<Stream> {
        self.streams@
    }

    /// The registry holds each stream once.
    #[verifier::type_invariant]
    spec fn holds_each_once(&self) -> bool {
        distinct_stream_keys(self.streams@)
    }

    /// An empty registry.
    pub fn new() -> (r: StreamRegistry)
        ensures
            r.entries() == Seq::<Stream>::empty(),
    {
        StreamRegistry { streams: Vec::new() }
    }

    /// Move the streams out, leaving the registry empty.
    fn take_streams(&mut self) -> (v: Vec<Stream>)
        ensures
            v@ == old(self).entries(),
            distinct_stream_keys(v@),
            final(self).entries() == Seq::<Stream>::empty(),
    {
        proof {
            use_type_invariant(&*self);
        }
        let mut v: Vec<Stream> = Vec::new();
        std::mem::swap(&mut v, &mut self.streams);
        v
    }

    fn find_exec(&self, owner_id: u16, id: &str) -> (r: Option<usize>)
        ensures
            match r {
                Some(i) => find(self.entries(), (owner_id, id@)) == Some(i as int) && i
                    < self.entries().len(),
                None => find(self.entries(), (owner_id, id@)) is None,
            },
    {
        let ghost es = self.entries();
        let mut i: usize = 0;
        while i < self.streams.len()
            invariant
                i <= self.streams.len(),
                es == self.entries(),
                forall|j: int| 0 <= j < i ==> key_of(#[trigger] es[j]) != (owner_id, id@),
            decreases self.streams.len() - i,
        {
            if self.streams[i].owner_id == owner_id && str_eq(self.streams[i].id.as_str(), id) {
                proof {
                    lemma_find_at(es, (owner_id, id@), i as int);
                }
                return Some(i);
            }
            i += 1;
        }
        proof {
            lemma_find_none(es, (owner_id, id@));
        }
        None
    }

    /// Merge a stream's metadata in; whether anything changed.
    pub fn merge(&mut self, stream: Stream) -> (changed: bool)
        ensures
            (final(self).entries(), changed) == merge_into(old(self).entries(), stream),
            distinct_stream_keys(final(self).entries()),
    {
        proof {
            use_type_invariant(&*self);
            merge_keeps_keys_distinct(self.entries(), stream);
        }
        match self.find_exec(stream.owner_id, stream.id.as_str()) {
            Some(i) => {
                let prev = &self.streams[i];
                let merged = Stream {
                    owner_id: stream.owner_id,
                    id: stream.id,
                    name: match stream.name {
                        Some(n) => Some(n),
                        None => copy_opt_string(&prev.name),
                    },
                    stream_type: or_else_u32(stream.stream_type, prev.stream_type),
                    access: or_else_u32(stream.access, prev.access),
                    mode: or_else_u32(stream.mode, prev.mode),
                    bitrate: or_else_u32(stream.bitrate, prev.bitrate),
                    viewer_limit: or_else_u32(stream.viewer_limit, prev.viewer_limit),
                    viewer_count: or_else_u32(stream.viewer_count, prev.viewer_count),
                    audio: match stream.audio {
                        Some(a) => Some(a),
                        None => prev.audio,
                    },
                };
                if same_exec(&merged, prev) {
                    return false;
                }
                let mut v = self.take_streams();
                v.set(i, merged);
                self.streams = v;
                true
            },
            None => {
                let mut v = self.take_streams();
                v.push(stream);
                self.streams = v;
                true
            },
        }
    }

    fn merge_parts(&mut self, kind: u8, parts: &Vec<StreamPart>) -> (changed: bool)
        requires
            kind <= 2,
        ensures
            (final(self).entries(), changed) == merge_all(
                old(self).entries(),
                part_streams(kind as int, parts@),
            ),
            distinct_stream_keys(final(self).entries()),
    {
        let ghost ss = part_streams(kind as int, parts@);
        let mut changed = false;
        let mut i: usize = 0;
        assert(ss.take(0) =~= Seq::<Stream>::empty());
        while i < parts.len()
            invariant
                i <= parts.len(),
                kind <= 2,
                ss == part_streams(kind as int, parts@),
                (self.entries(), changed) == merge_all(old(self).entries(), ss.take(i as int)),
            decreases parts.len() - i,
        {
            assert(ss.take(i + 1).drop_last() =~= ss.take(i as int));
            assert(ss.take(i + 1).last() == part_stream(kind as int, parts@[i as int]));
            let s = part_to_stream(kind, &parts[i]);
            let c = self.merge(s);
            changed = changed || c;
            i += 1;
        }
        assert(ss.take(parts.len() as int) =~= ss);
        proof {
            use_type_invariant(&*self);
        }
        changed
    }

    fn remove_parts(&mut self, parts: &Vec<StreamPart>) -> (changed: bool)
        ensures
            (final(self).entries(), changed) == remove_all(old(self).entries(), part_keys(parts@)),
            distinct_stream_keys(final(self).entries()),
    {
        let ghost ks = part_keys(parts@);
        let mut changed = false;
        let mut i: usize = 0;
        assert(ks.take(0) =~= Seq::<(u16, Seq<char>)>::empty());
        while i < parts.len()
            invariant
                i <= parts.len(),
                ks == part_keys(parts@),
                (self.entries(), changed) == remove_all(old(self).entries(), ks.take(i as int)),
            decreases parts.len() - i,
        {
            assert(ks.take(i + 1).drop_last() =~= ks.take(i as int));
            assert(ks.take(i + 1).last() == (parts@[i as int].client_id, parts@[i as int].stream_id@));
            proof {
                use_type_invariant(&*self);
                lemma_remove_key_props(self.entries(), ks[i as int], ks[i as int]);
            }
            let c = match self.find_exec(parts[i].client_id, parts[i].stream_id.as_str()) {
                Some(j) => {
                    let mut v = self.take_streams();
                    v.remove(j);
                    self.streams = v;
                    true
                },
                None => false,
            };
            changed = changed || c;
            i += 1;
        }
        assert(ks.take(parts.len() as int) =~= ks);
        proof {
            use_type_invariant(&*self);
        }
        changed
    }

    /// Apply a notification; whether the advertised streams changed.
    pub fn apply(&mut self, notice: &StreamNotice) -> (changed: bool)
        ensures
            (final(self).entries(), changed) == apply_notice(old(self).entries(), *notice),
            distinct_stream_keys(final(self).entries()),
    {
        proof {
            use_type_invariant(&*self);
        }
        match notice {
            StreamNotice::Started(parts) => self.merge_parts(0, parts),
            StreamNotice::Info(parts) => self.merge_parts(1, parts),
            StreamNotice::Updated(parts) => self.merge_parts(2, parts),
            StreamNotice::Stopped(parts) => self.remove_parts(parts),
            StreamNotice::Other => false,
        }
    }

    /// Forget every stream of an owner; whether there was any.
    pub fn remove_owner(&mut self, owner_id: u16) -> (changed: bool)
        ensures
            final(self).entries() == without_owner(old(self).entries(), owner_id),
            changed == (final(self).entries().len() != old(self).entries().len()),
            distinct_stream_keys(final(self).entries()),
    {
        proof {
            use_type_invariant(&*self);
            lemma_without_owner_distinct(self.entries(), owner_id);
        }
        let ghost es = self.entries();
        let mut kept: Vec<Stream> = Vec::new();
        let mut i: usize = 0;
        let n = self.streams.len();
        assert(es.take(0) =~= Seq::<Stream>::empty());
        while i < self.streams.len()
            invariant
                i <= self.streams.len(),
                es == self.entries(),
                kept@ == without_owner(es.take(i as int), owner_id),
            decreases self.streams.len() - i,
        {
            assert(es.take(i + 1).drop_last() =~= es.take(i as int));
            assert(es.take(i + 1).last() == es[i as int]);
            if self.streams[i].owner_id != owner_id {
                kept.push(copy_stream(&self.streams[i]));
            }
            i += 1;
        }
        assert(es.take(n as int) =~= es);
        self.streams = kept;
        self.streams.len() != n
    }

    /// Forget every stream; whether there was any.
    pub fn clear(&mut self) -> (changed: bool)
        ensures
            final(self).entries() == Seq::<Stream>::empty(),
            changed == (old(self).entries().len() > 0),
            distinct_stream_keys(final(self).entries()),
    {
        let changed = self.streams.len() > 0;
        self.streams = Vec::new();
        changed
    }

    /// Snapshot of the streams, sorted by owner ID and stream ID.
    pub fn list(&self) -> (r: Vec<Stream>)
        ensures
            r@ == sort_streams(self.entries()),
    {
        let ghost es = self.entries();
        let mut sorted: Vec<Stream> = Vec::new();
        let mut i: usize = 0;
        assert(es.take(0) =~= Seq::<Stream>::empty());
        while i < self.streams.len()
            invariant
                i <= self.streams.len(),
                es == self.entries(),
                sorted@ == sort_streams(es.take(i as int)),
            decreases self.streams.len() - i,
        {
            assert(es.take(i + 1).drop_last() =~= es.take(i as int));
            assert(es.take(i + 1).last() == es[i as int]);
            let s = copy_stream(&self.streams[i]);
            insert_sorted_stream(&mut sorted, s);
            i += 1;
        }
        assert(es.take(self.streams.len() as int) =~= es);
        sorted
    }
}


/// Streams listed by owner, then stream id: each one sorts with or before the next ones.
pub open spec fn sorted_by_key(s: Seq<Stream>) -> bool {
    forall|i: int, j: int| 0 <= i < j < s.len() ==> key_le(#[trigger] s[i], #[trigger] s[j])
}

proof fn lemma_key_le_total(a: Stream, b: Stream)
    ensures
        key_le(a, b) || key_le(b, a),
{
    lex_le_total(a.id@, b.id@);
}

proof fn lemma_key_le_transitive(a: Stream, b: Stream, c: Stream)
    requires
        key_le(a, b),
        key_le(b, c),
    ensures
        key_le(a, c),
{
    if a.owner_id == b.owner_id && b.owner_id == c.owner_id {
        lex_le_transitive(a.id@, b.id@, c.id@);
    }
}

proof fn lemma_insert_stream_sorted(s: Seq<Stream>, x: Stream)
    requires
        sorted_by_key(s),
    ensures
        sorted_by_key(insert_stream(s, x)),
        insert_stream(s, x).len() == s.len() + 1,
        forall|k: int|
            0 <= k < insert_stream(s, x).len() ==> #[trigger] insert_stream(s, x)[k] == x
                || s.contains(insert_stream(s, x)[k]),
    decreases s.len(),
{
    let r = insert_stream(s, x);
    if s.len() == 0 {
    } else if key_le(s.last(), x) {
        assert forall|i: int, j: int| 0 <= i < j < r.len() implies key_le(
            #[trigger] r[i],
            #[trigger] r[j],
        ) by {
            if j == r.len() - 1 && i < s.len() - 1 {
                lemma_key_le_transitive(s[i], s.last(), x);
            }
        }
        assert forall|k: int| 0 <= k < r.len() implies #[trigger] r[k] == x || s.contains(r[k]) by {
            if k < s.len() {
                assert(r[k] == s[k]);
            }
        }
    } else {
        let t = s.drop_last();
        lemma_insert_stream_sorted(t, x);
        let q = insert_stream(t, x);
        lemma_key_le_total(s.last(), x);
        assert forall|i: int, j: int| 0 <= i < j < r.len() implies key_le(
            #[trigger] r[i],
            #[trigger] r[j],
        ) by {
            if j == r.len() - 1 {
                assert(r[i] == q[i]);
                if q[i] != x {
                    let m = choose|m: int| 0 <= m < t.len() && t[m] == q[i];
                    assert(s[m] == t[m]);
                }
            } else {
                assert(r[i] == q[i] && r[j] == q[j]);
            }
        }
        assert forall|k: int| 0 <= k < r.len() implies #[trigger] r[k] == x || s.contains(r[k]) by {
            if k < q.len() {
                assert(r[k] == q[k]);
                if q[k] != x {
                    let m = choose|m: int| 0 <= m < t.len() && t[m] == q[k];
                    assert(s[m] == t[m]);
                }
            } else {
                assert(s[s.len() - 1] == s.last());
            }
        }
    }
}

/// A snapshot of the registry is sorted by owner, then by stream id, and lists every
/// known stream.
pub proof fn snapshot_sorted(es: Seq<Stream>)
    ensures
        sorted_by_key(sort_streams(es)),
        sort_streams(es).len() == es.len(),
    decreases es.len(),
{
    if es.len() > 0 {
        snapshot_sorted(es.drop_last());
        lemma_insert_stream_sorted(sort_streams(es.drop_last()), es.last());
    }
}

proof fn lemma_find_some(es: Seq<Stream>, k: (u16, Seq<char>))
    requires
        find(es, k) is Some,
    ensures
        0 <= find(es, k).unwrap() < es.len(),
        key_of(es[find(es, k).unwrap()]) == k,
        forall|j: int| 0 <= j < find(es, k).unwrap() ==> key_of(#[trigger] es[j]) != k,
    decreases es.len(),
{
    let t = es.drop_last();
    if find(t, k) is Some {
        lemma_find_some(t, k);
        let i = find(t, k).unwrap();
        assert forall|j: int| 0 <= j < i implies key_of(#[trigger] es[j]) != k by {
            assert(t[j] == es[j]);
        }
        assert(t[i] == es[i]);
    } else {
        lemma_find_none_all(t, k);
        assert forall|j: int| 0 <= j < es.len() - 1 implies key_of(#[trigger] es[j]) != k by {
            assert(t[j] == es[j]);
        }
    }
}

proof fn lemma_find_none_all(es: Seq<Stream>, k: (u16, Seq<char>))
    requires
        find(es, k) is None,
    ensures
        forall|j: int| 0 <= j < es.len() ==> key_of(#[trigger] es[j]) != k,
    decreases es.len(),
{
    if es.len() > 0 {
        let t = es.drop_last();
        lemma_find_none_all(t, k);
        assert forall|j: int| 0 <= j < es.len() implies key_of(#[trigger] es[j]) != k by {
            if j < es.len() - 1 {
                assert(t[j] == es[j]);
            }
        }
    }
}

/// Merging the same stream metadata a second time changes nothing.
pub proof fn merge_again_unchanged(es: Seq<Stream>, s: Stream)
    ensures
        merge_into(merge_into(es, s).0, s) == (merge_into(es, s).0, false),
{
    let (es2, _) = merge_into(es, s);
    match find(es, key_of(s)) {
        Some(i) => {
            lemma_find_some(es, key_of(s));
            let f = fill(s, es[i]);
            assert(key_of(es2[i]) == key_of(s));
            assert forall|j: int| 0 <= j < i implies key_of(#[trigger] es2[j]) != key_of(s) by {
                assert(es2[j] == es[j]);
            }
            lemma_find_at(es2, key_of(s), i);
            assert(same(fill(s, es2[i]), es2[i]));
        },
        None => {
            lemma_find_none_all(es, key_of(s));
            assert forall|j: int| 0 <= j < es.len() implies key_of(#[trigger] es2[j]) != key_of(s) by {
                assert(es2[j] == es[j]);
            }
            lemma_find_at(es2, key_of(s), es.len() as int);
            assert(same(fill(s, es2[es.len() as int]), es2[es.len() as int]));
        },
    }
}

/// Forgetting an owner's streams leaves none of its streams and keeps every other one.
pub proof fn owner_streams_forgotten(es: Seq<Stream>, owner: u16)
    ensures
        forall|i: int|
            0 <= i < without_owner(es, owner).len() ==> #[trigger] without_owner(es, owner)[i].owner_id
                != owner,
        forall|i: int|
            0 <= i < es.len() && #[trigger] es[i].owner_id != owner ==> without_owner(
                es,
                owner,
            ).contains(es[i]),
    decreases es.len(),
{
    if es.len() > 0 {
        let t = es.drop_last();
        owner_streams_forgotten(t, owner);
        let w = without_owner(t, owner);
        assert forall|i: int|
            0 <= i < es.len() && #[trigger] es[i].owner_id != owner implies without_owner(
                es,
                owner,
            ).contains(es[i]) by {
            if i < t.len() {
                assert(t[i] == es[i]);
                let k = choose|k: int| 0 <= k < w.len() && w[k] == t[i];
                if es.last().owner_id != owner {
                    assert(without_owner(es, owner)[k] == w[k]);
                }
            } else {
                assert(without_owner(es, owner)[w.len() as int] == es.last());
            }
        }
    }
}

impl Default for StreamRegistry {
    fn default() -> (r: Self)
        ensures
            r.entries() == Seq::<Stream>::empty(),
    {
        StreamRegistry::new()
    }
}

fn key_le_exec(a: &Stream, b: &Stream) -> (r: bool)
    ensures
        r == key_le(*a, *b),
{
    a.owner_id < b.owner_id || (a.owner_id == b.owner_id && lex_le_exec(
        a.id.as_str(),
        b.id.as_str(),
    ))
}

fn insert_sorted_stream(r: &mut Vec<Stream>, x: Stream)
    ensures
        final(r)@ == insert_stream(old(r)@, x),
{
    let ghost s = r@;
    let mut p: usize = r.len();
    while p > 0 && !key_le_exec(&r[p - 1], &x)
        invariant
            p <= r.len(),
            s == r@,
            forall|j: int| p <= j < r.len() ==> !key_le(#[trigger] s[j], x),
        decreases p,
    {
        p -= 1;
    }
    proof {
        lemma_insert_stream_at(s, x, p as int);
    }
    r.insert(p, x);
    assert(r@ =~= s.take(p as int).push(x) + s.skip(p as int));
}

proof fn lemma_insert_stream_at(s: Seq<Stream>, x: Stream, p: int)
    requires
        0 <= p <= s.len(),
        forall|j: int| p <= j < s.len() ==> !key_le(#[trigger] s[j], x),
        p == 0 || key_le(s[p - 1], x),
    ensures
        insert_stream(s, x) == s.take(p).push(x) + s.skip(p),
    decreases s.len(),
{
    if s.len() == 0 {
        assert(s.take(p).push(x) + s.skip(p) =~= seq![x]);
    } else if key_le(s.last(), x) {
        assert(p == s.len());
        assert(s.take(p).push(x) + s.skip(p) =~= s.push(x));
    } else {
        let t = s.drop_last();
        assert forall|j: int| p <= j < t.len() implies !key_le(#[trigger] t[j], x) by {
            assert(t[j] == s[j]);
        }
        lemma_insert_stream_at(t, x, p);
        assert(t.take(p) =~= s.take(p));
        assert((t.take(p).push(x) + t.skip(p)).push(s.last()) =~= s.take(p).push(x) + s.skip(p));
    }
}

proof fn lemma_find_at(es: Seq<Stream>, k: (u16, Seq<char>), i: int)
    requires
        0 <= i < es.len(),
        key_of(es[i]) == k,
        forall|j: int| 0 <= j < i ==> key_of(#[trigger] es[j]) != k,
    ensures
        find(es, k) == Some(i),
    decreases es.len(),
{
    if i < es.len() - 1 {
        lemma_find_at(es.drop_last(), k, i);
    } else {
        lemma_find_none(es.drop_last(), k);
    }
}

proof fn lemma_find_none(es: Seq<Stream>, k: (u16, Seq<char>))
    requires
        forall|j: int| 0 <= j < es.len() ==> key_of(#[trigger] es[j]) != k,
    ensures
        find(es, k) is None,
    decreases es.len(),
{
    if es.len() > 0 {
        lemma_find_none(es.drop_last(), k);
    }
}

/// A stream's metadata is already all in `es`: merging it in would change nothing.
pub open spec fn absorbed(es: Seq<Stream>, s: Stream) -> bool {
    match find(es, key_of(s)) {
        Some(i) => same(fill(s, es[i]), es[i]),
        None => false,
    }
}

/// No two streams share a key.
pub open spec fn distinct_stream_keys(ss: Seq<Stream>) -> bool {
    forall|i: int, j: int| 0 <= i < j < ss.len() ==> key_of(ss[i]) != key_of(ss[j])
}

proof fn lemma_merge_absorbs(es: Seq<Stream>, s: Stream)
    ensures
        absorbed(merge_into(es, s).0, s),
{
    merge_again_unchanged(es, s);
    let es2 = merge_into(es, s).0;
    if find(es2, key_of(s)) is None {
        assert(merge_into(es2, s).0 == es2.push(s));
        assert(es2.push(s).len() != es2.len());
    }
}

proof fn lemma_merge_keeps_absorbed(es: Seq<Stream>, t: Stream, s: Stream)
    requires
        absorbed(es, s),
        key_of(t) != key_of(s),
    ensures
        absorbed(merge_into(es, t).0, s),
{
    let es2 = merge_into(es, t).0;
    lemma_find_some(es, key_of(s));
    let i = find(es, key_of(s)).unwrap();
    if find(es, key_of(t)) is Some {
        lemma_find_some(es, key_of(t));
    } else {
        lemma_find_none_all(es, key_of(t));
    }
    assert(es2[i] == es[i]);
    assert forall|j: int| 0 <= j < i implies key_of(#[trigger] es2[j]) != key_of(s) by {
        if find(es, key_of(t)) is Some && j == find(es, key_of(t)).unwrap() {
            assert(key_of(es2[j]) == key_of(t));
        } else {
            assert(es2[j] == es[j]);
        }
    }
    lemma_find_at(es2, key_of(s), i);
}

proof fn lemma_merge_all_absorbs(es: Seq<Stream>, ss: Seq<Stream>)
    requires
        distinct_stream_keys(ss),
    ensures
        forall|i: int| 0 <= i < ss.len() ==> absorbed(merge_all(es, ss).0, #[trigger] ss[i]),
    decreases ss.len(),
{
    if ss.len() > 0 {
        let pre = ss.drop_last();
        assert(distinct_stream_keys(pre)) by {
            assert forall|i: int, j: int| 0 <= i < j < pre.len() implies key_of(pre[i]) != key_of(
                pre[j],
            ) by {
                assert(pre[i] == ss[i] && pre[j] == ss[j]);
            }
        }
        lemma_merge_all_absorbs(es, pre);
        let a = merge_all(es, pre).0;
        lemma_merge_absorbs(a, ss.last());
        assert forall|i: int| 0 <= i < ss.len() implies absorbed(merge_all(es, ss).0, #[trigger] ss[i]) by {
            if i < ss.len() - 1 {
                assert(pre[i] == ss[i]);
                assert(key_of(ss[i]) != key_of(ss[ss.len() - 1]));
                lemma_merge_keeps_absorbed(a, ss.last(), ss[i]);
            }
        }
    }
}

proof fn lemma_merge_all_absorbed(es: Seq<Stream>, ss: Seq<Stream>)
    requires
        forall|i: int| 0 <= i < ss.len() ==> absorbed(es, #[trigger] ss[i]),
    ensures
        merge_all(es, ss) == (es, false),
    decreases ss.len(),
{
    if ss.len() > 0 {
        let pre = ss.drop_last();
        assert forall|i: int| 0 <= i < pre.len() implies absorbed(es, #[trigger] pre[i]) by {
            assert(pre[i] == ss[i]);
        }
        lemma_merge_all_absorbed(es, pre);
        assert(absorbed(es, ss[ss.len() - 1]));
    }
}

/// Merging the same streams, no two with one key, a second time changes nothing: a
/// notification that starts, describes or updates streams and is processed twice gives
/// its snapshot the first time and nothing the second.
pub proof fn merging_again_changes_nothing(es: Seq<Stream>, ss: Seq<Stream>)
    requires
        distinct_stream_keys(ss),
    ensures
        merge_all(merge_all(es, ss).0, ss) == (merge_all(es, ss).0, false),
{
    lemma_merge_all_absorbs(es, ss);
    lemma_merge_all_absorbed(merge_all(es, ss).0, ss);
}

proof fn lemma_remove_key_props(es: Seq<Stream>, k: (u16, Seq<char>), other: (u16, Seq<char>))
    requires
        distinct_stream_keys(es),
    ensures
        distinct_stream_keys(remove_key(es, k).0),
        find(remove_key(es, k).0, k) is None,
        find(es, other) is None ==> find(remove_key(es, k).0, other) is None,
{
    let r = remove_key(es, k).0;
    if find(es, k) is Some {
        lemma_find_some(es, k);
        let i = find(es, k).unwrap();
        assert forall|a: int, b: int| 0 <= a < b < r.len() implies key_of(r[a]) != key_of(r[b]) by {
            let a0 = if a < i { a } else { a + 1 };
            let b0 = if b < i { b } else { b + 1 };
            assert(r[a] == es[a0] && r[b] == es[b0]);
        }
        if find(r, k) is Some {
            lemma_find_some(r, k);
            let m = find(r, k).unwrap();
            let m0 = if m < i { m } else { m + 1 };
            assert(r[m] == es[m0]);
        }
        if find(es, other) is None && find(r, other) is Some {
            lemma_find_none_all(es, other);
            lemma_find_some(r, other);
            let m = find(r, other).unwrap();
            let m0 = if m < i { m } else { m + 1 };
            assert(r[m] == es[m0]);
        }
    } else {
    }
}

proof fn lemma_remove_all_props(es: Seq<Stream>, ks: Seq<(u16, Seq<char>)>)
    requires
        distinct_stream_keys(es),
    ensures
        distinct_stream_keys(remove_all(es, ks).0),
        forall|i: int| 0 <= i < ks.len() ==> find(remove_all(es, ks).0, #[trigger] ks[i]) is None,
    decreases ks.len(),
{
    if ks.len() > 0 {
        let pre = ks.drop_last();
        lemma_remove_all_props(es, pre);
        let a = remove_all(es, pre).0;
        assert forall|i: int| 0 <= i < ks.len() implies find(remove_all(es, ks).0, #[trigger] ks[i]) is None by {
            lemma_remove_key_props(a, ks.last(), ks[i]);
            if i < ks.len() - 1 {
                assert(pre[i] == ks[i]);
            }
        }
        lemma_remove_key_props(a, ks.last(), ks.last());
    }
}

proof fn lemma_remove_all_absent(es: Seq<Stream>, ks: Seq<(u16, Seq<char>)>)
    requires
        forall|i: int| 0 <= i < ks.len() ==> find(es, #[trigger] ks[i]) is None,
    ensures
        remove_all(es, ks) == (es, false),
    decreases ks.len(),
{
    if ks.len() > 0 {
        let pre = ks.drop_last();
        assert forall|i: int| 0 <= i < pre.len() implies find(es, #[trigger] pre[i]) is None by {
            assert(pre[i] == ks[i]);
        }
        lemma_remove_all_absent(es, pre);
        assert(find(es, ks[ks.len() - 1]) is None);
    }
}

/// Stopping the same streams a second time changes nothing: a stop notification processed
/// twice gives its snapshot the first time and nothing the second (for a registry that holds
/// each stream once, as the registry does).
pub proof fn removing_again_changes_nothing(es: Seq<Stream>, ks: Seq<(u16, Seq<char>)>)
    requires
        distinct_stream_keys(es),
    ensures
        remove_all(remove_all(es, ks).0, ks) == (remove_all(es, ks).0, false),
{
    lemma_remove_all_props(es, ks);
    lemma_remove_all_absent(remove_all(es, ks).0, ks);
}


proof fn lemma_find_update(es: Seq<Stream>, i: int, x: Stream, k: (u16, Seq<char>))
    requires
        0 <= i < es.len(),
        key_of(x) == key_of(es[i]),
    ensures
        find(es.update(i, x), k) == find(es, k),
{
    let es2 = es.update(i, x);
    assert forall|j: int| 0 <= j < es.len() implies key_of(#[trigger] es2[j]) == key_of(es[j]) by {
        if j != i {
            assert(es2[j] == es[j]);
        }
    }
    if find(es, k) is Some {
        lemma_find_some(es, k);
        let m = find(es, k).unwrap();
        assert(key_of(es2[m]) == key_of(es[m]));
        assert forall|j: int| 0 <= j < m implies key_of(#[trigger] es2[j]) != k by {
            assert(key_of(es2[j]) == key_of(es[j]));
        }
        lemma_find_at(es2, k, m);
    } else {
        lemma_find_none_all(es, k);
        assert forall|j: int| 0 <= j < es2.len() implies key_of(#[trigger] es2[j]) != k by {
            assert(key_of(es2[j]) == key_of(es[j]));
        }
        lemma_find_none(es2, k);
    }
}

proof fn lemma_find_push(es: Seq<Stream>, x: Stream, k: (u16, Seq<char>))
    requires
        key_of(x) != k,
    ensures
        find(es.push(x), k) == find(es, k),
{
    assert(es.push(x).drop_last() =~= es);
}

/// What `es` holds under key `k`.
pub open spec fn held(es: Seq<Stream>, k: (u16, Seq<char>)) -> Option<Stream> {
    match find(es, k) {
        Some(i) => Some(es[i]),
        None => None,
    }
}

/// Merging a stream in, read by key: a stream not yet known is then held as given; a known
/// one is then held with the fields the new one carries and the old values of the others,
/// and the merge reports a change exactly when that differs from what was held; what is
/// held under every other key stays as it was.
pub proof fn merge_by_key(es: Seq<Stream>, s: Stream, other: (u16, Seq<char>))
    requires
        other != key_of(s),
    ensures
        held(merge_into(es, s).0, other) == held(es, other),
        held(es, key_of(s)) is None ==> held(merge_into(es, s).0, key_of(s)) == Some(s)
            && merge_into(es, s).1,
        held(es, key_of(s)) is Some ==> {
            let p = held(es, key_of(s)).unwrap();
            &&& held(merge_into(es, s).0, key_of(s)) is Some
            &&& same(held(merge_into(es, s).0, key_of(s)).unwrap(), fill(s, p))
            &&& merge_into(es, s).1 == !same(fill(s, p), p)
        },
{
    let k = key_of(s);
    let es2 = merge_into(es, s).0;
    match find(es, k) {
        Some(i) => {
            lemma_find_some(es, k);
            if !same(fill(s, es[i]), es[i]) {
                lemma_find_update(es, i, fill(s, es[i]), other);
                lemma_find_update(es, i, fill(s, es[i]), k);
                if find(es, other) is Some {
                    lemma_find_some(es, other);
                }
            }
        },
        None => {
            lemma_find_push(es, s, other);
            lemma_find_none_all(es, k);
            assert forall|j: int| 0 <= j < es.len() implies key_of(#[trigger] es2[j]) != k by {
                assert(es2[j] == es[j]);
            }
            lemma_find_at(es2, k, es.len() as int);
            if find(es, other) is Some {
                lemma_find_some(es, other);
                assert(es2[find(es, other).unwrap()] == es[find(es, other).unwrap()]);
            }
        },
    }
}

/// Merging a stream in keeps the keys of the streams distinct.
pub proof fn merge_keeps_keys_distinct(es: Seq<Stream>, s: Stream)
    requires
        distinct_stream_keys(es),
    ensures
        distinct_stream_keys(merge_into(es, s).0),
{
    let es2 = merge_into(es, s).0;
    match find(es, key_of(s)) {
        Some(i) => {
            lemma_find_some(es, key_of(s));
            assert forall|a: int, b: int| 0 <= a < b < es2.len() implies key_of(es2[a]) != key_of(
                es2[b],
            ) by {
                assert(key_of(es2[a]) == key_of(es[a]));
                assert(key_of(es2[b]) == key_of(es[b]));
            }
        },
        None => {
            lemma_find_none_all(es, key_of(s));
            assert forall|a: int, b: int| 0 <= a < b < es2.len() implies key_of(es2[a]) != key_of(
                es2[b],
            ) by {
                assert(es2[a] == es[a]);
                if b < es.len() {
                    assert(es2[b] == es[b]);
                }
            }
        },
    }
}

proof fn lemma_merge_all_distinct(es: Seq<Stream>, ss: Seq<Stream>)
    requires
        distinct_stream_keys(es),
    ensures
        distinct_stream_keys(merge_all(es, ss).0),
    decreases ss.len(),
{
    if ss.len() > 0 {
        lemma_merge_all_distinct(es, ss.drop_last());
        merge_keeps_keys_distinct(merge_all(es, ss.drop_last()).0, ss.last());
    }
}

proof fn lemma_without_owner_distinct(es: Seq<Stream>, owner: u16)
    requires
        distinct_stream_keys(es),
    ensures
        distinct_stream_keys(without_owner(es, owner)),
        forall|k: int|
            0 <= k < without_owner(es, owner).len() ==> exists|m: int|
                0 <= m < es.len() && #[trigger] without_owner(es, owner)[k] == es[m],
    decreases es.len(),
{
    if es.len() > 0 {
        let t = es.drop_last();
        assert(distinct_stream_keys(t)) by {
            assert forall|a: int, b: int| 0 <= a < b < t.len() implies key_of(t[a]) != key_of(
                t[b],
            ) by {
                assert(t[a] == es[a] && t[b] == es[b]);
            }
        }
        lemma_without_owner_distinct(t, owner);
        let w = without_owner(t, owner);
        let r = without_owner(es, owner);
        assert forall|k: int| 0 <= k < w.len() implies exists|m: int|
            0 <= m < es.len() - 1 && #[trigger] w[k] == es[m] by {
            let m = choose|m: int| 0 <= m < t.len() && w[k] == t[m];
            assert(t[m] == es[m]);
        }
        if es.last().owner_id != owner {
            assert forall|a: int, b: int| 0 <= a < b < r.len() implies key_of(r[a]) != key_of(
                r[b],
            ) by {
                assert(r[a] == w[a]);
                let ma = choose|m: int| 0 <= m < es.len() - 1 && w[a] == es[m];
                if b < w.len() {
                    assert(r[b] == w[b]);
                } else {
                    assert(r[b] == es[es.len() - 1]);
                }
            }
            assert forall|k: int| 0 <= k < r.len() implies exists|m: int|
                0 <= m < es.len() && #[trigger] r[k] == es[m] by {
                if k < w.len() {
                    assert(r[k] == w[k]);
                } else {
                    assert(r[k] == es[es.len() - 1]);
                }
            }
        }
    }
}

/// Every notification, and forgetting an owner's streams, keeps the keys of the streams
/// distinct: the registry holds each stream once.
pub proof fn notices_keep_keys_distinct(es: Seq<Stream>, n: StreamNotice, owner: u16)
    requires
        distinct_stream_keys(es),
    ensures
        distinct_stream_keys(apply_notice(es, n).0),
        distinct_stream_keys(without_owner(es, owner)),
{
    match n {
        StreamNotice::Started(ps) => lemma_merge_all_distinct(es, part_streams(0, ps@)),
        StreamNotice::Info(ps) => lemma_merge_all_distinct(es, part_streams(1, ps@)),
        StreamNotice::Updated(ps) => lemma_merge_all_distinct(es, part_streams(2, ps@)),
        StreamNotice::Stopped(ps) => lemma_remove_all_props(es, part_keys(ps@)),
        StreamNotice::Other => {},
    }
    lemma_without_owner_distinct(es, owner);
}

/// No two parts of a notification name the same stream.
pub open spec fn distinct_parts(ps: Seq<StreamPart>) -> bool {
    forall|i: int, j: int|
        0 <= i < j < ps.len() ==> (ps[i].client_id, ps[i].stream_id@) != (
            ps[j].client_id,
            ps[j].stream_id@,
        )
}

/// The parts of a notification that starts, describes or updates streams name each stream
/// once.
pub open spec fn notice_names_each_once(n: StreamNotice) -> bool {
    match n {
        StreamNotice::Started(ps) => distinct_parts(ps@),
        StreamNotice::Info(ps) => distinct_parts(ps@),
        StreamNotice::Updated(ps) => distinct_parts(ps@),
        _ => true,
    }
}

proof fn lemma_part_streams_distinct(kind: int, ps: Seq<StreamPart>)
    requires
        distinct_parts(ps),
    ensures
        distinct_stream_keys(part_streams(kind, ps)),
{
    let ss = part_streams(kind, ps);
    assert forall|a: int, b: int| 0 <= a < b < ss.len() implies key_of(ss[a]) != key_of(ss[b]) by {
        assert(ss[a] == part_stream(kind, ps[a]));
        assert(ss[b] == part_stream(kind, ps[b]));
    }
}

/// Processing the same notification a second time changes nothing and reports no change,
/// for a registry that holds each stream once and a notification that names each stream
/// once.
pub proof fn applying_again_changes_nothing(es: Seq<Stream>, n: StreamNotice)
    requires
        distinct_stream_keys(es),
        notice_names_each_once(n),
    ensures
        apply_notice(apply_notice(es, n).0, n) == (apply_notice(es, n).0, false),
{
    match n {
        StreamNotice::Started(ps) => {
            lemma_part_streams_distinct(0, ps@);
            merging_again_changes_nothing(es, part_streams(0, ps@));
        },
        StreamNotice::Info(ps) => {
            lemma_part_streams_distinct(1, ps@);
            merging_again_changes_nothing(es, part_streams(1, ps@));
        },
        StreamNotice::Updated(ps) => {
            lemma_part_streams_distinct(2, ps@);
            merging_again_changes_nothing(es, part_streams(2, ps@));
        },
        StreamNotice::Stopped(ps) => removing_again_changes_nothing(es, part_keys(ps@)),
        StreamNotice::Other => {},
    }
}

} // verus!
