//! Channel tree structure

use vstd::prelude::*;
use crate::state::{
    Channel, channel_named, deref_all, enumerates, first, lemma_enumerates_iter, lemma_first_at,
    lemma_first_none, lemma_none_all, opt_deref, unpair,
};
use crate::text::{append_str, str_eq, string_of};
use std::collections::HashMap;
use vstd::std_specs::iter::IteratorSpec;

verus! {

broadcast use vstd::std_specs::hash::group_hash_axioms;

/// `s` without any occurrence of `x`, order kept.
pub open spec fn without(s: Seq<u64>, x: u64) -> Seq<u64>
    decreases s.len(),
{
    if s.len() == 0 {
        Seq::empty()
    } else if s.last() == x {
        without(s.drop_last(), x)
    } else {
        without(s.drop_last(), x).push(s.last())
    }
}

fn without_exec(v: &Vec<u64>, x: u64) -> (r: Vec<u64>)
    ensures
        r@ == without(v@, x),
{
    let mut r: Vec<u64> = Vec::new();
    let mut i: usize = 0;
    assert(v@.take(0) =~= Seq::<u64>::empty());
    while i < v.len()
        invariant
            i <= v.len(),
            r@ == without(v@.take(i as int), x),
        decreases v.len() - i,
    {
        assert(v@.take(i + 1 as int).drop_last() =~= v@.take(i as int));
        assert(v@.take(i + 1 as int).last() == v@[i as int]);
        if v[i] != x {
            r.push(v[i]);
        }
        i += 1;
    }
    assert(v@.take(v.len() as int) =~= v@);
    r
}

fn contains_id(v: &Vec<u64>, x: u64) -> (r: bool)
    ensures
        r == v@.contains(x),
{
    let mut i: usize = 0;
    while i < v.len()
        invariant
            i <= v.len(),
            forall|j: int| 0 <= j < i ==> v@[j] != x,
        decreases v.len() - i,
    {
        if v[i] == x {
            return true;
        }
        i += 1;
    }
    false
}

/// The channels that the listed ids name, in list order, skipping unknown ids.
pub open spec fn present(m: Map<u64, Channel>, ids: Seq<u64>) -> Seq<Channel>
    decreases ids.len(),
{
    if ids.len() == 0 {
        Seq::empty()
    } else if m.contains_key(ids.last()) {
        present(m, ids.drop_last()).push(m[ids.last()])
    } else {
        present(m, ids.drop_last())
    }
}

/// The list stored under a key of a map of lists (empty when absent).
pub open spec fn list_at(m: Map<u64, Vec<u64>>, k: u64) -> Seq<u64> {
    if m.contains_key(k) {
        m[k]@
    } else {
        Seq::empty()
    }
}

/// Channel tree representation
#[derive(Debug, Clone)]
pub struct ChannelTree {
    /// All channels indexed by ID
    channels: HashMap<u64, Channel>,
    /// Root channel IDs
    roots: Vec<u64>,
    /// Children by parent ID
    children: HashMap<u64, Vec<u64>>,
}

impl ChannelTree {
    /// The channels, by id.
    pub closed spec fn channel_map(&self) -> Map<u64, Channel> {
        self.channels@
    }

    /// The ids listed as roots, in order.
    pub closed spec fn root_ids(&self) -> Seq<u64> {
        self.roots@
    }

    /// The ids listed as children of `parent`, in order.
    pub closed spec fn child_ids(&self, parent: u64) -> Seq<u64> {
        list_at(self.children@, parent)
    }

    /// Every channel is stored under its own id.
    pub closed spec fn wf(&self) -> bool {
        forall|k: u64| #[trigger] self.channels@.contains_key(k) ==> self.channels@[k].id == k
    }

    /// Create an empty channel tree
    pub fn new() -> (t: ChannelTree)
        ensures
            t.wf(),
            t.channel_map() == Map::<u64, Channel>::empty(),
            t.root_ids() == Seq::<u64>::empty(),
            forall|p: u64| #[trigger] t.child_ids(p) == Seq::<u64>::empty(),
    {
        ChannelTree { channels: HashMap::new(), roots: Vec::new(), children: HashMap::new() }
    }

    fn push_child(&mut self, parent: u64, id: u64)
        ensures
            final(self).channels@ == old(self).channels@,
            final(self).roots@ == old(self).roots@,
            final(self).child_ids(parent) == old(self).child_ids(parent).push(id),
            forall|p: u64| p != parent ==> #[trigger] final(self).child_ids(p) == old(self).child_ids(p),
    {
        let mut v = match self.children.remove(&parent) {
            Some(v) => v,
            None => Vec::new(),
        };
        v.push(id);
        self.children.insert(parent, v);
    }

    fn drop_child(&mut self, parent: u64, id: u64)
        ensures
            final(self).channels@ == old(self).channels@,
            final(self).roots@ == old(self).roots@,
            final(self).child_ids(parent) == without(old(self).child_ids(parent), id),
            forall|p: u64| p != parent ==> #[trigger] final(self).child_ids(p) == old(self).child_ids(p),
    {
        match self.children.remove(&parent) {
            Some(v) => {
                let w = without_exec(&v, id);
                self.children.insert(parent, w);
            },
            None => {
                assert(without(Seq::<u64>::empty(), id) =~= Seq::<u64>::empty());
            },
        }
    }

    /// Add a channel to the tree
    pub fn add_channel(&mut self, channel: Channel)
        requires
            old(self).wf(),
        ensures
            final(self).wf(),
            final(self).channel_map() == old(self).channel_map().insert(channel.id, channel),
            channel.parent_id == 0 ==> {
                &&& final(self).root_ids() == if old(self).root_ids().contains(channel.id) {
                    old(self).root_ids()
                } else {
                    old(self).root_ids().push(channel.id)
                }
                &&& forall|p: u64| #[trigger] final(self).child_ids(p) == old(self).child_ids(p)
            },
            channel.parent_id != 0 ==> {
                &&& final(self).root_ids() == old(self).root_ids()
                &&& final(self).child_ids(channel.parent_id) == old(self).child_ids(
                    channel.parent_id,
                ).push(channel.id)
                &&& forall|p: u64|
                    p != channel.parent_id ==> #[trigger] final(self).child_ids(p) == old(
                        self,
                    ).child_ids(p)
            },
    {
        let id = channel.id;
        let parent_id = channel.parent_id;
        self.channels.insert(id, channel);
        if parent_id == 0 {
            if !contains_id(&self.roots, id) {
                self.roots.push(id);
            }
        } else {
            self.push_child(parent_id, id);
        }
    }

    /// Remove a channel from the tree
    pub fn remove_channel(&mut self, id: u64) -> (r: Option<Channel>)
        requires
            old(self).wf(),
        ensures
            final(self).wf(),
            match r {
                None => {
                    &&& !old(self).channel_map().contains_key(id)
                    &&& final(self).channel_map() == old(self).channel_map()
                    &&& final(self).root_ids() == old(self).root_ids()
                    &&& forall|p: u64| #[trigger] final(self).child_ids(p) == old(self).child_ids(p)
                },
                Some(c) => {
                    &&& old(self).channel_map().contains_key(id)
                    &&& c == old(self).channel_map()[id]
                    &&& final(self).channel_map() == old(self).channel_map().remove(id)
                    &&& final(self).root_ids() == without(old(self).root_ids(), id)
                    &&& final(self).child_ids(id) == Seq::<u64>::empty()
                    &&& c.parent_id != id ==> final(self).child_ids(c.parent_id) == without(
                        old(self).child_ids(c.parent_id),
                        id,
                    )
                    &&& forall|p: u64|
                        p != id && p != c.parent_id ==> #[trigger] final(self).child_ids(p) == old(
                            self,
                        ).child_ids(p)
                },
            },
    {
        let ghost before = *self;
        let channel = match self.channels.remove(&id) {
            Some(c) => c,
            None => {
                assert(self.children@ == before.children@);
                assert forall|p: u64| #[trigger] self.child_ids(p) == before.child_ids(p) by {}
                return None;
            },
        };
        self.roots = without_exec(&self.roots, id);
        let ghost mid = *self;
        self.drop_child(channel.parent_id, id);
        let ghost mid2 = *self;
        self.children.remove(&id);
        assert forall|p: u64| p != id implies #[trigger] self.child_ids(p) == mid2.child_ids(p) by {
            assert(self.children@.contains_key(p) == mid2.children@.contains_key(p));
        }
        assert forall|p: u64| p != id && p != channel.parent_id implies #[trigger] self.child_ids(p)
            == before.child_ids(p) by {
            assert(mid2.child_ids(p) == mid.child_ids(p));
        }
        Some(channel)
    }

    /// Update a channel
    pub fn update_channel(&mut self, channel: Channel)
        requires
            old(self).wf(),
        ensures
            final(self).wf(),
            final(self).channel_map() == old(self).channel_map().insert(channel.id, channel),
            ({
                let moved = old(self).channel_map().contains_key(channel.id) && old(
                    self,
                ).channel_map()[channel.id].parent_id != channel.parent_id;
                let op = old(self).channel_map()[channel.id].parent_id;
                let np = channel.parent_id;
                if !moved {
                    &&& final(self).root_ids() == old(self).root_ids()
                    &&& forall|p: u64| #[trigger] final(self).child_ids(p) == old(self).child_ids(p)
                } else if np == 0 {
                    &&& final(self).root_ids() == old(self).root_ids().push(channel.id)
                    &&& final(self).child_ids(op) == without(old(self).child_ids(op), channel.id)
                    &&& forall|p: u64|
                        p != op ==> #[trigger] final(self).child_ids(p) == old(self).child_ids(p)
                } else {
                    &&& final(self).root_ids() == old(self).root_ids()
                    &&& final(self).child_ids(op) == without(old(self).child_ids(op), channel.id)
                    &&& final(self).child_ids(np) == old(self).child_ids(np).push(channel.id)
                    &&& forall|p: u64|
                        p != op && p != np ==> #[trigger] final(self).child_ids(p) == old(
                            self,
                        ).child_ids(p)
                }
            }),
    {
        let old_parent = match self.channels.get(&channel.id) {
            Some(c) => Some(c.parent_id),
            None => None,
        };
        let ghost before = *self;
        if let Some(old_parent_id) = old_parent {
            if old_parent_id != channel.parent_id {
                self.drop_child(old_parent_id, channel.id);
                let ghost mid = *self;
                if channel.parent_id == 0 {
                    self.roots.push(channel.id);
                    assert(self.children@ == mid.children@);
                    assert forall|p: u64| p != old_parent_id implies #[trigger] self.child_ids(p)
                        == before.child_ids(p) by {
                        assert(mid.child_ids(p) == before.child_ids(p));
                    }
                } else {
                    self.push_child(channel.parent_id, channel.id);
                    assert forall|p: u64|
                        p != old_parent_id && p != channel.parent_id implies #[trigger] self.child_ids(
                        p,
                    ) == before.child_ids(p) by {
                        assert(mid.child_ids(p) == before.child_ids(p));
                    }
                    assert(mid.child_ids(channel.parent_id) == before.child_ids(channel.parent_id));
                }
            }
        }
        let ghost mid2 = *self;
        self.channels.insert(channel.id, channel);
        assert(self.children@ == mid2.children@);
        assert forall|p: u64| #[trigger] self.child_ids(p) == mid2.child_ids(p) by {}
    }

    /// Get a channel by ID
    pub fn get(&self, id: u64) -> (r: Option<&Channel>)
        ensures
            match r {
                Some(c) => self.channel_map().contains_key(id) && *c == self.channel_map()[id],
                None => !self.channel_map().contains_key(id),
            },
    {
        self.channels.get(&id)
    }

    fn present_exec(&self, ids: &Vec<u64>) -> (r: Vec<&Channel>)
        ensures
            deref_all(r@) == present(self.channel_map(), ids@),
    {
        let mut r: Vec<&Channel> = Vec::new();
        let mut i: usize = 0;
        assert(ids@.take(0) =~= Seq::<u64>::empty());
        assert(deref_all(r@) =~= Seq::<Channel>::empty());
        while i < ids.len()
            invariant
                i <= ids.len(),
                deref_all(r@) == present(self.channel_map(), ids@.take(i as int)),
            decreases ids.len() - i,
        {
            assert(ids@.take(i + 1 as int).drop_last() =~= ids@.take(i as int));
            assert(ids@.take(i + 1 as int).last() == ids@[i as int]);
            let ghost before = r@;
            match self.channels.get(&ids[i]) {
                Some(c) => {
                    r.push(c);
                    assert(deref_all(r@) =~= deref_all(before).push(*c));
                },
                None => {},
            }
            i += 1;
        }
        assert(ids@.take(ids.len() as int) =~= ids@);
        r
    }

    /// Get root channels
    pub fn roots(&self) -> (r: Vec<&Channel>)
        ensures
            deref_all(r@) == present(self.channel_map(), self.root_ids()),
    {
        self.present_exec(&self.roots)
    }

    /// Get children of a channel
    pub fn children(&self, parent_id: u64) -> (r: Vec<&Channel>)
        ensures
            deref_all(r@) == present(self.channel_map(), self.child_ids(parent_id)),
    {
        match self.children.get(&parent_id) {
            Some(ids) => self.present_exec(ids),
            None => {
                let r: Vec<&Channel> = Vec::new();
                assert(deref_all(r@) =~= Seq::<Channel>::empty());
                r
            },
        }
    }

    /// Get parent of a channel
    pub fn parent(&self, id: u64) -> (r: Option<&Channel>)
        ensures
            match r {
                Some(c) => self.channel_map().contains_key(id) && self.channel_map().contains_key(
                    self.channel_map()[id].parent_id,
                ) && *c == self.channel_map()[self.channel_map()[id].parent_id],
                None => !self.channel_map().contains_key(id) || !self.channel_map().contains_key(
                    self.channel_map()[id].parent_id,
                ),
            },
    {
        match self.channels.get(&id) {
            Some(c) => self.channels.get(&c.parent_id),
            None => None,
        }
    }

    /// Get channel count
    pub fn len(&self) -> (n: usize)
        ensures
            n == self.channel_map().len(),
    {
        self.channels.len()
    }

    /// Check if tree is empty
    pub fn is_empty(&self) -> (r: bool)
        ensures
            r == (self.channel_map().len() == 0),
    {
        self.channels.is_empty()
    }

    /// Get the path from root to a channel
    pub fn path_to(&self, id: u64) -> (r: Vec<&Channel>)
        requires
            self.reaches_root(id),
        ensures
            deref_all(r@) == self.ancestry(id).reverse(),
    {
        let ghost m = self.channel_map();
        let ghost n = choose|n: nat| ends_within(m, id, n);
        let mut path: Vec<&Channel> = Vec::new();
        let mut current = id;
        let ghost mut k: nat = n;
        assert(deref_all(path@) =~= Seq::<Channel>::empty());
        loop
            invariant_except_break
                m == self.channels@,
                ends_within(m, current, k),
                climb(m, id, n) == deref_all(path@) + climb(m, current, k),
            ensures
                deref_all(path@) == climb(m, id, n),
            decreases k,
        {
            let ghost before = path@;
            match self.channels.get(&current) {
                None => {
                    assert(deref_all(path@) + climb(m, current, k) =~= deref_all(path@));
                    break ;
                },
                Some(c) => {
                    path.push(c);
                    assert(deref_all(path@) =~= deref_all(before).push(*c));
                    if c.parent_id == 0 {
                        assert(climb(m, current, k) =~= seq![*c]);
                        assert(deref_all(before) + seq![*c] =~= deref_all(before).push(*c));
                        break ;
                    }
                    proof {
                        assert(climb(m, current, k) =~= seq![*c] + climb(
                            m,
                            c.parent_id,
                            (k - 1) as nat,
                        ));
                        assert(deref_all(before) + (seq![*c] + climb(m, c.parent_id, (k - 1) as nat))
                            =~= deref_all(path@) + climb(m, c.parent_id, (k - 1) as nat));
                        k = (k - 1) as nat;
                    }
                    current = c.parent_id;
                },
            }
        }
        let mut r: Vec<&Channel> = Vec::new();
        let mut i: usize = path.len();
        while i > 0
            invariant
                i <= path.len(),
                r@ == path@.subrange(i as int, path.len() as int).reverse(),
            decreases i,
        {
            i -= 1;
            r.push(path[i]);
            assert(r@ =~= path@.subrange(i as int, path.len() as int).reverse());
        }
        assert(path@.subrange(0, path.len() as int) =~= path@);
        assert(deref_all(r@) =~= deref_all(path@).reverse());
        r
    }

    /// Find a channel by name
    pub fn find_by_name(&self, name: &str) -> (r: Option<&Channel>)
        ensures
            exists|v: Seq<(u64, Channel)>|
                enumerates(self.channel_map(), v) && opt_deref(r) == first(v, channel_named(name@)),
            r is None <==> forall|k: u64|
                #[trigger] self.channel_map().contains_key(k) ==> self.channel_map()[k].name@
                    != name@,
            r matches Some(c) ==> c.name@ == name@,
    {
        let ghost p = channel_named(name@);
        let ghost v = unpair(vstd::std_specs::hash::spec_hash_map_iter(&self.channels).remaining());
        for pair in it: self.channels.iter()
            invariant
                it.seq() == vstd::std_specs::hash::spec_hash_map_iter(&self.channels).remaining(),
                it.seq().no_duplicates(),
                v == unpair(it.seq()),
                p == channel_named(name@),
                forall|j: int| 0 <= j < it.index() ==> !p(#[trigger] v[j].1),
        {
            let (_, c) = pair;
            proof {
                let i = it.index() as int;
                assert(pair == it.seq()[i]);
                assert(*c == v[i].1);
                lemma_enumerates_iter(&self.channels);
            }
            if str_eq(c.name.as_str(), name) {
                proof {
                    lemma_first_at(v, it.index() as int, p);
                    assert(enumerates(self.channel_map(), v) && opt_deref(Some(c)) == first(
                        v,
                        channel_named(name@),
                    ));
                }
                return Some(c);
            }
        }
        proof {
            lemma_enumerates_iter(&self.channels);
            lemma_first_none(v, p);
            lemma_none_all(self.channels@, v, p);
        }
        None
    }

    /// Find channels matching a predicate
    pub fn find_all<F: Fn(&Channel) -> bool>(&self, predicate: F) -> (r: Vec<&Channel>)
        requires
            forall|c: &Channel| #[trigger] predicate.requires((c,)),
        ensures
            exists|v: Seq<(u64, Channel)>, keep: Seq<bool>|
                {
                    &&& enumerates(self.channel_map(), v)
                    &&& keep.len() == v.len()
                    &&& forall|i: int|
                        0 <= i < v.len() ==> #[trigger] predicate.ensures((&v[i].1,), keep[i])
                    &&& deref_all(r@) == pick(v, keep)
                },
    {
        let ghost v = unpair(vstd::std_specs::hash::spec_hash_map_iter(&self.channels).remaining());
        let ghost mut keep: Seq<bool> = Seq::empty();
        let mut r: Vec<&Channel> = Vec::new();
        assert(deref_all(r@) =~= Seq::<Channel>::empty());
        for pair in it: self.channels.iter()
            invariant
                it.seq() == vstd::std_specs::hash::spec_hash_map_iter(&self.channels).remaining(),
                it.seq().no_duplicates(),
                v == unpair(it.seq()),
                forall|c: &Channel| #[trigger] predicate.requires((c,)),
                keep.len() == it.index(),
                forall|i: int|
                    0 <= i < it.index() ==> #[trigger] predicate.ensures((&v[i].1,), keep[i]),
                deref_all(r@) == pick(v.take(it.index() as int), keep),
        {
            let (_, c) = pair;
            let ghost before = r@;
            let ghost i = it.index() as int;
            proof {
                assert(pair == it.seq()[i]);
                assert(*c == v[i].1);
            }
            let b = predicate(c);
            proof {
                lemma_pick_step(v, keep, b, i);
                keep = keep.push(b);
            }
            if b {
                r.push(c);
                assert(deref_all(r@) =~= deref_all(before).push(*c));
            }
        }
        proof {
            assert(v.take(v.len() as int) =~= v);
            lemma_enumerates_iter(&self.channels);
        }
        r
    }

    /// Get all channels as a flat list
    pub fn all_channels(&self) -> (r: Vec<&Channel>)
        ensures
            exists|v: Seq<(u64, Channel)>|
                enumerates(self.channel_map(), v) && deref_all(r@) == values_of(v),
    {
        let ghost v = unpair(vstd::std_specs::hash::spec_hash_map_iter(&self.channels).remaining());
        let mut r: Vec<&Channel> = Vec::new();
        for pair in it: self.channels.iter()
            invariant
                it.seq() == vstd::std_specs::hash::spec_hash_map_iter(&self.channels).remaining(),
                it.seq().no_duplicates(),
                v == unpair(it.seq()),
                deref_all(r@) == values_of(v.take(it.index() as int)),
        {
            let (_, c) = pair;
            let ghost before = r@;
            proof {
                let i = it.index() as int;
                assert(pair == it.seq()[i]);
                assert(*c == v[i].1);
            }
            r.push(c);
            proof {
                let i = it.index() as int;
                assert(values_of(v.take(i + 1)) =~= values_of(v.take(i)).push(v[i].1));
                assert(deref_all(r@) =~= deref_all(before).push(*c));
            }
        }
        proof {
            assert(v.take(v.len() as int) =~= v);
            lemma_enumerates_iter(&self.channels);
        }
        r
    }
}

/// The values of a list of entries, in order.
pub open spec fn values_of<K, V>(v: Seq<(K, V)>) -> Seq<V> {
    v.map_values(|p: (K, V)| p.1)
}

/// The keys of a list of entries, in order.
pub open spec fn keys_of<K, V>(v: Seq<(K, V)>) -> Seq<K> {
    v.map_values(|p: (K, V)| p.0)
}

/// The values whose flag in `keep` is set, in order.
pub open spec fn pick<K, V>(v: Seq<(K, V)>, keep: Seq<bool>) -> Seq<V>
    decreases v.len(),
{
    if v.len() == 0 || keep.len() < v.len() {
        Seq::empty()
    } else if keep[v.len() - 1] {
        pick(v.drop_last(), keep.take(v.len() - 1)).push(v.last().1)
    } else {
        pick(v.drop_last(), keep.take(v.len() - 1))
    }
}

proof fn lemma_pick_step<K, V>(v: Seq<(K, V)>, keep: Seq<bool>, b: bool, i: int)
    requires
        0 <= i < v.len(),
        keep.len() == i,
    ensures
        pick(v.take(i + 1), keep.push(b)) == if b {
            pick(v.take(i), keep).push(v[i].1)
        } else {
            pick(v.take(i), keep)
        },
{
    let s = v.take(i + 1);
    assert(s.drop_last() =~= v.take(i));
    assert(keep.push(b).take(i) =~= keep);
}

/// Following parent links from `id` stops (at a missing channel or a root) within `n` steps.
pub open spec fn ends_within(m: Map<u64, Channel>, id: u64, n: nat) -> bool
    decreases n,
{
    if !m.contains_key(id) || m[id].parent_id == 0 {
        true
    } else if n == 0 {
        false
    } else {
        ends_within(m, m[id].parent_id, (n - 1) as nat)
    }
}

/// The channels met following parent links from `id`, at most `n` links, nearest first.
pub open spec fn climb(m: Map<u64, Channel>, id: u64, n: nat) -> Seq<Channel>
    decreases n,
{
    if !m.contains_key(id) {
        Seq::empty()
    } else if m[id].parent_id == 0 || n == 0 {
        seq![m[id]]
    } else {
        seq![m[id]] + climb(m, m[id].parent_id, (n - 1) as nat)
    }
}

impl ChannelTree {
    /// Following parent links from `id` stops after finitely many steps.
    pub open spec fn reaches_root(&self, id: u64) -> bool {
        exists|n: nat| ends_within(self.channel_map(), id, n)
    }

    /// The channels from `id` up to where its parent links stop, nearest first.
    pub open spec fn ancestry(&self, id: u64) -> Seq<Channel> {
        climb(self.channel_map(), id, choose|n: nat| ends_within(self.channel_map(), id, n))
    }

    /// The channels listed, by id, a later one replacing an earlier one with the same id.
    fn order_of(&self, id: u64) -> (o: i32)
        ensures
            o == order_key(self.channel_map())(id),
    {
        match self.channels.get(&id) {
            Some(c) => c.order,
            None => 0,
        }
    }

    /// Insert `x` into `r`, after every id whose order is not greater than its own.
    fn insert_by_order(&self, r: &mut Vec<u64>, x: u64)
        ensures
            final(r)@ == insert_sorted(old(r)@, x, order_key(self.channel_map())),
    {
        let ghost key = order_key(self.channel_map());
        let kx = self.order_of(x);
        let mut p: usize = r.len();
        while p > 0 && self.order_of(r[p - 1]) > kx
            invariant
                p <= r.len(),
                key == order_key(self.channel_map()),
                kx == key(x),
                forall|j: int| p <= j < r.len() ==> key(#[trigger] r@[j]) > key(x),
            decreases p,
        {
            p -= 1;
        }
        proof {
            lemma_insert_sorted_at(r@, x, key, p as int);
        }
        r.insert(p, x);
        assert(r@ =~= old(r)@.take(p as int).push(x) + old(r)@.skip(p as int));
    }

    /// Roots and child lists hold the ids of `m`, listed in the order of `v` and then stably
    /// sorted by channel order, each under its parent (parent 0: the roots).
    pub open spec fn laid_out(&self, m: Map<u64, Channel>, v: Seq<(u64, Channel)>) -> bool {
        let sorted = sort_by_key(keys_of(v), order_key(m));
        &&& self.root_ids() == under(m, sorted, 0)
        &&& self.child_ids(0) == Seq::<u64>::empty()
        &&& forall|p: u64| p != 0 ==> #[trigger] self.child_ids(p) == under(m, sorted, p)
    }

    /// Rebuild internal structure
    fn rebuild_structure(&mut self)
        ensures
            final(self).channels@ == old(self).channels@,
            exists|v: Seq<(u64, Channel)>|
                enumerates(old(self).channel_map(), v) && final(self).laid_out(
                    old(self).channel_map(),
                    v,
                ),
    {
        let ghost m = self.channel_map();
        let ghost key = order_key(m);
        let ghost v = unpair(vstd::std_specs::hash::spec_hash_map_iter(&self.channels).remaining());
        let mut sorted: Vec<u64> = Vec::new();
        for pair in it: self.channels.iter()
            invariant
                it.seq() == vstd::std_specs::hash::spec_hash_map_iter(&self.channels).remaining(),
                it.seq().no_duplicates(),
                v == unpair(it.seq()),
                m == self.channel_map(),
                key == order_key(m),
                sorted@ == sort_by_key(keys_of(v.take(it.index() as int)), key),
        {
            let (k, _) = pair;
            proof {
                let i = it.index() as int;
                assert(pair == it.seq()[i]);
                assert(*k == v[i].0);
                assert(keys_of(v.take(i + 1)).drop_last() =~= keys_of(v.take(i)));
                assert(keys_of(v.take(i + 1)).last() == v[i].0);
            }
            self.insert_by_order(&mut sorted, *k);
        }
        proof {
            assert(v.take(v.len() as int) =~= v);
            lemma_enumerates_iter(&self.channels);
        }
        self.roots = Vec::new();
        self.children = HashMap::new();
        assert(sorted@.take(0) =~= Seq::<u64>::empty());
        let mut i: usize = 0;
        while i < sorted.len()
            invariant
                i <= sorted.len(),
                self.channels@ == m,
                self.root_ids() == under(m, sorted@.take(i as int), 0),
                self.child_ids(0) == Seq::<u64>::empty(),
                forall|p: u64|
                    p != 0 ==> #[trigger] self.child_ids(p) == under(m, sorted@.take(i as int), p),
            decreases sorted.len() - i,
        {
            let id = sorted[i];
            let ghost t = sorted@.take(i + 1 as int);
            assert(t.drop_last() =~= sorted@.take(i as int));
            assert(t.last() == id);
            let ghost before = *self;
            match self.channels.get(&id) {
                Some(c) => {
                    let parent = c.parent_id;
                    if parent == 0 {
                        self.roots.push(id);
                        assert(self.children@ == before.children@);
                        assert forall|p: u64| #[trigger] self.child_ids(p) == before.child_ids(p) by {}
                    } else {
                        self.push_child(parent, id);
                    }
                },
                None => {},
            }
            i += 1;
        }
        assert(sorted@.take(sorted.len() as int) =~= sorted@);
    }

    /// Build a tree from a list of channels
    pub fn from_channels(channels: Vec<Channel>) -> (t: ChannelTree)
        ensures
            t.wf(),
            t.channel_map() == map_of(channels@),
            exists|v: Seq<(u64, Channel)>|
                enumerates(map_of(channels@), v) && t.laid_out(map_of(channels@), v),
    {
        let mut tree = Self::new();
        let ghost all = channels@;
        for channel in it: channels.into_iter()
            invariant
                it.seq() == all,
                tree.wf(),
                tree.channel_map() == map_of(all.take(it.index() as int)),
        {
            proof {
                let i = it.index() as int;
                assert(all.take(i + 1).drop_last() =~= all.take(i));
                assert(all.take(i + 1).last() == channel);
            }
            tree.add_channel(channel);
        }
        assert(all.take(all.len() as int) =~= all);
        tree.rebuild_structure();
        tree
    }

    /// The text of the subtree at `id`, its root line indented by `depth` steps, children
    /// followed down at most `fuel` levels.
    pub open spec fn subtree_text(&self, id: u64, depth: nat, fuel: nat) -> Seq<char>
        decreases fuel, 0int,
    {
        if fuel == 0 || !self.channel_map().contains_key(id) {
            Seq::empty()
        } else {
            indent(depth) + self.channel_map()[id].name@ + seq!['\n'] + self.forest_text(
                self.child_ids(id),
                depth + 1,
                (fuel - 1) as nat,
            )
        }
    }

    /// The texts of the subtrees at `ids`, one after the other.
    pub open spec fn forest_text(&self, ids: Seq<u64>, depth: nat, fuel: nat) -> Seq<char>
        decreases fuel, ids.len(),
    {
        if ids.len() == 0 {
            Seq::empty()
        } else {
            self.forest_text(ids.drop_last(), depth, fuel) + self.subtree_text(
                ids.last(),
                depth,
                fuel,
            )
        }
    }

    /// The subtree at `id` has no path of child links longer than `fuel`.
    pub open spec fn subtree_fits(&self, id: u64, fuel: nat) -> bool
        decreases fuel, 0int,
    {
        if !self.channel_map().contains_key(id) {
            true
        } else if fuel == 0 {
            false
        } else {
            self.forest_fits(self.child_ids(id), (fuel - 1) as nat)
        }
    }

    /// Every subtree at `ids` fits within `fuel` levels.
    pub open spec fn forest_fits(&self, ids: Seq<u64>, fuel: nat) -> bool
        decreases fuel, ids.len(),
    {
        ids.len() == 0 || (self.forest_fits(ids.drop_last(), fuel) && self.subtree_fits(
            ids.last(),
            fuel,
        ))
    }

    /// Following child links from the roots stops within a depth that a `usize` can count.
    pub open spec fn printable(&self) -> bool {
        exists|f: nat| f <= usize::MAX && self.forest_fits(self.root_ids(), f)
    }

    /// The indented outline of the tree, one channel name per line.
    pub open spec fn tree_text(&self) -> Seq<char> {
        self.forest_text(
            self.root_ids(),
            0,
            choose|f: nat| f <= usize::MAX && self.forest_fits(self.root_ids(), f),
        )
    }

    /// A walk allowed more levels prints a subtree that fits the same.
    pub proof fn subtree_text_fuel(&self, id: u64, depth: nat, f: nat, g: nat)
        requires
            self.subtree_fits(id, f),
            f <= g,
        ensures
            self.subtree_text(id, depth, f) == self.subtree_text(id, depth, g),
        decreases f, 0int,
    {
        if self.channel_map().contains_key(id) {
            self.forest_text_fuel(self.child_ids(id), depth + 1, (f - 1) as nat, (g - 1) as nat);
        }
    }

    /// A walk allowed more levels prints subtrees that fit the same.
    pub proof fn forest_text_fuel(&self, ids: Seq<u64>, depth: nat, f: nat, g: nat)
        requires
            self.forest_fits(ids, f),
            f <= g,
        ensures
            self.forest_text(ids, depth, f) == self.forest_text(ids, depth, g),
        decreases f, ids.len(),
    {
        if ids.len() > 0 {
            self.forest_text_fuel(ids.drop_last(), depth, f, g);
            self.subtree_text_fuel(ids.last(), depth, f, g);
        }
    }

    /// The printed outline is the text of the root subtrees walked at any depth limit the
    /// tree fits within: each channel's name on a line of its own, indented two spaces per
    /// level, its children (in their listed order) after it.
    pub proof fn tree_text_at(&self, f: nat)
        requires
            f <= usize::MAX,
            self.forest_fits(self.root_ids(), f),
        ensures
            self.tree_text() == self.forest_text(self.root_ids(), 0, f),
    {
        let c = choose|c: nat| c <= usize::MAX && self.forest_fits(self.root_ids(), c);
        if c <= f {
            self.forest_text_fuel(self.root_ids(), 0, c, f);
        } else {
            self.forest_text_fuel(self.root_ids(), 0, f, c);
        }
    }

    proof fn lemma_forest_step(&self, ids: Seq<u64>, i: int, depth: nat, fuel: nat)
        requires
            0 <= i < ids.len(),
            self.forest_fits(ids.take(i + 1), fuel),
        ensures
            self.forest_fits(ids.take(i), fuel),
            self.subtree_fits(ids[i], fuel),
            self.forest_text(ids.take(i + 1), depth, fuel) == self.forest_text(
                ids.take(i),
                depth,
                fuel,
            ) + self.subtree_text(ids[i], depth, fuel),
    {
        let t = ids.take(i + 1);
        assert(t.drop_last() =~= ids.take(i));
        assert(t.last() == ids[i]);
    }

    proof fn lemma_forest_prefix(&self, ids: Seq<u64>, i: int, fuel: nat)
        requires
            0 <= i <= ids.len(),
            self.forest_fits(ids, fuel),
        ensures
            self.forest_fits(ids.take(i), fuel),
        decreases ids.len() - i,
    {
        if i < ids.len() {
            self.lemma_forest_prefix(ids, i + 1, fuel);
            self.lemma_forest_step(ids, i, 0, fuel);
        } else {
            assert(ids.take(i) =~= ids);
        }
    }

    fn print_subtree(&self, id: u64, depth: usize, output: &mut Vec<char>, Ghost(fuel): Ghost<nat>)
        requires
            self.subtree_fits(id, fuel),
            depth + fuel <= usize::MAX,
        ensures
            final(output)@ == old(output)@ + self.subtree_text(id, depth as nat, fuel),
        decreases fuel,
    {
        if let Some(channel) = self.channels.get(&id) {
            let ghost start = output@;
            let mut d: usize = 0;
            while d < depth
                invariant
                    d <= depth,
                    output@ == start + indent(d as nat),
                decreases depth - d,
            {
                output.push(' ');
                output.push(' ');
                assert(indent((d + 1) as nat) =~= indent(d as nat) + seq![' ', ' ']);
                d += 1;
            }
            append_str(output, channel.name.as_str());
            output.push('\n');
            let ghost head = output@;
            assert(head =~= start + (indent(depth as nat) + channel.name@ + seq!['\n']));
            match self.children.get(&id) {
                Some(children) => {
                    let ghost ids = children@;
                    let ghost f = (fuel - 1) as nat;
                    assert(ids.take(0) =~= Seq::<u64>::empty());
                    let mut i: usize = 0;
                    while i < children.len()
                        invariant
                            i <= children.len(),
                            ids == children@,
                            ids == list_at(self.children@, id),
                            fuel > 0,
                            f == fuel - 1,
                            depth + fuel <= usize::MAX,
                            self.forest_fits(ids, f),
                            output@ == head + self.forest_text(ids.take(i as int), depth as nat + 1, f),
                        decreases children.len() - i,
                    {
                        proof {
                            self.lemma_forest_prefix(ids, i + 1, f);
                            self.lemma_forest_step(ids, i as int, depth as nat + 1, f);
                        }
                        self.print_subtree(children[i], depth + 1, output, Ghost(f));
                        i += 1;
                    }
                    assert(ids.take(children.len() as int) =~= ids);
                },
                None => {},
            }
        }
    }


    /// Whether following parent links from `id` stops within as many steps as there are
    /// channels (when it does not, the links run in a cycle and never stop).
    pub fn path_is_finite(&self, id: u64) -> (r: bool)
        ensures
            r == ends_within(self.channel_map(), id, self.channel_map().len()),
            r ==> self.reaches_root(id),
    {
        let ghost m = self.channel_map();
        let n = self.channels.len();
        let mut current = id;
        let mut k: usize = n;
        loop
            invariant
                m == self.channels@,
                n == m.len(),
                k <= n,
                ends_within(m, id, n as nat) == ends_within(m, current, k as nat),
            decreases k,
        {
            match self.channels.get(&current) {
                None => return true,
                Some(c) => {
                    if c.parent_id == 0 {
                        return true;
                    }
                    if k == 0 {
                        return false;
                    }
                    current = c.parent_id;
                    k -= 1;
                },
            }
        }
    }

    /// Whether no path of child links from the roots is longer than `levels`.
    pub fn fits_within(&self, levels: usize) -> (r: bool)
        ensures
            r == self.forest_fits(self.root_ids(), levels as nat),
    {
        self.list_fits(&self.roots, levels)
    }

    fn list_fits(&self, ids: &Vec<u64>, fuel: usize) -> (r: bool)
        ensures
            r == self.forest_fits(ids@, fuel as nat),
        decreases fuel, ids@.len(),
    {
        let mut i: usize = 0;
        assert(ids@.take(0) =~= Seq::<u64>::empty());
        while i < ids.len()
            invariant
                i <= ids.len(),
                self.forest_fits(ids@.take(i as int), fuel as nat),
            decreases ids.len() - i,
        {
            let ghost t = ids@.take(i + 1 as int);
            assert(t.drop_last() =~= ids@.take(i as int));
            assert(t.last() == ids@[i as int]);
            if !self.subtree_fits_exec(ids[i], fuel) {
                proof {
                    self.lemma_forest_fails(ids@, i as int, fuel as nat);
                }
                return false;
            }
            i += 1;
        }
        assert(ids@.take(ids.len() as int) =~= ids@);
        true
    }

    fn subtree_fits_exec(&self, id: u64, fuel: usize) -> (r: bool)
        ensures
            r == self.subtree_fits(id, fuel as nat),
        decreases fuel, 0nat,
    {
        if self.channels.get(&id).is_none() {
            return true;
        }
        if fuel == 0 {
            return false;
        }
        match self.children.get(&id) {
            Some(children) => self.list_fits(children, fuel - 1),
            None => {
                assert(list_at(self.children@, id) =~= Seq::<u64>::empty());
                true
            },
        }
    }

    proof fn lemma_forest_fails(&self, ids: Seq<u64>, i: int, fuel: nat)
        requires
            0 <= i < ids.len(),
            !self.subtree_fits(ids[i], fuel),
        ensures
            !self.forest_fits(ids, fuel),
        decreases ids.len(),
    {
        if i < ids.len() - 1 {
            assert(ids.drop_last()[i] == ids[i]);
            self.lemma_forest_fails(ids.drop_last(), i, fuel);
        }
    }

    /// Print the tree structure (for debugging)
    pub fn print_tree(&self) -> (r: String)
        requires
            self.printable(),
        ensures
            r@ == self.tree_text(),
    {
        let ghost f = choose|f: nat| f <= usize::MAX && self.forest_fits(self.root_ids(), f);
        let mut output: Vec<char> = Vec::new();
        let ghost ids = self.roots@;
        assert(ids.take(0) =~= Seq::<u64>::empty());
        let mut i: usize = 0;
        while i < self.roots.len()
            invariant
                i <= self.roots.len(),
                ids == self.roots@,
                f <= usize::MAX,
                self.forest_fits(ids, f),
                output@ == self.forest_text(ids.take(i as int), 0, f),
            decreases self.roots.len() - i,
        {
            proof {
                self.lemma_forest_prefix(ids, i + 1, f);
                self.lemma_forest_step(ids, i as int, 0, f);
            }
            self.print_subtree(self.roots[i], 0, &mut output, Ghost(f));
            i += 1;
        }
        assert(ids.take(self.roots.len() as int) =~= ids);
        string_of(&output)
    }
}

impl Default for ChannelTree {
    fn default() -> (t: Self)
        ensures
            t.wf(),
            t.channel_map() == Map::<u64, Channel>::empty(),
            t.root_ids() == Seq::<u64>::empty(),
            forall|p: u64| #[trigger] t.child_ids(p) == Seq::<u64>::empty(),
    {
        Self::new()
    }
}

/// `depth` indentation steps of two spaces.
pub open spec fn indent(depth: nat) -> Seq<char> {
    Seq::new(2 * depth, |i: int| ' ')
}

/// The map a list of channels fills, by id, a later channel replacing an earlier one.
pub open spec fn map_of(cs: Seq<Channel>) -> Map<u64, Channel>
    decreases cs.len(),
{
    if cs.len() == 0 {
        Map::empty()
    } else {
        map_of(cs.drop_last()).insert(cs.last().id, cs.last())
    }
}

/// A channel's sort key: its order, or 0 for an unknown id.
pub open spec fn order_key(m: Map<u64, Channel>) -> spec_fn(u64) -> int {
    |id: u64|
        if m.contains_key(id) {
            m[id].order as int
        } else {
            0int
        }
}

/// `x` inserted into `s` after the last element whose key is not greater than its own.
pub open spec fn insert_sorted(s: Seq<u64>, x: u64, key: spec_fn(u64) -> int) -> Seq<u64>
    decreases s.len(),
{
    if s.len() == 0 {
        seq![x]
    } else if key(s.last()) <= key(x) {
        s.push(x)
    } else {
        insert_sorted(s.drop_last(), x, key).push(s.last())
    }
}

/// `s` stably sorted by `key`: equal keys keep their order.
pub open spec fn sort_by_key(s: Seq<u64>, key: spec_fn(u64) -> int) -> Seq<u64>
    decreases s.len(),
{
    if s.len() == 0 {
        Seq::empty()
    } else {
        insert_sorted(sort_by_key(s.drop_last(), key), s.last(), key)
    }
}

/// The ids in `s` of channels of `m` whose parent is `parent`, in order.
pub open spec fn under(m: Map<u64, Channel>, s: Seq<u64>, parent: u64) -> Seq<u64>
    decreases s.len(),
{
    if s.len() == 0 {
        Seq::empty()
    } else if m.contains_key(s.last()) && m[s.last()].parent_id == parent {
        under(m, s.drop_last(), parent).push(s.last())
    } else {
        under(m, s.drop_last(), parent)
    }
}


/// Ids sorted by a key: each one's key is at most the next ones'.
pub open spec fn sorted_by(s: Seq<u64>, key: spec_fn(u64) -> int) -> bool {
    forall|i: int, j: int| 0 <= i < j < s.len() ==> key(#[trigger] s[i]) <= key(#[trigger] s[j])
}

proof fn lemma_insert_sorted_sorted(s: Seq<u64>, x: u64, key: spec_fn(u64) -> int)
    requires
        sorted_by(s, key),
    ensures
        sorted_by(insert_sorted(s, x, key), key),
        insert_sorted(s, x, key).len() == s.len() + 1,
        forall|k: int|
            0 <= k < insert_sorted(s, x, key).len() ==> #[trigger] insert_sorted(s, x, key)[k] == x
                || s.contains(insert_sorted(s, x, key)[k]),
    decreases s.len(),
{
    let r = insert_sorted(s, x, key);
    if s.len() == 0 {
    } else if key(s.last()) <= key(x) {
        assert forall|i: int, j: int| 0 <= i < j < r.len() implies key(#[trigger] r[i]) <= key(
            #[trigger] r[j],
        ) by {
            if j == r.len() - 1 && i < s.len() - 1 {
                assert(key(s[i]) <= key(s[s.len() - 1]));
            }
        }
        assert forall|k: int| 0 <= k < r.len() implies #[trigger] r[k] == x || s.contains(r[k]) by {
            if k < s.len() {
                assert(r[k] == s[k]);
            }
        }
    } else {
        let t = s.drop_last();
        lemma_insert_sorted_sorted(t, x, key);
        let q = insert_sorted(t, x, key);
        assert forall|i: int, j: int| 0 <= i < j < r.len() implies key(#[trigger] r[i]) <= key(
            #[trigger] r[j],
        ) by {
            if j == r.len() - 1 {
                assert(r[i] == q[i]);
                if q[i] != x {
                    let m = choose|m: int| 0 <= m < t.len() && t[m] == q[i];
                    assert(s[m] == t[m]);
                    assert(key(s[m]) <= key(s[s.len() - 1]));
                }
            } else {
                assert(r[i] == q[i] && r[j] == q[j]);
            }
        }
        assert forall|k: int| 0 <= k < r.len() implies #[trigger] r[k] == x || s.contains(r[k]) by {
            if k < q.len() {
                assert(r[k] == q[k]);
                if q[k] != x {
                    let m = choose|m: int| 0 <= m < t.len() && t[m] == q[k];
                    assert(s[m] == t[m]);
                }
            } else {
                assert(s[s.len() - 1] == s.last());
            }
        }
    }
}

proof fn lemma_sort_by_key_sorted(s: Seq<u64>, key: spec_fn(u64) -> int)
    ensures
        sorted_by(sort_by_key(s, key), key),
    decreases s.len(),
{
    if s.len() > 0 {
        lemma_sort_by_key_sorted(s.drop_last(), key);
        lemma_insert_sorted_sorted(sort_by_key(s.drop_last(), key), s.last(), key);
    }
}

proof fn lemma_under_sorted(m: Map<u64, Channel>, s: Seq<u64>, p: u64, key: spec_fn(u64) -> int)
    requires
        sorted_by(s, key),
    ensures
        sorted_by(under(m, s, p), key),
        forall|k: int| 0 <= k < under(m, s, p).len() ==> s.contains(#[trigger] under(m, s, p)[k]),
    decreases s.len(),
{
    if s.len() > 0 {
        let t = s.drop_last();
        assert(sorted_by(t, key)) by {
            assert forall|i: int, j: int| 0 <= i < j < t.len() implies key(#[trigger] t[i]) <= key(
                #[trigger] t[j],
            ) by {
                assert(t[i] == s[i] && t[j] == s[j]);
            }
        }
        lemma_under_sorted(m, t, p, key);
        let u = under(m, t, p);
        let r = under(m, s, p);
        assert forall|k: int| 0 <= k < r.len() implies s.contains(#[trigger] r[k]) by {
            if k < u.len() {
                assert(r[k] == u[k]);
                let j = choose|j: int| 0 <= j < t.len() && t[j] == u[k];
                assert(s[j] == t[j]);
            } else {
                assert(s[s.len() - 1] == s.last());
            }
        }
        assert forall|i: int, j: int| 0 <= i < j < r.len() implies key(#[trigger] r[i]) <= key(
            #[trigger] r[j],
        ) by {
            if j < u.len() {
                assert(r[i] == u[i] && r[j] == u[j]);
            } else {
                assert(r[i] == u[i]);
                let a = choose|a: int| 0 <= a < t.len() && t[a] == u[i];
                assert(s[a] == t[a]);
                assert(key(s[a]) <= key(s[s.len() - 1]));
            }
        }
    }
}

/// After a rebuild, the roots and every child list come sorted by channel order.
pub proof fn rebuilt_lists_sorted(m: Map<u64, Channel>, ids: Seq<u64>, parent: u64)
    ensures
        sorted_by(under(m, sort_by_key(ids, order_key(m)), parent), order_key(m)),
{
    lemma_sort_by_key_sorted(ids, order_key(m));
    lemma_under_sorted(m, sort_by_key(ids, order_key(m)), parent, order_key(m));
}

/// A channel just added is found under its id, and removing an id forgets it.
pub proof fn added_found_removed_gone(m: Map<u64, Channel>, c: Channel, id: u64)
    ensures
        m.insert(c.id, c).contains_key(c.id),
        m.insert(c.id, c)[c.id] == c,
        !m.remove(id).contains_key(id),
        m.insert(c.id, c).remove(c.id) == m.remove(c.id),
{
    assert(m.insert(c.id, c).remove(c.id) =~= m.remove(c.id));
}

/// The path to a known channel ends with the channel itself, and each channel on it is the
/// parent of the one after it.
pub proof fn path_links_parents(m: Map<u64, Channel>, id: u64, n: nat)
    ensures
        m.contains_key(id) ==> climb(m, id, n).len() > 0 && climb(m, id, n)[0] == m[id],
        forall|k: int|
            0 <= k < climb(m, id, n).len() - 1 ==> m.contains_key(#[trigger] climb(m, id, n)[k].parent_id)
                && climb(m, id, n)[k + 1] == m[climb(m, id, n)[k].parent_id],
    decreases n,
{
    if m.contains_key(id) && m[id].parent_id != 0 && n > 0 {
        let p = m[id].parent_id;
        path_links_parents(m, p, (n - 1) as nat);
        let rest = climb(m, p, (n - 1) as nat);
        let c = climb(m, id, n);
        assert(c =~= seq![m[id]] + rest);
        assert forall|k: int| 0 <= k < c.len() - 1 implies m.contains_key(
            #[trigger] c[k].parent_id,
        ) && c[k + 1] == m[c[k].parent_id] by {
            if k == 0 {
                assert(c[1] == rest[0]);
            } else {
                assert(c[k] == rest[k - 1]);
                assert(c[k + 1] == rest[k]);
            }
        }
    }
}

proof fn lemma_insert_sorted_at(s: Seq<u64>, x: u64, key: spec_fn(u64) -> int, p: int)
    requires
        0 <= p <= s.len(),
        forall|j: int| p <= j < s.len() ==> key(#[trigger] s[j]) > key(x),
        p == 0 || key(s[p - 1]) <= key(x),
    ensures
        insert_sorted(s, x, key) == s.take(p).push(x) + s.skip(p),
    decreases s.len(),
{
    if s.len() == 0 {
        assert(s.take(p).push(x) + s.skip(p) =~= seq![x]);
    } else if key(s.last()) <= key(x) {
        assert(p == s.len());
        assert(s.take(p).push(x) + s.skip(p) =~= s.push(x));
    } else {
        let t = s.drop_last();
        assert(p < s.len());
        assert forall|j: int| p <= j < t.len() implies key(#[trigger] t[j]) > key(x) by {
            assert(t[j] == s[j]);
        }
        lemma_insert_sorted_at(t, x, key, p);
        assert(t.take(p) =~= s.take(p));
        assert((t.take(p).push(x) + t.skip(p)).push(s.last()) =~= s.take(p).push(x) + s.skip(p));
    }
}

} // verus!
