//! Chat history management

use vstd::prelude::*;
use crate::message::{ChatMessage, MessageTarget};
use crate::text::{ascii_lower, chars_of, contains_chars, contains_seq, is_ascii_text, lowercase, to_lowercase};
use std::collections::VecDeque;

verus! {

/// A conversation after a message arrives: the message is appended and, when
/// the conversation already holds `max` messages (or more), the oldest is dropped.
pub open spec fn bounded_push(q: Seq<ChatMessage>, m: ChatMessage, max: nat) -> Seq<ChatMessage> {
    if q.len() >= max && q.len() > 0 {
        q.drop_first().push(m)
    } else {
        q.push(m)
    }
}


/// A conversation never grows past the limit (for a limit of at least one), its newest
/// message is the one that arrived last, and only the oldest message can be dropped.
pub proof fn conversation_bounded(q: Seq<ChatMessage>, m: ChatMessage, max: nat)
    requires
        max >= 1,
        q.len() <= max,
    ensures
        bounded_push(q, m, max).len() <= max,
        bounded_push(q, m, max).last() == m,
        bounded_push(q, m, max).drop_last() == if q.len() == max {
            q.drop_first()
        } else {
            q
        },
{
    assert(bounded_push(q, m, max).drop_last() =~= if q.len() == max {
        q.drop_first()
    } else {
        q
    });
}

/// A conversation after messages arrive one by one.
pub open spec fn bounded_pushes(q: Seq<ChatMessage>, ms: Seq<ChatMessage>, max: nat) -> Seq<ChatMessage>
    decreases ms.len(),
{
    if ms.len() == 0 {
        q
    } else {
        bounded_push(bounded_pushes(q, ms.drop_last(), max), ms.last(), max)
    }
}

/// How many messages a conversation keeps: the limit, but at least the newest one.
pub open spec fn kept(max: nat) -> nat {
    if max == 0 {
        1
    } else {
        max
    }
}

/// The newest `n` messages of `s` (all of them if there are fewer).
pub open spec fn newest(s: Seq<ChatMessage>, n: nat) -> Seq<ChatMessage> {
    if s.len() <= n {
        s
    } else {
        s.skip(s.len() - n)
    }
}

/// After messages arrive one by one, a conversation that held no more than it keeps
/// holds the newest messages of its old ones followed by the new ones, as many as it
/// keeps (the limit, or the newest one alone under a limit of 0), oldest dropped first.
pub proof fn conversation_keeps_newest(q: Seq<ChatMessage>, ms: Seq<ChatMessage>, max: nat)
    requires
        q.len() <= kept(max),
    ensures
        bounded_pushes(q, ms, max) == newest(q + ms, kept(max)),
    decreases ms.len(),
{
    if ms.len() > 0 {
        let pre = ms.drop_last();
        conversation_keeps_newest(q, pre, max);
        let prev = bounded_pushes(q, pre, max);
        let all_pre = q + pre;
        let all = q + ms;
        assert(all_pre.push(ms.last()) =~= all);
        let k = kept(max);
        if all_pre.len() <= k {
            assert(prev == all_pre);
            if all_pre.len() == k && all_pre.len() > 0 && all_pre.len() >= max {
                assert(bounded_push(prev, ms.last(), max) =~= all.skip(all.len() - k));
            } else {
                assert(bounded_push(prev, ms.last(), max) =~= newest(all, k));
            }
        } else {
            assert(prev == all_pre.skip(all_pre.len() - k));
            assert(prev.len() == k);
            assert(bounded_push(prev, ms.last(), max) =~= all.skip(all.len() - k));
        }
    }
}

/// The position of the conversation with key `k`, searching from `i`.
pub open spec fn index_of(es: Seq<(u64, Seq<ChatMessage>)>, k: u64, i: int) -> Option<int>
    decreases es.len() - i,
{
    if i < 0 || i >= es.len() {
        None
    } else if es[i].0 == k {
        Some(i)
    } else {
        index_of(es, k, i + 1)
    }
}

/// The messages of the conversation with key `k` (none if there is none).
pub open spec fn log_of(es: Seq<(u64, Seq<ChatMessage>)>, k: u64) -> Seq<ChatMessage> {
    match index_of(es, k, 0) {
        Some(i) => es[i].1,
        None => Seq::empty(),
    }
}

/// All messages of all conversations, conversation after conversation.
pub open spec fn flatten(es: Seq<(u64, Seq<ChatMessage>)>) -> Seq<ChatMessage>
    decreases es.len(),
{
    if es.len() == 0 {
        Seq::empty()
    } else {
        flatten(es.drop_last()) + es.last().1
    }
}

/// The keys of the conversations, in stored order.
pub open spec fn keys_of(es: Seq<(u64, Seq<ChatMessage>)>) -> Seq<u64> {
    es.map_values(|e: (u64, Seq<ChatMessage>)| e.0)
}

/// The messages of the conversations with the given keys, one conversation after
/// another in the order of the keys.
pub open spec fn concat_logs<K>(keys: Seq<K>, log: spec_fn(K) -> Seq<ChatMessage>) -> Seq<ChatMessage>
    decreases keys.len(),
{
    if keys.len() == 0 {
        Seq::empty()
    } else {
        concat_logs(keys.drop_last(), log) + log(keys.last())
    }
}

/// How many messages the conversations with the given keys hold together.
pub open spec fn total_len<K>(keys: Seq<K>, log: spec_fn(K) -> Seq<ChatMessage>) -> nat
    decreases keys.len(),
{
    if keys.len() == 0 {
        0
    } else {
        total_len(keys.drop_last(), log) + log(keys.last()).len()
    }
}

/// The joined conversations hold as many messages as the conversations together.
pub proof fn concat_logs_len<K>(keys: Seq<K>, log: spec_fn(K) -> Seq<ChatMessage>)
    ensures
        concat_logs(keys, log).len() == total_len(keys, log),
    decreases keys.len(),
{
    if keys.len() > 0 {
        concat_logs_len(keys.drop_last(), log);
    }
}

proof fn lemma_concat_congruent<K>(keys: Seq<K>, f: spec_fn(K) -> Seq<ChatMessage>, g: spec_fn(K) -> Seq<ChatMessage>)
    requires
        forall|i: int| 0 <= i < keys.len() ==> f(#[trigger] keys[i]) == g(keys[i]),
    ensures
        concat_logs(keys, f) == concat_logs(keys, g),
    decreases keys.len(),
{
    if keys.len() > 0 {
        let ks = keys.drop_last();
        assert forall|i: int| 0 <= i < ks.len() implies f(#[trigger] ks[i]) == g(ks[i]) by {
            assert(ks[i] == keys[i]);
        }
        lemma_concat_congruent(ks, f, g);
        assert(f(keys.last()) == g(keys[keys.len() - 1]));
    }
}

proof fn lemma_concat_map<K, L>(
    keys: Seq<K>,
    to: spec_fn(K) -> L,
    log: spec_fn(L) -> Seq<ChatMessage>,
    h: spec_fn(K) -> Seq<ChatMessage>,
)
    requires
        forall|i: int| 0 <= i < keys.len() ==> h(#[trigger] keys[i]) == log(to(keys[i])),
    ensures
        concat_logs(keys.map_values(to), log) == concat_logs(keys, h),
    decreases keys.len(),
{
    if keys.len() > 0 {
        let pre = keys.drop_last();
        assert(keys.map_values(to).drop_last() =~= pre.map_values(to));
        assert forall|i: int| 0 <= i < pre.len() implies h(#[trigger] pre[i]) == log(to(pre[i])) by {
            assert(pre[i] == keys[i]);
        }
        lemma_concat_map(pre, to, log, h);
        assert(h(keys[keys.len() - 1]) == log(to(keys[keys.len() - 1])));
    }
}

/// The keys without `k`.
pub open spec fn drop_key<K>(keys: Seq<K>, k: K) -> Seq<K>
    decreases keys.len(),
{
    if keys.len() == 0 {
        keys
    } else if keys.last() == k {
        drop_key(keys.drop_last(), k)
    } else {
        drop_key(keys.drop_last(), k).push(keys.last())
    }
}

proof fn lemma_drop_absent<K>(keys: Seq<K>, k: K)
    requires
        !keys.contains(k),
    ensures
        drop_key(keys, k) == keys,
    decreases keys.len(),
{
    if keys.len() > 0 {
        assert(!keys.drop_last().contains(k)) by {
            if keys.drop_last().contains(k) {
                let j = choose|j: int| 0 <= j < keys.drop_last().len() && keys.drop_last()[j] == k;
                assert(keys[j] == k);
            }
        }
        lemma_drop_absent(keys.drop_last(), k);
        assert(keys.last() == keys[keys.len() - 1]);
        assert(keys.drop_last().push(keys.last()) =~= keys);
    }
}

proof fn lemma_drop_at<K>(keys: Seq<K>, k: K, i: int)
    requires
        0 <= i < keys.len(),
        keys[i] == k,
        forall|a: int, b: int| 0 <= a < b < keys.len() ==> keys[a] != keys[b],
    ensures
        drop_key(keys, k) == keys.remove(i),
    decreases keys.len(),
{
    let pre = keys.drop_last();
    if i == keys.len() - 1 {
        assert(!pre.contains(k)) by {
            if pre.contains(k) {
                let j = choose|j: int| 0 <= j < pre.len() && pre[j] == k;
                assert(keys[j] == k);
            }
        }
        lemma_drop_absent(pre, k);
        assert(keys.remove(i) =~= pre);
    } else {
        lemma_drop_at(pre, k, i);
        assert(keys.last() != k);
        assert(keys.remove(i) =~= pre.remove(i).push(keys.last()));
    }
}

/// No key occurs twice.
pub open spec fn distinct_keys(es: Seq<(u64, Seq<ChatMessage>)>) -> bool {
    forall|i: int, j: int| 0 <= i < j < es.len() ==> es[i].0 != es[j].0
}

proof fn lemma_index_of(es: Seq<(u64, Seq<ChatMessage>)>, k: u64, i: int)
    requires
        0 <= i,
    ensures
        match index_of(es, k, i) {
            Some(j) => i <= j < es.len() && es[j].0 == k && forall|m: int|
                i <= m < j ==> es[m].0 != k,
            None => forall|m: int| i <= m < es.len() ==> es[m].0 != k,
        },
    decreases es.len() - i,
{
    if i < es.len() && es[i].0 != k {
        lemma_index_of(es, k, i + 1);
    }
}

proof fn lemma_index_of_unique(es: Seq<(u64, Seq<ChatMessage>)>, k: u64, j: int)
    requires
        distinct_keys(es),
        0 <= j < es.len(),
        es[j].0 == k,
    ensures
        index_of(es, k, 0) == Some(j),
{
    lemma_index_of(es, k, 0);
}

/// With distinct keys, joining the conversations in stored order gives all messages.
proof fn lemma_flatten_concat(es: Seq<(u64, Seq<ChatMessage>)>)
    requires
        distinct_keys(es),
    ensures
        flatten(es) == concat_logs(keys_of(es), |k: u64| log_of(es, k)),
    decreases es.len(),
{
    if es.len() > 0 {
        let pre = es.drop_last();
        assert(distinct_keys(pre));
        lemma_flatten_concat(pre);
        assert(keys_of(es).drop_last() =~= keys_of(pre));
        let n = es.len() - 1;
        lemma_index_of_unique(es, es[n].0, n);
        assert forall|i: int| 0 <= i < keys_of(pre).len() implies log_of(pre, #[trigger] keys_of(pre)[i])
            == log_of(es, keys_of(pre)[i]) by {
            let k = keys_of(pre)[i];
            assert(pre[i].0 == k);
            lemma_index_of_unique(pre, k, i);
            lemma_index_of_unique(es, k, i);
        }
        lemma_concat_congruent(keys_of(pre), |k: u64| log_of(pre, k), |k: u64| log_of(es, k));
        assert(keys_of(es).last() == es[n].0);
    }
}

/// A message held by one conversation is among all messages.
proof fn lemma_flatten_contains(es: Seq<(u64, Seq<ChatMessage>)>, i: int, m: ChatMessage)
    requires
        0 <= i < es.len(),
        es[i].1.contains(m),
    ensures
        flatten(es).contains(m),
    decreases es.len(),
{
    let j = choose|j: int| 0 <= j < es[i].1.len() && es[i].1[j] == m;
    if i == es.len() - 1 {
        let f = flatten(es.drop_last());
        assert((f + es[i].1)[f.len() + j] == m);
    } else {
        lemma_flatten_contains(es.drop_last(), i, m);
        let f = flatten(es.drop_last());
        let k = choose|k: int| 0 <= k < f.len() && f[k] == m;
        assert((f + es.last().1)[k] == m);
    }
}

proof fn lemma_flatten_push(es: Seq<(u64, Seq<ChatMessage>)>, e: (u64, Seq<ChatMessage>))
    ensures
        flatten(es.push(e)) == flatten(es) + e.1,
{
    assert(es.push(e).drop_last() =~= es);
}

proof fn lemma_flatten_update(es: Seq<(u64, Seq<ChatMessage>)>, i: int, e: (u64, Seq<ChatMessage>))
    requires
        0 <= i < es.len(),
    ensures
        flatten(es.update(i, e)).len() == flatten(es).len() - es[i].1.len() + e.1.len(),
    decreases es.len(),
{
    if i == es.len() - 1 {
        assert(es.update(i, e).drop_last() =~= es.drop_last());
    } else {
        assert(es.update(i, e).drop_last() =~= es.drop_last().update(i, e));
        lemma_flatten_update(es.drop_last(), i, e);
    }
}

/// Conversations keyed by channel or user id, in order of their first message.
struct Threads {
    entries: Vec<(u64, VecDeque<ChatMessage>)>,
}

impl Threads {
    spec fn view_entries(&self) -> Seq<(u64, Seq<ChatMessage>)> {
        self.entries@.map_values(|e: (u64, VecDeque<ChatMessage>)| (e.0, e.1@))
    }

    fn new() -> (t: Threads)
        ensures
            t.view_entries() == Seq::<(u64, Seq<ChatMessage>)>::empty(),
    {
        let t = Threads { entries: Vec::new() };
        assert(t.view_entries() =~= Seq::<(u64, Seq<ChatMessage>)>::empty());
        t
    }

    fn find(&self, k: u64) -> (r: Option<usize>)
        ensures
            match r {
                Some(i) => index_of(self.view_entries(), k, 0) == Some(i as int) && i
                    < self.entries.len(),
                None => index_of(self.view_entries(), k, 0) is None,
            },
    {
        let ghost es = self.view_entries();
        let mut i: usize = 0;
        while i < self.entries.len()
            invariant
                i <= self.entries.len(),
                es == self.view_entries(),
                index_of(es, k, 0) == index_of(es, k, i as int),
            decreases self.entries.len() - i,
        {
            assert(es[i as int].0 == self.entries@[i as int].0);
            if self.entries[i].0 == k {
                return Some(i);
            }
            i += 1;
        }
        None
    }

    fn push(&mut self, k: u64, m: ChatMessage, max: usize)
        requires
            distinct_keys(old(self).view_entries()),
        ensures
            distinct_keys(final(self).view_entries()),
            log_of(final(self).view_entries(), k) == bounded_push(
                log_of(old(self).view_entries(), k),
                m,
                max as nat,
            ),
            forall|k2: u64|
                k2 != k ==> log_of(final(self).view_entries(), k2) == log_of(
                    old(self).view_entries(),
                    k2,
                ),
            flatten(final(self).view_entries()).len() == flatten(old(self).view_entries()).len()
                - log_of(old(self).view_entries(), k).len() + bounded_push(
                log_of(old(self).view_entries(), k),
                m,
                max as nat,
            ).len(),
            keys_of(final(self).view_entries()) == if keys_of(old(self).view_entries()).contains(k) {
                keys_of(old(self).view_entries())
            } else {
                keys_of(old(self).view_entries()).push(k)
            },
            flatten(final(self).view_entries()).contains(m),
    {
        let ghost es = self.view_entries();
        proof {
            lemma_index_of(es, k, 0);
        }
        match self.find(k) {
            Some(i) => {
                let mut slot: (u64, VecDeque<ChatMessage>) = (k, VecDeque::new());
                self.entries.set_and_swap(i, &mut slot);
                let ghost old_q = slot.1@;
                assert(old_q == es[i as int].1);
                if slot.1.len() >= max {
                    slot.1.pop_front();
                }
                slot.1.push_back(m);
                assert(slot.1@ =~= bounded_push(old_q, m, max as nat));
                let ghost new_q = slot.1@;
                self.entries.set_and_swap(i, &mut slot);
                proof {
                    let es2 = self.view_entries();
                    assert(es2 =~= es.update(i as int, (k, new_q)));
                    assert(distinct_keys(es2));
                    lemma_index_of_unique(es2, k, i as int);
                    assert forall|k2: u64| k2 != k implies log_of(es2, k2) == log_of(es, k2) by {
                        lemma_index_of(es, k2, 0);
                        lemma_index_of(es2, k2, 0);
                        match index_of(es, k2, 0) {
                            Some(j) => {
                                lemma_index_of_unique(es2, k2, j);
                            },
                            None => {},
                        }
                    }
                    lemma_flatten_update(es, i as int, (k, new_q));
                    assert(keys_of(es).contains(k)) by {
                        assert(keys_of(es)[i as int] == k);
                    }
                    assert(keys_of(es2) =~= keys_of(es));
                    assert(new_q.contains(m)) by {
                        assert(new_q[new_q.len() - 1] == m);
                    }
                    lemma_flatten_contains(es2, i as int, m);
                }
            },
            None => {
                let mut q: VecDeque<ChatMessage> = VecDeque::new();
                q.push_back(m);
                let ghost new_q = q@;
                self.entries.push((k, q));
                proof {
                    let es2 = self.view_entries();
                    assert(es2 =~= es.push((k, new_q)));
                    assert(new_q =~= bounded_push(Seq::empty(), m, max as nat));
                    assert(distinct_keys(es2));
                    lemma_index_of_unique(es2, k, es.len() as int);
                    assert forall|k2: u64| k2 != k implies log_of(es2, k2) == log_of(es, k2) by {
                        lemma_index_of(es, k2, 0);
                        lemma_index_of(es2, k2, 0);
                        match index_of(es, k2, 0) {
                            Some(j) => {
                                lemma_index_of_unique(es2, k2, j);
                            },
                            None => {},
                        }
                    }
                    lemma_flatten_push(es, (k, new_q));
                    assert(!keys_of(es).contains(k)) by {
                        if keys_of(es).contains(k) {
                            let j = choose|j: int| 0 <= j < keys_of(es).len() && keys_of(es)[j] == k;
                            assert(es[j].0 == k);
                        }
                    }
                    assert(keys_of(es2) =~= keys_of(es).push(k));
                    assert(new_q.contains(m)) by {
                        assert(new_q[0] == m);
                    }
                    lemma_flatten_contains(es2, es.len() as int, m);
                }
            },
        }
    }

    fn remove(&mut self, k: u64)
        requires
            distinct_keys(old(self).view_entries()),
        ensures
            distinct_keys(final(self).view_entries()),
            log_of(final(self).view_entries(), k) == Seq::<ChatMessage>::empty(),
            forall|k2: u64|
                k2 != k ==> log_of(final(self).view_entries(), k2) == log_of(
                    old(self).view_entries(),
                    k2,
                ),
            flatten(final(self).view_entries()).len() == flatten(old(self).view_entries()).len()
                - log_of(old(self).view_entries(), k).len(),
            keys_of(final(self).view_entries()) == drop_key(keys_of(old(self).view_entries()), k),
    {
        let ghost es = self.view_entries();
        proof {
            lemma_index_of(es, k, 0);
        }
        match self.find(k) {
            Some(i) => {
                self.entries.remove(i);
                proof {
                    let es2 = self.view_entries();
                    assert(es2 =~= es.remove(i as int));
                    assert(distinct_keys(es2)) by {
                        assert forall|a: int, b: int| 0 <= a < b < es2.len() implies es2[a].0
                            != es2[b].0 by {
                            let a0 = if a < i { a } else { a + 1 };
                            let b0 = if b < i { b } else { b + 1 };
                            assert(es2[a] == es[a0]);
                            assert(es2[b] == es[b0]);
                        }
                    }
                    lemma_index_of(es2, k, 0);
                    assert(index_of(es2, k, 0) is None) by {
                        if index_of(es2, k, 0) is Some {
                            let m = index_of(es2, k, 0)->0;
                            let m0 = if m < i { m } else { m + 1 };
                            assert(es2[m] == es[m0]);
                        }
                    }
                    assert forall|k2: u64| k2 != k implies log_of(es2, k2) == log_of(es, k2) by {
                        lemma_index_of(es, k2, 0);
                        lemma_index_of(es2, k2, 0);
                        match index_of(es, k2, 0) {
                            Some(j) => {
                                let j2 = if j < i { j } else { j - 1 };
                                assert(es2[j2] == es[j]);
                                lemma_index_of_unique(es2, k2, j2);
                            },
                            None => {
                                if index_of(es2, k2, 0) is Some {
                                    let m = index_of(es2, k2, 0)->0;
                                    let m0 = if m < i { m } else { m + 1 };
                                    assert(es2[m] == es[m0]);
                                }
                            },
                        }
                    }
                    lemma_flatten_remove(es, i as int);
                    assert(keys_of(es2) =~= keys_of(es).remove(i as int));
                    assert forall|a: int, b: int| 0 <= a < b < keys_of(es).len() implies keys_of(es)[a]
                        != keys_of(es)[b] by {
                        assert(es[a].0 != es[b].0);
                    }
                    lemma_drop_at(keys_of(es), k, i as int);
                }
            },
            None => {
                proof {
                    assert(!keys_of(es).contains(k)) by {
                        if keys_of(es).contains(k) {
                            let j = choose|j: int| 0 <= j < keys_of(es).len() && keys_of(es)[j] == k;
                            assert(es[j].0 == k);
                        }
                    }
                    lemma_drop_absent(keys_of(es), k);
                }
            },
        }
    }

    fn clear(&mut self)
        ensures
            final(self).view_entries() == Seq::<(u64, Seq<ChatMessage>)>::empty(),
    {
        self.entries.clear();
        assert(self.view_entries() =~= Seq::<(u64, Seq<ChatMessage>)>::empty());
    }

    fn total(&self) -> (n: usize)
        requires
            flatten(self.view_entries()).len() <= usize::MAX,
        ensures
            n == flatten(self.view_entries()).len(),
    {
        let ghost es = self.view_entries();
        let mut n: usize = 0;
        let mut i: usize = 0;
        proof {
            assert(es.take(0) =~= Seq::<(u64, Seq<ChatMessage>)>::empty());
        }
        while i < self.entries.len()
            invariant
                i <= self.entries.len(),
                es == self.view_entries(),
                n == flatten(es.take(i as int)).len(),
                flatten(es).len() <= usize::MAX,
            decreases self.entries.len() - i,
        {
            proof {
                lemma_flatten_take(es, i as int);
                lemma_flatten_prefix_len(es, i as int + 1);
                assert(es.take(es.len() as int) =~= es);
            }
            n = n + self.entries[i].1.len();
            i += 1;
        }
        assert(es.take(es.len() as int) =~= es);
        n
    }

    fn collect<'a>(&'a self, out: &mut Vec<&'a ChatMessage>)
        ensures
            derefs(final(out)@) == derefs(old(out)@) + flatten(self.view_entries()),
    {
        let ghost es = self.view_entries();
        let ghost start = derefs(out@);
        let mut i: usize = 0;
        assert(es.take(0) =~= Seq::<(u64, Seq<ChatMessage>)>::empty());
        while i < self.entries.len()
            invariant
                i <= self.entries.len(),
                es == self.view_entries(),
                derefs(out@) == start + flatten(es.take(i as int)),
            decreases self.entries.len() - i,
        {
            collect_queue(&self.entries[i].1, out);
            proof {
                lemma_flatten_take(es, i as int);
            }
            i += 1;
        }
        assert(es.take(es.len() as int) =~= es);
    }

    fn refs_of<'a>(&'a self, k: u64) -> (r: Vec<&'a ChatMessage>)
        ensures
            derefs(r@) == log_of(self.view_entries(), k),
    {
        let mut r: Vec<&ChatMessage> = Vec::new();
        assert(derefs(r@) =~= Seq::<ChatMessage>::empty());
        match self.find(k) {
            Some(i) => {
                collect_queue(&self.entries[i].1, &mut r);
                assert(derefs(r@) =~= self.entries@[i as int].1@);
            },
            None => {},
        }
        r
    }
}

/// The messages a list of references points at.
pub open spec fn derefs(v: Seq<&ChatMessage>) -> Seq<ChatMessage> {
    v.map_values(|r: &ChatMessage| *r)
}

fn collect_queue<'a>(q: &'a VecDeque<ChatMessage>, out: &mut Vec<&'a ChatMessage>)
    ensures
        derefs(final(out)@) == derefs(old(out)@) + q@,
{
    let ghost start = derefs(out@);
    let mut j: usize = 0;
    while j < q.len()
        invariant
            j <= q.len(),
            derefs(out@) == start + q@.take(j as int),
        decreases q.len() - j,
    {
        let ghost before = out@;
        out.push(&q[j]);
        assert(derefs(out@) =~= derefs(before).push(q@[j as int]));
        assert(q@.take(j + 1 as int) =~= q@.take(j as int).push(q@[j as int]));
        j += 1;
    }
    assert(q@.take(q.len() as int) =~= q@);
}

proof fn lemma_flatten_take(es: Seq<(u64, Seq<ChatMessage>)>, i: int)
    requires
        0 <= i < es.len(),
    ensures
        flatten(es.take(i + 1)) == flatten(es.take(i)) + es[i].1,
{
    assert(es.take(i + 1).drop_last() =~= es.take(i));
}

proof fn lemma_flatten_prefix_len(es: Seq<(u64, Seq<ChatMessage>)>, i: int)
    requires
        0 <= i <= es.len(),
    ensures
        flatten(es.take(i)).len() <= flatten(es).len(),
    decreases es.len() - i,
{
    if i == es.len() {
        assert(es.take(i) =~= es);
    } else {
        lemma_flatten_take(es, i);
        lemma_flatten_prefix_len(es, i + 1);
    }
}

proof fn lemma_flatten_remove(es: Seq<(u64, Seq<ChatMessage>)>, i: int)
    requires
        0 <= i < es.len(),
    ensures
        flatten(es.remove(i)).len() == flatten(es).len() - es[i].1.len(),
    decreases es.len(),
{
    if i == es.len() - 1 {
        assert(es.remove(i) =~= es.drop_last());
    } else {
        assert(es.remove(i).drop_last() =~= es.drop_last().remove(i));
        assert(es.remove(i).last() == es.last());
        lemma_flatten_remove(es.drop_last(), i);
    }
}

/// The messages whose content, lowercased, contains `q`, in order.
pub open spec fn select_text(s: Seq<ChatMessage>, q: Seq<char>) -> Seq<ChatMessage>
    decreases s.len(),
{
    if s.len() == 0 {
        Seq::empty()
    } else if contains_seq(lowercase(s.last().content@), q) {
        select_text(s.drop_last(), q).push(s.last())
    } else {
        select_text(s.drop_last(), q)
    }
}

/// The messages whose ASCII content, its capitals made small, contains `q`, in order.
pub open spec fn select_ascii_text(s: Seq<ChatMessage>, q: Seq<char>) -> Seq<ChatMessage>
    decreases s.len(),
{
    if s.len() == 0 {
        Seq::empty()
    } else if contains_seq(ascii_lower(s.last().content@), q) {
        select_ascii_text(s.drop_last(), q).push(s.last())
    } else {
        select_ascii_text(s.drop_last(), q)
    }
}

/// Every message's content is ASCII text.
pub open spec fn all_ascii(s: Seq<ChatMessage>) -> bool {
    forall|i: int| 0 <= i < s.len() ==> is_ascii_text(#[trigger] s[i].content@)
}

/// The messages sent by `sender`, in order.
pub open spec fn select_sender(s: Seq<ChatMessage>, sender: u16) -> Seq<ChatMessage>
    decreases s.len(),
{
    if s.len() == 0 {
        Seq::empty()
    } else if s.last().sender_id == sender {
        select_sender(s.drop_last(), sender).push(s.last())
    } else {
        select_sender(s.drop_last(), sender)
    }
}

proof fn lemma_contains_join(a: Seq<ChatMessage>, b: Seq<ChatMessage>, c: Seq<ChatMessage>, m: ChatMessage)
    requires
        a.contains(m) || b.contains(m) || c.contains(m),
    ensures
        (a + b + c).contains(m),
{
    let all = a + b + c;
    if a.contains(m) {
        let j = choose|j: int| 0 <= j < a.len() && a[j] == m;
        assert(all[j] == m);
    } else if b.contains(m) {
        let j = choose|j: int| 0 <= j < b.len() && b[j] == m;
        assert(all[a.len() + j] == m);
    } else {
        let j = choose|j: int| 0 <= j < c.len() && c[j] == m;
        assert(all[a.len() + b.len() + j] == m);
    }
}

proof fn lemma_keys_absent(es: Seq<(u64, Seq<ChatMessage>)>, k: u64)
    requires
        !keys_of(es).contains(k),
    ensures
        log_of(es, k) == Seq::<ChatMessage>::empty(),
{
    lemma_index_of(es, k, 0);
    if index_of(es, k, 0) is Some {
        let j = index_of(es, k, 0)->0;
        assert(keys_of(es)[j] == k);
    }
}

/// Short keys read the same after narrowing to 16 bits.
pub open spec fn short_keys(keys: Seq<u64>) -> bool {
    forall|i: int| 0 <= i < keys.len() ==> #[trigger] keys[i] <= u16::MAX
}

proof fn lemma_narrow_contains(keys: Seq<u64>, u: u16)
    requires
        short_keys(keys),
    ensures
        keys.map_values(|k: u64| k as u16).contains(u) == keys.contains(u as u64),
{
    let narrow = keys.map_values(|k: u64| k as u16);
    if narrow.contains(u) {
        let j = choose|j: int| 0 <= j < narrow.len() && narrow[j] == u;
        assert(keys[j] <= u16::MAX);
        assert(keys[j] == u as u64);
    }
    if keys.contains(u as u64) {
        let j = choose|j: int| 0 <= j < keys.len() && keys[j] == u as u64;
        assert(narrow[j] == u);
    }
}

proof fn lemma_drop_narrow(keys: Seq<u64>, u: u16)
    requires
        short_keys(keys),
    ensures
        drop_key(keys, u as u64).map_values(|k: u64| k as u16) == drop_key(
            keys.map_values(|k: u64| k as u16),
            u,
        ),
    decreases keys.len(),
{
    if keys.len() > 0 {
        let pre = keys.drop_last();
        assert(short_keys(pre)) by {
            assert forall|i: int| 0 <= i < pre.len() implies #[trigger] pre[i] <= u16::MAX by {
                assert(pre[i] == keys[i]);
            }
        }
        lemma_drop_narrow(pre, u);
        assert(keys.map_values(|k: u64| k as u16).drop_last() =~= pre.map_values(|k: u64| k as u16));
        assert(keys[keys.len() - 1] <= u16::MAX);
        assert((keys.last() == u as u64) == ((keys.last() as u16) == u));
        let d = drop_key(pre, u as u64);
        assert(d.push(keys.last()).map_values(|k: u64| k as u16) =~= d.map_values(|k: u64| k as u16).push(
            keys.last() as u16,
        ));
    }
}

proof fn lemma_drop_short(keys: Seq<u64>, k: u64)
    requires
        short_keys(keys),
    ensures
        short_keys(drop_key(keys, k)),
        forall|i: int| 0 <= i < drop_key(keys, k).len() ==> #[trigger] drop_key(keys, k)[i] <= u16::MAX,
    decreases keys.len(),
{
    if keys.len() > 0 {
        let pre = keys.drop_last();
        assert(short_keys(pre)) by {
            assert forall|i: int| 0 <= i < pre.len() implies #[trigger] pre[i] <= u16::MAX by {
                assert(pre[i] == keys[i]);
            }
        }
        lemma_drop_short(pre, k);
        assert(keys[keys.len() - 1] <= u16::MAX);
    }
}

/// Chat history storage
pub struct ChatHistory {
    /// Maximum messages to keep per conversation
    max_messages: usize,
    /// Server messages
    server_messages: VecDeque<ChatMessage>,
    /// Channel messages (by channel ID)
    channel_messages: Threads,
    /// Private messages (by user ID)
    private_messages: Threads,
}

impl ChatHistory {
    /// Each conversation is stored once, under a key that fits its id.
    pub closed spec fn wf(&self) -> bool {
        &&& distinct_keys(self.channel_messages.view_entries())
        &&& distinct_keys(self.private_messages.view_entries())
        &&& forall|i: int|
            0 <= i < self.private_messages.view_entries().len()
                ==> #[trigger] self.private_messages.view_entries()[i].0 <= u16::MAX
    }

    /// Maximum messages kept per conversation.
    pub closed spec fn max_messages(&self) -> nat {
        self.max_messages as nat
    }

    /// Server messages, oldest first.
    pub closed spec fn server_log(&self) -> Seq<ChatMessage> {
        self.server_messages@
    }

    /// Messages of a channel, oldest first.
    pub closed spec fn channel_log(&self, channel_id: u64) -> Seq<ChatMessage> {
        log_of(self.channel_messages.view_entries(), channel_id)
    }

    /// Private messages with a user, oldest first.
    pub closed spec fn private_log(&self, user_id: u16) -> Seq<ChatMessage> {
        log_of(self.private_messages.view_entries(), user_id as u64)
    }

    /// The channels with a conversation, in the order their first message came.
    pub closed spec fn channel_order(&self) -> Seq<u64> {
        keys_of(self.channel_messages.view_entries())
    }

    /// The users with a private conversation, in the order their first message came.
    pub closed spec fn private_order(&self) -> Seq<u16> {
        keys_of(self.private_messages.view_entries()).map_values(|k: u64| k as u16)
    }

    /// The messages of a conversation.
    pub open spec fn target_log(&self, target: MessageTarget) -> Seq<ChatMessage> {
        match target {
            MessageTarget::Server => self.server_log(),
            MessageTarget::Channel(c) => self.channel_log(c),
            MessageTarget::Private(u) => self.private_log(u),
        }
    }

    /// Every stored message: server messages, then each channel's in the order the channels
    /// first spoke, then each private conversation's likewise.
    pub open spec fn all_log(&self) -> Seq<ChatMessage> {
        self.server_log() + concat_logs(self.channel_order(), |c: u64| self.channel_log(c))
            + concat_logs(self.private_order(), |u: u16| self.private_log(u))
    }

    proof fn lemma_all_log(&self)
        requires
            self.wf(),
        ensures
            self.all_log() == self.server_messages@ + flatten(self.channel_messages.view_entries())
                + flatten(self.private_messages.view_entries()),
    {
        let ce = self.channel_messages.view_entries();
        let pe = self.private_messages.view_entries();
        lemma_flatten_concat(ce);
        lemma_flatten_concat(pe);
        let clog = |c: u64| self.channel_log(c);
        let raw_c = |k: u64| log_of(ce, k);
        assert forall|i: int| 0 <= i < keys_of(ce).len() implies clog(#[trigger] keys_of(ce)[i]) == raw_c(
            keys_of(ce)[i],
        ) by {}
        lemma_concat_congruent(keys_of(ce), clog, raw_c);
        let plog = |u: u16| self.private_log(u);
        let narrow = |k: u64| k as u16;
        let raw_p = |k: u64| log_of(pe, k);
        assert forall|i: int| 0 <= i < keys_of(pe).len() implies raw_p(#[trigger] keys_of(pe)[i]) == plog(
            narrow(keys_of(pe)[i]),
        ) by {
            assert(pe[i].0 <= u16::MAX);
            assert(((keys_of(pe)[i] as u16) as u64) == keys_of(pe)[i]);
        }
        lemma_concat_map(keys_of(pe), narrow, plog, raw_p);
        assert(self.private_order() == keys_of(pe).map_values(narrow));
    }

    /// Create a new chat history
    pub fn new(max_messages: usize) -> (h: ChatHistory)
        ensures
            h.wf(),
            h.max_messages() == max_messages,
            h.server_log() == Seq::<ChatMessage>::empty(),
            forall|c: u64| #[trigger] h.channel_log(c) == Seq::<ChatMessage>::empty(),
            forall|u: u16| #[trigger] h.private_log(u) == Seq::<ChatMessage>::empty(),
            h.channel_order() == Seq::<u64>::empty(),
            h.private_order() == Seq::<u16>::empty(),
            h.all_log() == Seq::<ChatMessage>::empty(),
    {
        let h = ChatHistory {
            max_messages,
            server_messages: VecDeque::new(),
            channel_messages: Threads::new(),
            private_messages: Threads::new(),
        };
        assert(h.channel_order() =~= Seq::<u64>::empty());
        assert(h.private_order() =~= Seq::<u16>::empty());
        assert(h.all_log() =~= Seq::<ChatMessage>::empty());
        h
    }

    /// Add a message to history
    pub fn add(&mut self, message: ChatMessage)
        requires
            old(self).wf(),
        ensures
            final(self).wf(),
            final(self).max_messages() == old(self).max_messages(),
            match message.target {
                MessageTarget::Server => {
                    &&& final(self).server_log() == bounded_push(
                        old(self).server_log(),
                        message,
                        old(self).max_messages(),
                    )
                    &&& forall|c: u64| #[trigger]
                        final(self).channel_log(c) == old(self).channel_log(c)
                    &&& forall|u: u16| #[trigger]
                        final(self).private_log(u) == old(self).private_log(u)
                },
                MessageTarget::Channel(id) => {
                    &&& final(self).server_log() == old(self).server_log()
                    &&& final(self).channel_log(id) == bounded_push(
                        old(self).channel_log(id),
                        message,
                        old(self).max_messages(),
                    )
                    &&& forall|c: u64|
                        c != id ==> #[trigger] final(self).channel_log(c) == old(self).channel_log(
                            c,
                        )
                    &&& forall|u: u16| #[trigger]
                        final(self).private_log(u) == old(self).private_log(u)
                },
                MessageTarget::Private(id) => {
                    &&& final(self).server_log() == old(self).server_log()
                    &&& forall|c: u64| #[trigger]
                        final(self).channel_log(c) == old(self).channel_log(c)
                    &&& final(self).private_log(id) == bounded_push(
                        old(self).private_log(id),
                        message,
                        old(self).max_messages(),
                    )
                    &&& forall|u: u16|
                        u != id ==> #[trigger] final(self).private_log(u) == old(self).private_log(
                            u,
                        )
                },
            },
            final(self).channel_order() == match message.target {
                MessageTarget::Channel(id) => if old(self).channel_order().contains(id) {
                    old(self).channel_order()
                } else {
                    old(self).channel_order().push(id)
                },
                _ => old(self).channel_order(),
            },
            final(self).private_order() == match message.target {
                MessageTarget::Private(id) => if old(self).private_order().contains(id) {
                    old(self).private_order()
                } else {
                    old(self).private_order().push(id)
                },
                _ => old(self).private_order(),
            },
            final(self).all_log().len() == old(self).all_log().len() + 1 - (if old(
                self,
            ).target_log(message.target).len() >= old(self).max_messages() && old(self).target_log(
                message.target,
            ).len() > 0 {
                1int
            } else {
                0int
            }),
            final(self).all_log().contains(message),
            added(*old(self), message, *final(self)),
    {
        proof {
            old(self).lemma_all_log();
        }
        let ghost pe0 = self.private_messages.view_entries();
        let max = self.max_messages;
        match message.target {
            MessageTarget::Server => {
                let ghost q0 = self.server_messages@;
                if self.server_messages.len() >= max {
                    self.server_messages.pop_front();
                }
                self.server_messages.push_back(message);
                assert(self.server_messages@ =~= bounded_push(q0, message, max as nat));
                proof {
                    self.lemma_all_log();
                    let q1 = self.server_messages@;
                    assert(q1[q1.len() - 1] == message);
                    lemma_contains_join(
                        q1,
                        flatten(self.channel_messages.view_entries()),
                        flatten(self.private_messages.view_entries()),
                        message,
                    );
                }
            },
            MessageTarget::Channel(id) => {
                self.channel_messages.push(id, message, max);
                proof {
                    self.lemma_all_log();
                    lemma_contains_join(
                        self.server_messages@,
                        flatten(self.channel_messages.view_entries()),
                        flatten(self.private_messages.view_entries()),
                        message,
                    );
                }
            },
            MessageTarget::Private(id) => {
                self.private_messages.push(id as u64, message, max);
                assert forall|u: u16| u != id implies #[trigger] self.private_log(u)
                    == old(self).private_log(u) by {
                    assert(u as u64 != id as u64);
                }
                proof {
                    let pe1 = self.private_messages.view_entries();
                    assert(short_keys(keys_of(pe0))) by {
                        assert forall|i: int| 0 <= i < keys_of(pe0).len() implies #[trigger] keys_of(
                            pe0,
                        )[i] <= u16::MAX by {
                            assert(pe0[i].0 <= u16::MAX);
                        }
                    }
                    lemma_narrow_contains(keys_of(pe0), id);
                    assert forall|i: int| 0 <= i < pe1.len() implies #[trigger] pe1[i].0 <= u16::MAX by {
                        assert(pe1[i].0 == keys_of(pe1)[i]);
                        if i < keys_of(pe0).len() {
                            assert(keys_of(pe1)[i] == keys_of(pe0)[i]);
                        } else {
                            assert(keys_of(pe1).len() == pe1.len());
                            assert(keys_of(pe0).len() == pe0.len());
                            assert(!keys_of(pe0).contains(id as u64));
                            assert(keys_of(pe1) == keys_of(pe0).push(id as u64));
                            assert(keys_of(pe1)[i] == id as u64);
                        }
                    }
                    assert(self.wf());
                    if !keys_of(pe0).contains(id as u64) {
                        assert(keys_of(pe0).push(id as u64).map_values(|k: u64| k as u16)
                            =~= keys_of(pe0).map_values(|k: u64| k as u16).push(id));
                    }
                    self.lemma_all_log();
                    lemma_contains_join(
                        self.server_messages@,
                        flatten(self.channel_messages.view_entries()),
                        flatten(self.private_messages.view_entries()),
                        message,
                    );
                }
            },
        }
        proof {
            assert forall|t: MessageTarget| #[trigger] self.target_log(t) == if t == message.target {
                bounded_push(old(self).target_log(t), message, old(self).max_messages())
            } else {
                old(self).target_log(t)
            } by {
                match t {
                    MessageTarget::Server => {},
                    MessageTarget::Channel(c) => {
                        assert(self.channel_log(c) == self.target_log(t));
                    },
                    MessageTarget::Private(u) => {
                        assert(self.private_log(u) == self.target_log(t));
                    },
                }
            }
        }
    }

    /// Get server messages
    pub fn server_messages(&self) -> (r: Vec<&ChatMessage>)
        ensures
            derefs(r@) == self.server_log(),
    {
        let mut r: Vec<&ChatMessage> = Vec::new();
        assert(derefs(r@) =~= Seq::<ChatMessage>::empty());
        collect_queue(&self.server_messages, &mut r);
        assert(Seq::<ChatMessage>::empty() + self.server_messages@ =~= self.server_messages@);
        r
    }

    /// Get channel messages
    pub fn channel_messages(&self, channel_id: u64) -> (r: Vec<&ChatMessage>)
        ensures
            derefs(r@) == self.channel_log(channel_id),
    {
        self.channel_messages.refs_of(channel_id)
    }

    /// Get private messages with a user
    pub fn private_messages(&self, user_id: u16) -> (r: Vec<&ChatMessage>)
        ensures
            derefs(r@) == self.private_log(user_id),
    {
        self.private_messages.refs_of(user_id as u64)
    }

    /// Get all messages (across all conversations)
    pub fn all_messages(&self) -> (r: Vec<&ChatMessage>)
        requires
            self.wf(),
        ensures
            derefs(r@) == self.all_log(),
    {
        let mut r: Vec<&ChatMessage> = Vec::new();
        assert(derefs(r@) =~= Seq::<ChatMessage>::empty());
        collect_queue(&self.server_messages, &mut r);
        self.channel_messages.collect(&mut r);
        self.private_messages.collect(&mut r);
        proof {
            self.lemma_all_log();
        }
        assert(derefs(r@) =~= self.all_log());
        r
    }

    /// Search messages by content
    pub fn search(&self, query: &str) -> (r: Vec<&ChatMessage>)
        requires
            self.wf(),
        ensures
            derefs(r@) == select_text(self.all_log(), lowercase(query@)),
            is_ascii_text(query@) && all_ascii(self.all_log()) ==> derefs(r@) == select_ascii_text(
                self.all_log(),
                ascii_lower(query@),
            ),
    {
        let q = to_lowercase(query);
        let qv = chars_of(q.as_str());
        let all = self.all_messages();
        let ghost s = derefs(all@);
        let mut r: Vec<&ChatMessage> = Vec::new();
        let mut i: usize = 0;
        assert(s.take(0) =~= Seq::<ChatMessage>::empty());
        assert(derefs(r@) =~= Seq::<ChatMessage>::empty());
        while i < all.len()
            invariant
                i <= all.len(),
                s == derefs(all@),
                qv@ == lowercase(query@),
                is_ascii_text(query@) ==> qv@ == ascii_lower(query@),
                derefs(r@) == select_text(s.take(i as int), qv@),
                all_ascii(s) ==> derefs(r@) == select_ascii_text(s.take(i as int), qv@),
            decreases all.len() - i,
        {
            let m = all[i];
            assert(s[i as int] == *m);
            let lc = to_lowercase(m.content.as_str());
            let lv = chars_of(lc.as_str());
            let ghost before = r@;
            assert(s.take(i + 1 as int).drop_last() =~= s.take(i as int));
            assert(s.take(i + 1 as int).last() == *m);
            if contains_chars(&lv, &qv) {
                r.push(m);
                assert(derefs(r@) =~= derefs(before).push(*m));
            }
            i += 1;
        }
        assert(s.take(all.len() as int) =~= s);
        r
    }

    /// Get messages from a specific sender
    pub fn from_sender(&self, sender_id: u16) -> (r: Vec<&ChatMessage>)
        requires
            self.wf(),
        ensures
            derefs(r@) == select_sender(self.all_log(), sender_id),
    {
        let all = self.all_messages();
        let ghost s = derefs(all@);
        let mut r: Vec<&ChatMessage> = Vec::new();
        let mut i: usize = 0;
        assert(s.take(0) =~= Seq::<ChatMessage>::empty());
        assert(derefs(r@) =~= Seq::<ChatMessage>::empty());
        while i < all.len()
            invariant
                i <= all.len(),
                s == derefs(all@),
                derefs(r@) == select_sender(s.take(i as int), sender_id),
            decreases all.len() - i,
        {
            let m = all[i];
            let ghost before = r@;
            assert(s.take(i + 1 as int).drop_last() =~= s.take(i as int));
            assert(s.take(i + 1 as int).last() == *m);
            if m.sender_id == sender_id {
                r.push(m);
                assert(derefs(r@) =~= derefs(before).push(*m));
            }
            i += 1;
        }
        assert(s.take(all.len() as int) =~= s);
        r
    }

    /// Clear all history
    pub fn clear(&mut self)
        ensures
            final(self).wf(),
            final(self).max_messages() == old(self).max_messages(),
            final(self).all_log() == Seq::<ChatMessage>::empty(),
            final(self).server_log() == Seq::<ChatMessage>::empty(),
            forall|c: u64| #[trigger] final(self).channel_log(c) == Seq::<ChatMessage>::empty(),
            forall|u: u16| #[trigger] final(self).private_log(u) == Seq::<ChatMessage>::empty(),
            final(self).channel_order() == Seq::<u64>::empty(),
            final(self).private_order() == Seq::<u16>::empty(),
    {
        self.server_messages.clear();
        self.channel_messages.clear();
        self.private_messages.clear();
        assert(self.channel_order() =~= Seq::<u64>::empty());
        assert(self.private_order() =~= Seq::<u16>::empty());
        assert(self.all_log() =~= Seq::<ChatMessage>::empty());
    }

    /// Clear history for a specific channel
    pub fn clear_channel(&mut self, channel_id: u64)
        requires
            old(self).wf(),
        ensures
            final(self).wf(),
            final(self).max_messages() == old(self).max_messages(),
            final(self).server_log() == old(self).server_log(),
            final(self).channel_log(channel_id) == Seq::<ChatMessage>::empty(),
            forall|c: u64|
                c != channel_id ==> #[trigger] final(self).channel_log(c) == old(self).channel_log(
                    c,
                ),
            forall|u: u16| #[trigger] final(self).private_log(u) == old(self).private_log(u),
            final(self).all_log().len() == old(self).all_log().len() - old(self).channel_log(
                channel_id,
            ).len(),
            final(self).channel_order() == drop_key(old(self).channel_order(), channel_id),
            final(self).private_order() == old(self).private_order(),
    {
        proof {
            old(self).lemma_all_log();
        }
        self.channel_messages.remove(channel_id);
        proof {
            self.lemma_all_log();
        }
    }

    /// Clear history for a specific user
    pub fn clear_user(&mut self, user_id: u16)
        requires
            old(self).wf(),
        ensures
            final(self).wf(),
            final(self).max_messages() == old(self).max_messages(),
            final(self).server_log() == old(self).server_log(),
            forall|c: u64| #[trigger] final(self).channel_log(c) == old(self).channel_log(c),
            final(self).private_log(user_id) == Seq::<ChatMessage>::empty(),
            forall|u: u16|
                u != user_id ==> #[trigger] final(self).private_log(u) == old(self).private_log(
                    u,
                ),
            final(self).all_log().len() == old(self).all_log().len() - old(self).private_log(
                user_id,
            ).len(),
            final(self).channel_order() == old(self).channel_order(),
            final(self).private_order() == drop_key(old(self).private_order(), user_id),
    {
        proof {
            old(self).lemma_all_log();
        }
        let ghost pe0 = self.private_messages.view_entries();
        self.private_messages.remove(user_id as u64);
        assert forall|u: u16| u != user_id implies #[trigger] self.private_log(u)
            == old(self).private_log(u) by {
            assert(u as u64 != user_id as u64);
        }
        proof {
            let pe1 = self.private_messages.view_entries();
            assert(short_keys(keys_of(pe0))) by {
                assert forall|i: int| 0 <= i < keys_of(pe0).len() implies #[trigger] keys_of(pe0)[i]
                    <= u16::MAX by {
                    assert(pe0[i].0 <= u16::MAX);
                }
            }
            lemma_drop_narrow(keys_of(pe0), user_id);
            lemma_drop_short(keys_of(pe0), user_id as u64);
            assert forall|i: int| 0 <= i < pe1.len() implies #[trigger] pe1[i].0 <= u16::MAX by {
                assert(pe1[i].0 == keys_of(pe1)[i]);
            }
            self.lemma_all_log();
        }
    }

    /// Get total message count
    pub fn total_count(&self) -> (n: usize)
        requires
            self.wf(),
            self.all_log().len() <= usize::MAX,
        ensures
            n == self.all_log().len(),
            n == self.server_log().len() + total_len(self.channel_order(), |c: u64| self.channel_log(c))
                + total_len(self.private_order(), |u: u16| self.private_log(u)),
    {
        proof {
            self.lemma_all_log();
            all_messages_account(*self);
        }
        let a = self.server_messages.len();
        let b = self.channel_messages.total();
        let c = self.private_messages.total();
        a + b + c
    }
}

/// All messages are the server messages followed by every conversation's, so they count
/// as many as those together. The conversation orders hold each channel and user once, and
/// a channel or user missing from them has no messages.
pub proof fn all_messages_account(h: ChatHistory)
    requires
        h.wf(),
    ensures
        h.all_log().len() == h.server_log().len() + total_len(
            h.channel_order(),
            |c: u64| h.channel_log(c),
        ) + total_len(h.private_order(), |u: u16| h.private_log(u)),
        forall|c: u64| !h.channel_order().contains(c) ==> #[trigger] h.channel_log(c) == Seq::<
            ChatMessage,
        >::empty(),
        forall|u: u16| !h.private_order().contains(u) ==> #[trigger] h.private_log(u) == Seq::<
            ChatMessage,
        >::empty(),
        forall|a: int, b: int|
            0 <= a < b < h.channel_order().len() ==> h.channel_order()[a] != h.channel_order()[b],
        forall|a: int, b: int|
            0 <= a < b < h.private_order().len() ==> h.private_order()[a] != h.private_order()[b],
{
    concat_logs_len(h.channel_order(), |c: u64| h.channel_log(c));
    concat_logs_len(h.private_order(), |u: u16| h.private_log(u));
    let ce = h.channel_messages.view_entries();
    let pe = h.private_messages.view_entries();
    assert forall|c: u64| !h.channel_order().contains(c) implies #[trigger] h.channel_log(c) == Seq::<
        ChatMessage,
    >::empty() by {
        lemma_keys_absent(ce, c);
    }
    assert(short_keys(keys_of(pe))) by {
        assert forall|i: int| 0 <= i < keys_of(pe).len() implies #[trigger] keys_of(pe)[i] <= u16::MAX by {
            assert(pe[i].0 <= u16::MAX);
        }
    }
    assert forall|u: u16| !h.private_order().contains(u) implies #[trigger] h.private_log(u) == Seq::<
        ChatMessage,
    >::empty() by {
        lemma_narrow_contains(keys_of(pe), u);
        lemma_keys_absent(pe, u as u64);
    }
    assert forall|a: int, b: int| 0 <= a < b < h.channel_order().len() implies h.channel_order()[a]
        != h.channel_order()[b] by {
        assert(ce[a].0 != ce[b].0);
    }
    assert forall|a: int, b: int| 0 <= a < b < h.private_order().len() implies h.private_order()[a]
        != h.private_order()[b] by {
        assert(pe[a].0 != pe[b].0);
        assert(pe[a].0 <= u16::MAX);
        assert(pe[b].0 <= u16::MAX);
    }
}

impl Default for ChatHistory {
    fn default() -> (h: ChatHistory)
        ensures
            h.wf(),
            h.max_messages() == 1000,
            h.server_log() == Seq::<ChatMessage>::empty(),
            forall|c: u64| #[trigger] h.channel_log(c) == Seq::<ChatMessage>::empty(),
            forall|u: u16| #[trigger] h.private_log(u) == Seq::<ChatMessage>::empty(),
            h.channel_order() == Seq::<u64>::empty(),
            h.private_order() == Seq::<u16>::empty(),
            h.all_log() == Seq::<ChatMessage>::empty(),
    {
        ChatHistory::new(1000)
    }
}


/// A conversation after messages for any conversation arrive one by one: those for `t`
/// are pushed onto it, the others pass it by.
pub open spec fn conversation_after(
    q: Seq<ChatMessage>,
    ms: Seq<ChatMessage>,
    t: MessageTarget,
    max: nat,
) -> Seq<ChatMessage>
    decreases ms.len(),
{
    if ms.len() == 0 {
        q
    } else {
        let p = conversation_after(q, ms.drop_last(), t, max);
        if ms.last().target == t {
            bounded_push(p, ms.last(), max)
        } else {
            p
        }
    }
}

/// The messages of `ms` addressed to `t`, in order.
pub open spec fn addressed_to(ms: Seq<ChatMessage>, t: MessageTarget) -> Seq<ChatMessage> {
    ms.filter(|m: ChatMessage| m.target == t)
}

proof fn lemma_conversation_after(q: Seq<ChatMessage>, ms: Seq<ChatMessage>, t: MessageTarget, max: nat)
    ensures
        conversation_after(q, ms, t, max) == bounded_pushes(q, addressed_to(ms, t), max),
    decreases ms.len(),
{
    if ms.len() > 0 {
        let pre = ms.drop_last();
        lemma_conversation_after(q, pre, t, max);
        assert(pre.push(ms.last()) =~= ms);
        pre.lemma_filter_push(ms.last(), |m: ChatMessage| m.target == t);
        let f = addressed_to(ms, t);
        if ms.last().target == t {
            assert(f.drop_last() =~= addressed_to(pre, t));
        }
    }
}

/// A history keeps, for each conversation, the newest messages addressed to it: after
/// messages for any conversations arrive one by one (each as `add` records it), a
/// conversation that held no more than it keeps holds the newest of its old messages and
/// of those addressed to it, in the order they arrived, as many as it keeps; messages
/// for other conversations leave it as it was.
pub proof fn history_keeps_newest(q: Seq<ChatMessage>, ms: Seq<ChatMessage>, t: MessageTarget, max: nat)
    requires
        q.len() <= kept(max),
    ensures
        conversation_after(q, ms, t, max) == newest(q + addressed_to(ms, t), kept(max)),
{
    lemma_conversation_after(q, ms, t, max);
    conversation_keeps_newest(q, addressed_to(ms, t), max);
}


/// `h2` is the history `add` leaves when `m` arrives at `h1`: the conversation `m` is
/// addressed to has it pushed on, the others stay as they were, the limit stays.
pub open spec fn added(h1: ChatHistory, m: ChatMessage, h2: ChatHistory) -> bool {
    &&& h2.max_messages() == h1.max_messages()
    &&& forall|t: MessageTarget| #[trigger] h2.target_log(t) == if t == m.target {
        bounded_push(h1.target_log(t), m, h1.max_messages())
    } else {
        h1.target_log(t)
    }
}

/// Over any number of `add` calls, each conversation keeps the newest messages addressed
/// to it: a conversation that held no more than it keeps ends up with the newest of its
/// old messages and of those addressed to it, in the order they arrived, as many as it
/// keeps (the limit, or the newest one alone under a limit of 0), oldest dropped first.
pub proof fn adds_keep_newest(hs: Seq<ChatHistory>, ms: Seq<ChatMessage>, t: MessageTarget)
    requires
        hs.len() == ms.len() + 1,
        forall|i: int| 0 <= i < ms.len() ==> added(#[trigger] hs[i], ms[i], hs[i + 1]),
        hs[0].target_log(t).len() <= kept(hs[0].max_messages()),
    ensures
        hs.last().target_log(t) == newest(
            hs[0].target_log(t) + addressed_to(ms, t),
            kept(hs[0].max_messages()),
        ),
{
    let q = hs[0].target_log(t);
    let max = hs[0].max_messages();
    assert forall|i: int| 0 <= i <= ms.len() implies #[trigger] hs[i].target_log(t)
        == conversation_after(q, ms.take(i), t, max) && hs[i].max_messages() == max by {
        lemma_adds_prefix(hs, ms, t, i);
    }
    assert(ms.take(ms.len() as int) =~= ms);
    assert(hs.last() == hs[ms.len() as int]);
    history_keeps_newest(q, ms, t, max);
}

proof fn lemma_adds_prefix(hs: Seq<ChatHistory>, ms: Seq<ChatMessage>, t: MessageTarget, i: int)
    requires
        hs.len() == ms.len() + 1,
        forall|j: int| 0 <= j < ms.len() ==> added(#[trigger] hs[j], ms[j], hs[j + 1]),
        0 <= i <= ms.len(),
    ensures
        hs[i].target_log(t) == conversation_after(
            hs[0].target_log(t),
            ms.take(i),
            t,
            hs[0].max_messages(),
        ),
        hs[i].max_messages() == hs[0].max_messages(),
    decreases i,
{
    if i > 0 {
        lemma_adds_prefix(hs, ms, t, i - 1);
        assert(added(hs[i - 1], ms[i - 1], hs[i]));
        assert(ms.take(i).drop_last() =~= ms.take(i - 1));
        assert(ms.take(i).last() == ms[i - 1]);
    } else {
        assert(ms.take(0).len() == 0);
    }
}

} // verus!
