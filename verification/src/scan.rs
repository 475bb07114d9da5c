//! Left-to-right rewriting of character sequences: at each position a pass
//! either matches (consuming at least one character and producing a
//! replacement) or copies one character, as `replace_all` of a leftmost-first
//! pattern engine does.

use vstd::prelude::*;
use crate::text::{append_chars, has_at, is_word, is_word_char, lit_at};

verus! {

/// One rewriting pass: what it matches at a position and what it writes there.
pub trait Pass {
    /// The match starting at `p`: its end and its replacement.
    spec fn spec_step(&self, s: Seq<char>, p: int) -> Option<(int, Seq<char>)>;

    /// Executable matcher.
    fn step(&self, s: &Vec<char>, p: usize) -> (r: Option<(usize, Vec<char>)>)
        requires
            p < s.len(),
        ensures
            match r {
                Some((e, rep)) => self.spec_step(s@, p as int) == Some((e as int, rep@)) && p < e
                    <= s.len(),
                None => self.spec_step(s@, p as int) is None,
            },
    ;
}

/// The text produced from position `i` on, after `acc` was produced before it.
pub open spec fn rewrite<P: Pass>(pass: &P, s: Seq<char>, i: int, acc: Seq<char>) -> Seq<char>
    decreases s.len() - i,
{
    if i < 0 || i >= s.len() {
        acc
    } else {
        match pass.spec_step(s, i) {
            Some((e, rep)) => if i < e <= s.len() {
                rewrite(pass, s, e, acc + rep)
            } else {
                rewrite(pass, s, i + 1, acc.push(s[i]))
            },
            None => rewrite(pass, s, i + 1, acc.push(s[i])),
        }
    }
}

/// The whole rewritten text.
pub open spec fn rewrite_all<P: Pass>(pass: &P, s: Seq<char>) -> Seq<char> {
    rewrite(pass, s, 0, Seq::empty())
}

/// Applies a pass over the whole text.
pub fn replace_all<P: Pass>(pass: &P, s: &Vec<char>) -> (r: Vec<char>)
    ensures
        r@ == rewrite_all(pass, s@),
{
    let mut out: Vec<char> = Vec::new();
    let mut i: usize = 0;
    while i < s.len()
        invariant
            i <= s.len(),
            rewrite_all(pass, s@) == rewrite(pass, s@, i as int, out@),
        decreases s.len() - i,
    {
        match pass.step(s, i) {
            Some((e, rep)) => {
                append_chars(&mut out, &rep);
                i = e;
            },
            None => {
                out.push(s[i]);
                i += 1;
            },
        }
    }
    out
}

/// `s[i]` is a word character (false outside the text).
pub open spec fn word_at(s: Seq<char>, i: int) -> bool {
    0 <= i < s.len() && is_word(s[i])
}

/// The `\b` assertion at position `i`.
pub open spec fn boundary(s: Seq<char>, i: int) -> bool {
    word_at(s, i - 1) != word_at(s, i)
}

pub fn word_at_exec(s: &Vec<char>, i: usize) -> (r: bool)
    ensures
        r == word_at(s@, i as int),
{
    if i < s.len() {
        is_word_char(s[i])
    } else {
        false
    }
}

/// Executable `\b` test.
pub fn boundary_exec(s: &Vec<char>, i: usize) -> (r: bool)
    ensures
        r == boundary(s@, i as int),
{
    let before = if i == 0 {
        false
    } else {
        word_at_exec(s, i - 1)
    };
    before != word_at_exec(s, i)
}

/// The lazy `(.*?)CLOSE` search: the first `k >= i` where `close` occurs (and,
/// when `bounded`, is followed by a `\b`), with no line feed in `s[i..k]`.
pub open spec fn close_at(s: Seq<char>, i: int, close: Seq<char>, bounded: bool) -> Option<int>
    decreases s.len() + 1 - i,
{
    if i < 0 || i + close.len() > s.len() {
        None
    } else if has_at(s, i, close) && (!bounded || boundary(s, i + close.len())) {
        Some(i)
    } else if i < s.len() && s[i] == '\n' {
        None
    } else {
        close_at(s, i + 1, close, bounded)
    }
}

pub proof fn lemma_close_at(s: Seq<char>, i: int, close: Seq<char>, bounded: bool)
    requires
        0 <= i,
    ensures
        close_at(s, i, close, bounded) matches Some(k) ==> i <= k && k + close.len() <= s.len()
            && has_at(s, k, close),
    decreases s.len() + 1 - i,
{
    if i + close.len() > s.len() {
    } else if has_at(s, i, close) && (!bounded || boundary(s, i + close.len())) {
    } else if i < s.len() && s[i] == '\n' {
    } else {
        lemma_close_at(s, i + 1, close, bounded);
    }
}

/// Executable lazy close search.
pub fn close_at_exec(s: &Vec<char>, i: usize, close: &Vec<char>, bounded: bool) -> (r: Option<usize>)
    ensures
        match r {
            Some(k) => close_at(s@, i as int, close@, bounded) == Some(k as int),
            None => close_at(s@, i as int, close@, bounded) is None,
        },
{
    let mut k = i;
    while k <= s.len() && close.len() <= s.len() - k
        invariant
            i <= k,
            close_at(s@, i as int, close@, bounded) == close_at(s@, k as int, close@, bounded),
        decreases s.len() + 1 - k,
    {
        if lit_at(s, k, close) && (!bounded || boundary_exec(s, k + close.len())) {
            return Some(k);
        }
        if k < s.len() && s[k] == '\n' {
            return None;
        }
        if k == s.len() {
            assert(close_at(s@, k as int + 1, close@, bounded) is None);
            return None;
        }
        k += 1;
    }
    None
}


/// A pass that matches nowhere from `i` on copies the rest of the text unchanged.
pub proof fn lemma_rewrite_unchanged<P: Pass>(pass: &P, s: Seq<char>, i: int, acc: Seq<char>)
    requires
        0 <= i <= s.len(),
        forall|p: int| i <= p < s.len() ==> (#[trigger] pass.spec_step(s, p)) is None,
    ensures
        rewrite(pass, s, i, acc) == acc + s.skip(i),
    decreases s.len() - i,
{
    if i < s.len() {
        lemma_rewrite_unchanged(pass, s, i + 1, acc.push(s[i]));
        assert(acc.push(s[i]) + s.skip(i + 1) =~= acc + s.skip(i));
    } else {
        assert(acc + s.skip(i) =~= acc);
    }
}

} // verus!
