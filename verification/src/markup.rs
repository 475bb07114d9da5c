//! Markdown preprocessing: code regions and tables are protected behind
//! placeholders, then Markdown emphasis, links, images, lists and emoji are
//! rewritten into BBCode and Unicode.

use vstd::prelude::*;
use crate::render::BBCodeRenderer;
use crate::scan::{boundary, boundary_exec};
use crate::text::{
    append_chars, chars_of, decimal, decimal_chars, find_from, find_lit, has_at, is_white_space,
    is_word, is_word_char, is_ws, join, join_chars, lemma_find_from, lit_at, slice_chars,
    string_of,
};

verus! {

/// A protected region: its placeholder and its rendered text.
pub type Protected = (Vec<char>, Vec<char>);

/// The abstract contents of a list of protected regions.
pub open spec fn protected_view(v: Seq<Protected>) -> Seq<(Seq<char>, Seq<char>)> {
    v.map_values(|p: Protected| (p.0@, p.1@))
}

/// `"\0" + tag + index + "\0"`: a placeholder that the later passes leave alone.
pub open spec fn placeholder(tag: Seq<char>, idx: nat) -> Seq<char> {
    seq!['\0'] + tag + decimal(idx) + seq!['\0']
}

fn make_placeholder(tag: &str, idx: usize) -> (r: Vec<char>)
    ensures
        r@ == placeholder(tag@, idx as nat),
{
    let mut r: Vec<char> = Vec::new();
    r.push('\0');
    let t = chars_of(tag);
    append_chars(&mut r, &t);
    let d = decimal_chars(idx);
    append_chars(&mut r, &d);
    r.push('\0');
    r
}

/// The end of the run of word characters starting at `i`.
pub open spec fn word_run_end(s: Seq<char>, i: int) -> int
    decreases s.len() - i,
{
    if 0 <= i < s.len() && is_word(s[i]) {
        word_run_end(s, i + 1)
    } else {
        i
    }
}

proof fn lemma_word_run_end(s: Seq<char>, i: int)
    requires
        0 <= i <= s.len(),
    ensures
        i <= word_run_end(s, i) <= s.len(),
    decreases s.len() - i,
{
    if i < s.len() && is_word(s[i]) {
        lemma_word_run_end(s, i + 1);
    }
}

/// The three backticks of a fenced block.
pub open spec fn fence() -> Seq<char> {
    seq!['`', '`', '`']
}

/// A fenced code block ```` ```lang\n...``` ```` at `p`: content start, content end, match end.
pub open spec fn fence_match(s: Seq<char>, p: int) -> Option<(int, int, int)> {
    if has_at(s, p, fence()) {
        let w = word_run_end(s, p + 3);
        let q = if w < s.len() && s[w] == '\n' {
            w + 1
        } else {
            w
        };
        match find_from(s, q, fence()) {
            Some(c) => Some((q, c, c + 3)),
            None => None,
        }
    } else {
        None
    }
}

/// The first backtick or line feed at or after `i`.
pub open spec fn tick_or_nl(s: Seq<char>, i: int) -> Option<int>
    decreases s.len() - i,
{
    if i < 0 || i >= s.len() {
        None
    } else if s[i] == '`' || s[i] == '\n' {
        Some(i)
    } else {
        tick_or_nl(s, i + 1)
    }
}

/// Inline code `` `...` `` at `p`: content start, content end, match end.
pub open spec fn tick_match(s: Seq<char>, p: int) -> Option<(int, int, int)> {
    if 0 <= p < s.len() && s[p] == '`' {
        match tick_or_nl(s, p + 1) {
            Some(c) => if s[c] == '`' && c > p + 1 {
                Some((p + 1, c, c + 1))
            } else {
                None
            },
            None => None,
        }
    } else {
        None
    }
}

/// The protected-region match of a kind (fenced block or inline code).
pub open spec fn protect_match(block: bool, s: Seq<char>, p: int) -> Option<(int, int, int)> {
    if block {
        fence_match(s, p)
    } else {
        tick_match(s, p)
    }
}

/// The placeholder tag of a kind.
pub open spec fn protect_tag(block: bool) -> Seq<char> {
    if block {
        "CODE_BLOCK_"@
    } else {
        "INLINE_CODE_"@
    }
}

/// The rendering of a protected region of a kind.
pub open spec fn protect_render<R: BBCodeRenderer>(r: &R, block: bool, c: Seq<char>) -> Seq<char> {
    if block {
        r.spec_code_block(c)
    } else {
        r.spec_code(c)
    }
}

/// Replaces every code region of a kind, left to right, by a placeholder,
/// recording the placeholder and the rendered region.
pub open spec fn protect<R: BBCodeRenderer>(
    r: &R,
    block: bool,
    s: Seq<char>,
    i: int,
    out: Seq<char>,
    prot: Seq<(Seq<char>, Seq<char>)>,
) -> (Seq<char>, Seq<(Seq<char>, Seq<char>)>)
    decreases s.len() - i,
{
    if i < 0 || i >= s.len() {
        (out, prot)
    } else {
        match protect_match(block, s, i) {
            Some((a, b, e)) => if i < e <= s.len() && 0 <= a <= b <= s.len() {
                let ph = placeholder(protect_tag(block), prot.len());
                protect(
                    r,
                    block,
                    s,
                    e,
                    out + ph,
                    prot.push((ph, protect_render(r, block, s.subrange(a, b)))),
                )
            } else {
                protect(r, block, s, i + 1, out.push(s[i]), prot)
            },
            None => protect(r, block, s, i + 1, out.push(s[i]), prot),
        }
    }
}

fn fence_match_exec(s: &Vec<char>, p: usize) -> (r: Option<(usize, usize, usize)>)
    requires
        p < s.len(),
    ensures
        match r {
            Some((a, b, e)) => fence_match(s@, p as int) == Some((a as int, b as int, e as int))
                && p < e <= s.len() && a <= b <= s.len(),
            None => fence_match(s@, p as int) is None,
        },
{
    let f = vec!['`', '`', '`'];
    assert(f@ == fence());
    if !lit_at(s, p, &f) {
        return None;
    }
    let mut w = p + 3;
    while w < s.len() && is_word_char(s[w])
        invariant
            p + 3 <= w <= s.len(),
            word_run_end(s@, p + 3) == word_run_end(s@, w as int),
        decreases s.len() - w,
    {
        w += 1;
    }
    let q = if w < s.len() && s[w] == '\n' {
        w + 1
    } else {
        w
    };
    match find_lit(s, q, &f) {
        Some(c) => {
            proof {
                lemma_find_from(s@, q as int, f@);
            }
            Some((q, c, c + 3))
        },
        None => None,
    }
}

fn tick_match_exec(s: &Vec<char>, p: usize) -> (r: Option<(usize, usize, usize)>)
    requires
        p < s.len(),
    ensures
        match r {
            Some((a, b, e)) => tick_match(s@, p as int) == Some((a as int, b as int, e as int))
                && p < e <= s.len() && a <= b <= s.len(),
            None => tick_match(s@, p as int) is None,
        },
{
    if s[p] != '`' {
        return None;
    }
    let mut c = p + 1;
    while c < s.len() && s[c] != '`' && s[c] != '\n'
        invariant
            p + 1 <= c <= s.len(),
            tick_or_nl(s@, p + 1) == tick_or_nl(s@, c as int),
        decreases s.len() - c,
    {
        c += 1;
    }
    if c < s.len() && s[c] == '`' && c > p + 1 {
        Some((p + 1, c, c + 1))
    } else {
        None
    }
}

/// Protects the code regions of a kind.
pub fn protect_exec<R: BBCodeRenderer>(
    r: &R,
    block: bool,
    s: &Vec<char>,
    prot: &mut Vec<Protected>,
) -> (out: Vec<char>)
    ensures
        (out@, protected_view(final(prot)@)) == protect(
            r,
            block,
            s@,
            0,
            Seq::empty(),
            protected_view(old(prot)@),
        ),
{
    let mut out: Vec<char> = Vec::new();
    let mut i: usize = 0;
    while i < s.len()
        invariant
            i <= s.len(),
            protect(r, block, s@, 0, Seq::empty(), protected_view(old(prot)@)) == protect(
                r,
                block,
                s@,
                i as int,
                out@,
                protected_view(prot@),
            ),
        decreases s.len() - i,
    {
        let m = if block {
            fence_match_exec(s, i)
        } else {
            tick_match_exec(s, i)
        };
        match m {
            Some((a, b, e)) => {
                let ph = if block {
                    make_placeholder("CODE_BLOCK_", prot.len())
                } else {
                    make_placeholder("INLINE_CODE_", prot.len())
                };
                let content = string_of(&slice_chars(s, a, b));
                let rendered = if block {
                    r.code_block(content.as_str())
                } else {
                    r.code(content.as_str())
                };
                let rv = chars_of(rendered.as_str());
                append_chars(&mut out, &ph);
                let ghost old_prot = prot@;
                prot.push((ph, rv));
                proof {
                    assert(protected_view(prot@) =~= protected_view(old_prot).push(
                        (ph@, protect_render(r, block, s@.subrange(a as int, b as int))),
                    ));
                }
                i = e;
            },
            None => {
                out.push(s[i]);
                i += 1;
            },
        }
    }
    (out)
}

/// Drops one trailing carriage return.
pub open spec fn strip_cr(x: Seq<char>) -> Seq<char> {
    if x.len() > 0 && x.last() == '\r' {
        x.drop_last()
    } else {
        x
    }
}

/// The lines of `s` as `str::lines` yields them: split after each line feed,
/// the line feed and a carriage return before it removed, no empty last line.
pub open spec fn lines_acc(s: Seq<char>, i: int, start: int, acc: Seq<Seq<char>>) -> Seq<Seq<char>>
    decreases s.len() - i,
{
    if i < 0 || i >= s.len() {
        if 0 <= start < s.len() {
            acc.push(s.subrange(start, s.len() as int))
        } else {
            acc
        }
    } else if s[i] == '\n' {
        lines_acc(s, i + 1, i + 1, acc.push(strip_cr(s.subrange(start, i))))
    } else {
        lines_acc(s, i + 1, start, acc)
    }
}

/// The lines of a text.
pub open spec fn lines(s: Seq<char>) -> Seq<Seq<char>> {
    lines_acc(s, 0, 0, Seq::empty())
}

/// Splits a text into lines.
pub fn split_lines(s: &Vec<char>) -> (r: Vec<Vec<char>>)
    ensures
        r@.map_values(|l: Vec<char>| l@) == lines(s@),
{
    let mut r: Vec<Vec<char>> = Vec::new();
    let mut start: usize = 0;
    let mut i: usize = 0;
    assert(r@.map_values(|l: Vec<char>| l@) =~= Seq::<Seq<char>>::empty());
    while i < s.len()
        invariant
            start <= i <= s.len(),
            lines(s@) == lines_acc(s@, i as int, start as int, r@.map_values(|l: Vec<char>| l@)),
        decreases s.len() - i,
    {
        if s[i] == '\n' {
            let mut piece = slice_chars(s, start, i);
            if piece.len() > 0 && piece[piece.len() - 1] == '\r' {
                piece.pop();
            }
            let ghost old_r = r@;
            r.push(piece);
            assert(r@.map_values(|l: Vec<char>| l@) =~= old_r.map_values(|l: Vec<char>| l@).push(
                strip_cr(s@.subrange(start as int, i as int)),
            ));
            start = i + 1;
        }
        i += 1;
    }
    if start < s.len() {
        let piece = slice_chars(s, start, s.len());
        let ghost old_r = r@;
        r.push(piece);
        assert(r@.map_values(|l: Vec<char>| l@) =~= old_r.map_values(|l: Vec<char>| l@).push(
            s@.subrange(start as int, s.len() as int),
        ));
    }
    r
}

/// The separator-row automaton of `^\|(\s*:?-+:?\s*\|)+\s*$` after the first bar.
/// States: 0 after a bar, 1 after a leading colon, 2 in the dashes,
/// 3 after a trailing colon, 4 in the spaces before the next bar.
pub open spec fn sep_dfa(l: Seq<char>, i: int, state: int, seen: bool) -> bool
    decreases l.len() - i,
{
    if i < 0 || i >= l.len() {
        state == 0 && seen
    } else {
        let c = l[i];
        if state == 0 {
            if is_white_space(c) {
                sep_dfa(l, i + 1, 0, seen)
            } else if c == ':' {
                sep_dfa(l, i + 1, 1, seen)
            } else if c == '-' {
                sep_dfa(l, i + 1, 2, seen)
            } else {
                false
            }
        } else if state == 1 {
            if c == '-' {
                sep_dfa(l, i + 1, 2, seen)
            } else {
                false
            }
        } else if state == 2 {
            if c == '-' {
                sep_dfa(l, i + 1, 2, seen)
            } else if c == ':' {
                sep_dfa(l, i + 1, 3, seen)
            } else if c == '|' {
                sep_dfa(l, i + 1, 0, true)
            } else if is_white_space(c) {
                sep_dfa(l, i + 1, 4, seen)
            } else {
                false
            }
        } else {
            if c == '|' {
                sep_dfa(l, i + 1, 0, true)
            } else if is_white_space(c) {
                sep_dfa(l, i + 1, 4, seen)
            } else {
                false
            }
        }
    }
}

/// A table separator row such as `| --- | :-: |`.
pub open spec fn is_sep_row(l: Seq<char>) -> bool {
    l.len() > 0 && l[0] == '|' && sep_dfa(l, 1, 0, false)
}

fn is_sep_row_exec(l: &Vec<char>) -> (r: bool)
    ensures
        r == is_sep_row(l@),
{
    if l.len() == 0 || l[0] != '|' {
        return false;
    }
    let mut i: usize = 1;
    let mut state: u8 = 0;
    let mut seen = false;
    while i < l.len()
        invariant
            1 <= i <= l.len(),
            state <= 4,
            is_sep_row(l@) == sep_dfa(l@, i as int, state as int, seen),
        decreases l.len() - i,
    {
        let c = l[i];
        let ws = is_ws(c);
        if state == 0 {
            if ws {
                state = 0;
            } else if c == ':' {
                state = 1;
            } else if c == '-' {
                state = 2;
            } else {
                return false;
            }
        } else if state == 1 {
            if c == '-' {
                state = 2;
            } else {
                return false;
            }
        } else if state == 2 {
            if c == '-' {
                state = 2;
            } else if c == ':' {
                state = 3;
            } else if c == '|' {
                state = 0;
                seen = true;
            } else if ws {
                state = 4;
            } else {
                return false;
            }
        } else {
            if c == '|' {
                state = 0;
                seen = true;
            } else if ws {
                state = 4;
            } else {
                return false;
            }
        }
        i += 1;
    }
    state == 0 && seen
}

/// A line beginning with a bar.
pub open spec fn starts_pipe(l: Seq<char>) -> bool {
    l.len() > 0 && l[0] == '|'
}

/// The end of the run of bar lines starting at `i`.
pub open spec fn pipe_run_end(ls: Seq<Seq<char>>, i: int) -> int
    decreases ls.len() - i,
{
    if 0 <= i < ls.len() && starts_pipe(ls[i]) {
        pipe_run_end(ls, i + 1)
    } else {
        i
    }
}

/// The table rows that are not separator rows, in order.
pub open spec fn keep_rows(ls: Seq<Seq<char>>, i: int, acc: Seq<Seq<char>>) -> Seq<Seq<char>>
    decreases ls.len() - i,
{
    if i < 0 || i >= ls.len() {
        acc
    } else if is_sep_row(ls[i]) {
        keep_rows(ls, i + 1, acc)
    } else {
        keep_rows(ls, i + 1, acc.push(ls[i]))
    }
}

/// Replaces every run of two or more bar lines by a placeholder for a code
/// block that holds its rows without the separator rows.
pub open spec fn tables<R: BBCodeRenderer>(
    r: &R,
    ls: Seq<Seq<char>>,
    i: int,
    out: Seq<Seq<char>>,
    prot: Seq<(Seq<char>, Seq<char>)>,
) -> (Seq<Seq<char>>, Seq<(Seq<char>, Seq<char>)>)
    decreases ls.len() - i,
{
    if i < 0 || i >= ls.len() {
        (out, prot)
    } else if starts_pipe(ls[i]) {
        let e = pipe_run_end(ls, i);
        if i < e <= ls.len() {
            if e - i >= 2 {
                let rows = ls.subrange(i, e);
                let content = join(keep_rows(rows, 0, Seq::empty()), seq!['\n']);
                let ph = placeholder("TABLE_"@, prot.len());
                tables(r, ls, e, out.push(ph), prot.push((ph, r.spec_code_block(content))))
            } else {
                tables(r, ls, e, out + ls.subrange(i, e), prot)
            }
        } else {
            tables(r, ls, i + 1, out.push(ls[i]), prot)
        }
    } else {
        tables(r, ls, i + 1, out.push(ls[i]), prot)
    }
}

/// The table step on a whole text.
pub open spec fn table_step<R: BBCodeRenderer>(
    r: &R,
    s: Seq<char>,
    prot: Seq<(Seq<char>, Seq<char>)>,
) -> (Seq<char>, Seq<(Seq<char>, Seq<char>)>) {
    let (ls, p) = tables(r, lines(s), 0, Seq::empty(), prot);
    (join(ls, seq!['\n']), p)
}

spec fn views(v: Seq<Vec<char>>) -> Seq<Seq<char>> {
    v.map_values(|l: Vec<char>| l@)
}

/// Converts Markdown tables into protected code blocks.
pub fn table_exec<R: BBCodeRenderer>(r: &R, s: &Vec<char>, prot: &mut Vec<Protected>) -> (out:
    Vec<char>)
    ensures
        (out@, protected_view(final(prot)@)) == table_step(r, s@, protected_view(old(prot)@)),
{
    let ls = split_lines(s);
    let ghost lv = views(ls@);
    let mut out: Vec<Vec<char>> = Vec::new();
    let mut i: usize = 0;
    assert(views(out@) =~= Seq::<Seq<char>>::empty());
    while i < ls.len()
        invariant
            i <= ls.len(),
            lv == views(ls@),
            lv == lines(s@),
            tables(r, lv, 0, Seq::empty(), protected_view(old(prot)@)) == tables(
                r,
                lv,
                i as int,
                views(out@),
                protected_view(prot@),
            ),
        decreases ls.len() - i,
    {
        assert(lv[i as int] == ls@[i as int]@);
        if ls[i].len() > 0 && ls[i][0] == '|' {
            assert(starts_pipe(lv[i as int]));
            let mut e = i + 1;
            while e < ls.len() && ls[e].len() > 0 && ls[e][0] == '|'
                invariant
                    i < e <= ls.len(),
                    lv == views(ls@),
                    pipe_run_end(lv, i as int) == pipe_run_end(lv, e as int),
                decreases ls.len() - e,
            {
                e += 1;
            }
            assert(pipe_run_end(lv, i as int) == e) by {
                assert(pipe_run_end(lv, e as int) == e);
            }
            if e - i >= 2 {
                let mut kept: Vec<Vec<char>> = Vec::new();
                let ghost rows = lv.subrange(i as int, e as int);
                let mut k = i;
                assert(views(kept@) =~= Seq::<Seq<char>>::empty());
                while k < e
                    invariant
                        i <= k <= e <= ls.len(),
                        lv == views(ls@),
                        rows == lv.subrange(i as int, e as int),
                        keep_rows(rows, 0, Seq::empty()) == keep_rows(rows, k - i, views(kept@)),
                    decreases e - k,
                {
                    let ghost old_kept = kept@;
                    assert(lv[k as int] == ls@[k as int]@);
                    assert(rows[k - i] == lv[k as int]);
                    if !is_sep_row_exec(&ls[k]) {
                        let row = slice_chars(&ls[k], 0, ls[k].len());
                        assert(row@ =~= ls@[k as int]@);
                        kept.push(row);
                        assert(views(kept@) =~= views(old_kept).push(lv[k as int]));
                    }
                    k += 1;
                }
                assert(keep_rows(rows, (e - i) as int, views(kept@)) == views(kept@));
                let nl = vec!['\n'];
                assert(nl@ =~= seq!['\n']);
                let content = join_chars(&kept, &nl);
                assert(kept@.map_values(|p: Vec<char>| p@) == views(kept@));
                let ph = make_placeholder("TABLE_", prot.len());
                let cs = string_of(&content);
                let rendered = r.code_block(cs.as_str());
                let rv = chars_of(rendered.as_str());
                let ghost old_prot = prot@;
                let ghost old_out = out@;
                let ph2 = slice_chars(&ph, 0, ph.len());
                prot.push((ph, rv));
                out.push(ph2);
                proof {
                    assert(ph2@ =~= ph@);
                    assert(protected_view(prot@) =~= protected_view(old_prot).push((ph@, rv@)));
                    assert(views(out@) =~= views(old_out).push(ph@));
                }
            } else {
                let ghost old_out = out@;
                assert(e == i + 1);
                assert(lv[i as int] == ls@[i as int]@);
                let row = slice_chars(&ls[i], 0, ls[i].len());
                assert(row@ =~= ls@[i as int]@);
                out.push(row);
                assert(views(out@) =~= views(old_out) + lv.subrange(i as int, e as int));
            }
            i = e;
        } else {
            let ghost old_out = out@;
            assert(lv[i as int] == ls@[i as int]@);
            let row = slice_chars(&ls[i], 0, ls[i].len());
            assert(row@ =~= ls@[i as int]@);
            out.push(row);
            assert(views(out@) =~= views(old_out).push(lv[i as int]));
            i += 1;
        }
    }
    let nl = vec!['\n'];
    assert(nl@ =~= seq!['\n']);
    let res = join_chars(&out, &nl);
    assert(out@.map_values(|p: Vec<char>| p@) == views(out@));
    res
}

} // verus!
