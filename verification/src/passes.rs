//! The individual rewriting passes of the Markdown and BBCode pipeline.

use vstd::prelude::*;
use crate::render::BBCodeRenderer;
use crate::scan::{boundary, boundary_exec, close_at, close_at_exec, lemma_close_at, Pass};
use crate::text::{
    append_chars, chars_of, find_from, find_lit, has_at, is_white_space, is_ws,
    lemma_find_from, lit_at, slice_chars, string_of,
};

verus! {

/// The end of the run of White_Space characters starting at `i`.
pub open spec fn skip_ws(s: Seq<char>, i: int) -> int
    decreases s.len() - i,
{
    if 0 <= i < s.len() && is_white_space(s[i]) {
        skip_ws(s, i + 1)
    } else {
        i
    }
}

fn skip_ws_exec(s: &Vec<char>, i: usize) -> (r: usize)
    requires
        i <= s.len(),
    ensures
        r == skip_ws(s@, i as int),
        i <= r <= s.len(),
{
    let mut k = i;
    while k < s.len() && is_ws(s[k])
        invariant
            i <= k <= s.len(),
            skip_ws(s@, i as int) == skip_ws(s@, k as int),
        decreases s.len() - k,
    {
        k += 1;
    }
    k
}

/// The first line feed at or after `i`, or the end of the text.
pub open spec fn line_end(s: Seq<char>, i: int) -> int
    decreases s.len() - i,
{
    if 0 <= i < s.len() && s[i] != '\n' {
        line_end(s, i + 1)
    } else {
        i
    }
}

fn line_end_exec(s: &Vec<char>, i: usize) -> (r: usize)
    requires
        i <= s.len(),
    ensures
        r == line_end(s@, i as int),
        i <= r <= s.len(),
{
    let mut k = i;
    while k < s.len() && s[k] != '\n'
        invariant
            i <= k <= s.len(),
            line_end(s@, i as int) == line_end(s@, k as int),
        decreases s.len() - k,
    {
        k += 1;
    }
    k
}

/// Position `p` begins a line.
pub open spec fn line_start(s: Seq<char>, p: int) -> bool {
    p == 0 || (0 < p <= s.len() && s[p - 1] == '\n')
}

fn find_char(s: &Vec<char>, i: usize, c: char) -> (r: Option<usize>)
    ensures
        match r {
            Some(j) => find_from(s@, i as int, seq![c]) == Some(j as int) && i <= j < s.len(),
            None => find_from(s@, i as int, seq![c]) is None,
        },
{
    let v = vec![c];
    assert(v@ =~= seq![c]);
    let r = find_lit(s, i, &v);
    proof {
        lemma_find_from(s@, i as int, seq![c]);
    }
    r
}

// ---------------------------------------------------------------------------
// Markdown images: ![alt](url) or ![alt](url "title")  ->  [img]url[/img]

/// After a blank inside the parentheses: `\s+"[^"]*"\)`, giving the match end.
pub open spec fn title_end(s: Seq<char>, k: int) -> Option<int> {
    let m = skip_ws(s, k);
    if 0 <= m < s.len() && s[m] == '"' {
        match find_from(s, m + 1, seq!['"']) {
            Some(n) => if n + 1 < s.len() && s[n + 1] == ')' {
                Some(n + 2)
            } else {
                None
            },
            None => None,
        }
    } else {
        None
    }
}

/// The lazy `\S+?` of the image address, extended one character at a time:
/// the address end and the match end.
pub open spec fn image_tail(s: Seq<char>, k: int) -> Option<(int, int)>
    decreases s.len() - k,
{
    if k < 0 || k >= s.len() {
        None
    } else if s[k] == ')' {
        Some((k, k + 1))
    } else if is_white_space(s[k]) {
        match title_end(s, k) {
            Some(e) => Some((k, e)),
            None => None,
        }
    } else {
        image_tail(s, k + 1)
    }
}

/// The Markdown image pass.
pub struct MdImage;

impl Pass for MdImage {
    open spec fn spec_step(&self, s: Seq<char>, p: int) -> Option<(int, Seq<char>)> {
        if 0 <= p && p + 1 < s.len() && s[p] == '!' && s[p + 1] == '[' {
            match find_from(s, p + 2, seq![']']) {
                Some(j) => if j + 2 < s.len() && s[j + 1] == '(' && !is_white_space(s[j + 2]) {
                    match image_tail(s, j + 3) {
                        Some((k, e)) => Some((e, "[img]"@ + s.subrange(j + 2, k) + "[/img]"@)),
                        None => None,
                    }
                } else {
                    None
                },
                None => None,
            }
        } else {
            None
        }
    }

    fn step(&self, s: &Vec<char>, p: usize) -> (r: Option<(usize, Vec<char>)>) {
        if !(p + 1 < s.len() && s[p] == '!' && s[p + 1] == '[') {
            return None;
        }
        let j = match find_char(s, p + 2, ']') {
            Some(j) => j,
            None => return None,
        };
        if !(s.len() - j > 2 && s[j + 1] == '(' && !is_ws(s[j + 2])) {
            return None;
        }
        let mut k = j + 3;
        while k < s.len() && s[k] != ')' && !is_ws(s[k])
            invariant
                j + 3 <= k <= s.len(),
                image_tail(s@, j + 3) == image_tail(s@, k as int),
            decreases s.len() - k,
        {
            k += 1;
        }
        if k >= s.len() {
            return None;
        }
        let e = if s[k] == ')' {
            k + 1
        } else {
            let m = skip_ws_exec(s, k);
            if !(m < s.len() && s[m] == '"') {
                return None;
            }
            let n = match find_char(s, m + 1, '"') {
                Some(n) => n,
                None => return None,
            };
            if !(n + 1 < s.len() && s[n + 1] == ')') {
                return None;
            }
            n + 2
        };
        let mut rep = chars_of("[img]");
        let url = slice_chars(s, j + 2, k);
        append_chars(&mut rep, &url);
        let tail = chars_of("[/img]");
        append_chars(&mut rep, &tail);
        Some((e, rep))
    }
}

// ---------------------------------------------------------------------------
// Markdown links: [text](http://...)  ->  [url=http://...]text[/url]

/// The Markdown link pass.
pub struct MdLink;

impl Pass for MdLink {
    open spec fn spec_step(&self, s: Seq<char>, p: int) -> Option<(int, Seq<char>)> {
        if 0 <= p < s.len() && s[p] == '[' {
            match find_from(s, p + 1, seq![']']) {
                Some(j) => if j > p + 1 && has_at(s, j + 1, "(http"@) {
                    let a = j + 6;
                    let b = if a < s.len() && s[a] == 's' {
                        a + 1
                    } else {
                        a
                    };
                    if has_at(s, b, "://"@) {
                        match find_from(s, b + 3, seq![')']) {
                            Some(e) => if e > b + 3 {
                                Some(
                                    (
                                        e + 1,
                                        "[url="@ + s.subrange(j + 2, e) + "]"@ + s.subrange(p + 1, j)
                                            + "[/url]"@,
                                    ),
                                )
                            } else {
                                None
                            },
                            None => None,
                        }
                    } else {
                        None
                    }
                } else {
                    None
                },
                None => None,
            }
        } else {
            None
        }
    }

    fn step(&self, s: &Vec<char>, p: usize) -> (r: Option<(usize, Vec<char>)>) {
        if s[p] != '[' {
            return None;
        }
        let j = match find_char(s, p + 1, ']') {
            Some(j) => j,
            None => return None,
        };
        let http = chars_of("(http");
        if !(j > p + 1 && lit_at(s, j + 1, &http)) {
            return None;
        }
        proof {
            reveal_strlit("(http");
        }
        let a = j + 6;
        let b = if a < s.len() && s[a] == 's' {
            a + 1
        } else {
            a
        };
        let sep = chars_of("://");
        if !lit_at(s, b, &sep) {
            return None;
        }
        proof {
            reveal_strlit("://");
        }
        let e = match find_char(s, b + 3, ')') {
            Some(e) => e,
            None => return None,
        };
        if e <= b + 3 {
            return None;
        }
        let mut rep = chars_of("[url=");
        let url = slice_chars(s, j + 2, e);
        append_chars(&mut rep, &url);
        rep.push(']');
        let text = slice_chars(s, p + 1, j);
        append_chars(&mut rep, &text);
        let tail = chars_of("[/url]");
        append_chars(&mut rep, &tail);
        proof {
            reveal_strlit("]");
            assert(rep@ =~= "[url="@ + s@.subrange(j + 2, e as int) + "]"@ + s@.subrange(
                p + 1,
                j as int,
            ) + "[/url]"@);
        }
        Some((e + 1, rep))
    }
}

// ---------------------------------------------------------------------------
// Line-start items: checked and unchecked boxes, bullets.

/// The text after the marker that a line-start item of a kind requires
/// (`[x] `, `[ ] ` or `[] `, nothing), giving where the item text starts.
pub open spec fn item_body(kind: u8, s: Seq<char>, w: int) -> Option<int> {
    if kind == 0 {
        if has_at(s, w + 2, seq!['[', 'x', ']', ' ']) {
            Some(w + 6)
        } else {
            None
        }
    } else if kind == 1 {
        if has_at(s, w + 2, seq!['[', ' ', ']', ' ']) {
            Some(w + 6)
        } else if has_at(s, w + 2, seq!['[', ']', ' ']) {
            Some(w + 5)
        } else {
            None
        }
    } else {
        Some(w + 2)
    }
}

/// The symbol a line-start item of a kind becomes.
pub open spec fn item_symbol(kind: u8) -> char {
    if kind == 0 {
        '\u{2611}'
    } else if kind == 1 {
        '\u{2610}'
    } else {
        '\u{2022}'
    }
}

/// `(?m)^(\s*)[-*] <box>(.+)` rewritten to the indentation, a symbol, a space
/// and the item text.  Kind 0: checked box, 1: unchecked box, 2: bullet.
pub struct LineItem {
    pub kind: u8,
}

impl Pass for LineItem {
    open spec fn spec_step(&self, s: Seq<char>, p: int) -> Option<(int, Seq<char>)> {
        if 0 <= p < s.len() && line_start(s, p) {
            let w = skip_ws(s, p);
            if w + 1 < s.len() && (s[w] == '-' || s[w] == '*') && s[w + 1] == ' ' {
                match item_body(self.kind, s, w) {
                    Some(b) => {
                        let e = line_end(s, b);
                        if b < e {
                            Some(
                                (
                                    e,
                                    s.subrange(p, w) + seq![item_symbol(self.kind), ' ']
                                        + s.subrange(b, e),
                                ),
                            )
                        } else {
                            None
                        }
                    },
                    None => None,
                }
            } else {
                None
            }
        } else {
            None
        }
    }

    fn step(&self, s: &Vec<char>, p: usize) -> (r: Option<(usize, Vec<char>)>) {
        if !(p == 0 || s[p - 1] == '\n') {
            return None;
        }
        let w = skip_ws_exec(s, p);
        if !(w < s.len() && s.len() - w > 1 && (s[w] == '-' || s[w] == '*') && s[w + 1] == ' ') {
            return None;
        }
        let b = if self.kind == 0 {
            let bx = vec!['[', 'x', ']', ' '];
            assert(bx@ =~= seq!['[', 'x', ']', ' ']);
            if lit_at(s, w + 2, &bx) {
                w + 6
            } else {
                return None;
            }
        } else if self.kind == 1 {
            let b1 = vec!['[', ' ', ']', ' '];
            let b2 = vec!['[', ']', ' '];
            assert(b1@ =~= seq!['[', ' ', ']', ' ']);
            assert(b2@ =~= seq!['[', ']', ' ']);
            if lit_at(s, w + 2, &b1) {
                w + 6
            } else if lit_at(s, w + 2, &b2) {
                w + 5
            } else {
                return None;
            }
        } else {
            w + 2
        };
        let e = line_end_exec(s, b);
        if b >= e {
            return None;
        }
        let mut rep = slice_chars(s, p, w);
        let sym = if self.kind == 0 {
            '\u{2611}'
        } else if self.kind == 1 {
            '\u{2610}'
        } else {
            '\u{2022}'
        };
        rep.push(sym);
        rep.push(' ');
        let body = slice_chars(s, b, e);
        append_chars(&mut rep, &body);
        Some((e, rep))
    }
}

// ---------------------------------------------------------------------------
// Paired delimiters: ***x***, ___x___, **x**, __x__, ~~x~~.

/// The delimiter of a kind.
pub open spec fn delim_mark(kind: u8) -> Seq<char> {
    if kind == 0 {
        seq!['*', '*', '*']
    } else if kind == 1 {
        seq!['_', '_', '_']
    } else if kind == 2 {
        seq!['*', '*']
    } else if kind == 3 {
        seq!['_', '_']
    } else {
        seq!['~', '~']
    }
}

/// The underscore kinds also need a word boundary on each side.
pub open spec fn delim_bounded(kind: u8) -> bool {
    kind == 1 || kind == 3
}

/// BBCode opening tags written for a kind.
pub open spec fn delim_pre(kind: u8) -> Seq<char> {
    if kind <= 1 {
        seq!['[', 'b', ']', '[', 'i', ']']
    } else if kind <= 3 {
        seq!['[', 'b', ']']
    } else {
        seq!['[', 's', ']']
    }
}

/// BBCode closing tags written for a kind.
pub open spec fn delim_post(kind: u8) -> Seq<char> {
    if kind <= 1 {
        seq!['[', '/', 'i', ']', '[', '/', 'b', ']']
    } else if kind <= 3 {
        seq!['[', '/', 'b', ']']
    } else {
        seq!['[', '/', 's', ']']
    }
}

fn delim_mark_exec(kind: u8) -> (r: Vec<char>)
    ensures
        r@ == delim_mark(kind),
{
    let r = if kind == 0 {
        vec!['*', '*', '*']
    } else if kind == 1 {
        vec!['_', '_', '_']
    } else if kind == 2 {
        vec!['*', '*']
    } else if kind == 3 {
        vec!['_', '_']
    } else {
        vec!['~', '~']
    };
    assert(r@ =~= delim_mark(kind));
    r
}

fn delim_pre_exec(kind: u8) -> (r: Vec<char>)
    ensures
        r@ == delim_pre(kind),
{
    let r = if kind <= 1 {
        vec!['[', 'b', ']', '[', 'i', ']']
    } else if kind <= 3 {
        vec!['[', 'b', ']']
    } else {
        vec!['[', 's', ']']
    };
    assert(r@ =~= delim_pre(kind));
    r
}

fn delim_post_exec(kind: u8) -> (r: Vec<char>)
    ensures
        r@ == delim_post(kind),
{
    let r = if kind <= 1 {
        vec!['[', '/', 'i', ']', '[', '/', 'b', ']']
    } else if kind <= 3 {
        vec!['[', '/', 'b', ']']
    } else {
        vec!['[', '/', 's', ']']
    };
    assert(r@ =~= delim_post(kind));
    r
}

/// `MARK(.+?)MARK` (with `\b` around for underscores) rewritten to BBCode.
pub struct Delim {
    pub kind: u8,
}

impl Pass for Delim {
    open spec fn spec_step(&self, s: Seq<char>, p: int) -> Option<(int, Seq<char>)> {
        let m = delim_mark(self.kind);
        let bnd = delim_bounded(self.kind);
        if has_at(s, p, m) && (!bnd || boundary(s, p)) {
            let a = p + m.len();
            if a < s.len() && s[a] != '\n' {
                match close_at(s, a + 1, m, bnd) {
                    Some(k) => Some(
                        (
                            k + m.len(),
                            delim_pre(self.kind) + s.subrange(a, k) + delim_post(self.kind),
                        ),
                    ),
                    None => None,
                }
            } else {
                None
            }
        } else {
            None
        }
    }

    fn step(&self, s: &Vec<char>, p: usize) -> (r: Option<(usize, Vec<char>)>) {
        let m = delim_mark_exec(self.kind);
        let bnd = self.kind == 1 || self.kind == 3;
        if !(lit_at(s, p, &m) && (!bnd || boundary_exec(s, p))) {
            return None;
        }
        let a = p + m.len();
        if !(a < s.len() && s[a] != '\n') {
            return None;
        }
        match close_at_exec(s, a + 1, &m, bnd) {
            Some(k) => {
                proof {
                    lemma_close_at(s@, a + 1, m@, bnd);
                }
                let mut rep = delim_pre_exec(self.kind);
                let mid = slice_chars(s, a, k);
                append_chars(&mut rep, &mid);
                let post = delim_post_exec(self.kind);
                append_chars(&mut rep, &post);
                Some((k + m.len(), rep))
            },
            None => None,
        }
    }
}

// ---------------------------------------------------------------------------
// Single emphasis: *x* and _x_ (no blank just inside the markers).

/// The lazy search for the closing marker of `\S(?:.*?\S)?`: the first `g`
/// with the marker at `g`, a non-blank before it, no line feed before it and,
/// for underscores, a `\b` after it.
pub open spec fn emph_close(s: Seq<char>, g: int, mark: char, bnd: bool) -> Option<int>
    decreases s.len() - g,
{
    if g < 1 || g >= s.len() {
        None
    } else if s[g - 1] == '\n' {
        None
    } else if s[g] == mark && !is_white_space(s[g - 1]) && (!bnd || boundary(s, g + 1)) {
        Some(g)
    } else {
        emph_close(s, g + 1, mark, bnd)
    }
}

/// `\*(\S(?:.*?\S)?)\*` (star) or `\b_(\S(?:.*?\S)?)_\b` (underscore) rewritten
/// to `[i]...[/i]`.
pub struct Emph {
    pub underscore: bool,
}

pub open spec fn emph_mark(underscore: bool) -> char {
    if underscore {
        '_'
    } else {
        '*'
    }
}

impl Pass for Emph {
    open spec fn spec_step(&self, s: Seq<char>, p: int) -> Option<(int, Seq<char>)> {
        let mk = emph_mark(self.underscore);
        let bnd = self.underscore;
        if 0 <= p < s.len() && s[p] == mk && (!bnd || boundary(s, p)) {
            let a = p + 1;
            if a < s.len() && !is_white_space(s[a]) {
                match emph_close(s, a + 2, mk, bnd) {
                    Some(g) => Some((g + 1, seq!['[', 'i', ']'] + s.subrange(a, g) + seq!['[', '/', 'i', ']'])),
                    None => if a + 1 < s.len() && s[a + 1] == mk && (!bnd || boundary(s, a + 2)) {
                        Some((a + 2, seq!['[', 'i', ']', s[a], '[', '/', 'i', ']']))
                    } else {
                        None
                    },
                }
            } else {
                None
            }
        } else {
            None
        }
    }

    fn step(&self, s: &Vec<char>, p: usize) -> (r: Option<(usize, Vec<char>)>) {
        let mk = if self.underscore {
            '_'
        } else {
            '*'
        };
        let bnd = self.underscore;
        if !(s[p] == mk && (!bnd || boundary_exec(s, p))) {
            return None;
        }
        let a = p + 1;
        if !(a < s.len() && !is_ws(s[a])) {
            return None;
        }
        let mut g = if s.len() - a > 1 {
            a + 2
        } else {
            s.len() + 0
        };
        assert(mk == emph_mark(self.underscore));
        while g < s.len() && s[g - 1] != '\n'
            invariant
                a + 2 <= g || g == s.len(),
                a < s.len(),
                a == p + 1,
                p < s.len(),
                s@[p as int] == mk,
                !bnd || boundary(s@, p as int),
                !is_white_space(s@[a as int]),
                bnd == self.underscore,
                mk == emph_mark(self.underscore),
                a + 2 <= s.len() ==> emph_close(s@, a + 2, mk, bnd) == emph_close(s@, g as int, mk, bnd),
                a + 2 > s.len() ==> g == s.len(),
            decreases s.len() - g,
        {
            if s[g] == mk && !is_ws(s[g - 1]) && (!bnd || boundary_exec(s, g + 1)) {
                assert(emph_close(s@, g as int, mk, bnd) == Some(g as int));
                let mut rep = vec!['[', 'i', ']'];
                let mid = slice_chars(s, a, g);
                append_chars(&mut rep, &mid);
                let tail = vec!['[', '/', 'i', ']'];
                append_chars(&mut rep, &tail);
                proof {
                    assert(rep@ =~= seq!['[', 'i', ']'] + s@.subrange(a as int, g as int) + seq![
                        '[',
                        '/',
                        'i',
                        ']',
                    ]);
                }
                assert(emph_close(s@, a + 2, mk, bnd) == Some(g as int));
                assert(0 <= p < s.len() && s@[p as int] == mk && (!bnd || boundary(s@, p as int)));
                assert(self.spec_step(s@, p as int) == Some(((g + 1) as int, rep@)));
                return Some((g + 1, rep));
            }
            g += 1;
        }
        assert(emph_close(s@, a + 2, mk, bnd) is None);
        if a + 1 < s.len() && s[a + 1] == mk && (!bnd || boundary_exec(s, a + 2)) {
            let rep = vec!['[', 'i', ']', s[a], '[', '/', 'i', ']'];
            assert(rep@ =~= seq!['[', 'i', ']', s@[a as int], '[', '/', 'i', ']']);
            Some((a + 2, rep))
        } else {
            None
        }
    }
}

// ---------------------------------------------------------------------------
// Emoji shortcodes  :name:

/// The emoji that the `emojis` crate's shortcode table gives for a name.
pub uninterp spec fn emoji_for_shortcode(name: Seq<char>) -> Option<Seq<char>>;

/// `emojis::get_by_shortcode(name)` followed by `Emoji::as_str`: the emoji
/// with that GitHub shortcode, if the crate's table has one.
#[verifier::external_body]
fn lookup_shortcode(name: &str) -> (r: Option<String>)
    ensures
        match r {
            Some(e) => emoji_for_shortcode(name@) == Some(e@),
            None => emoji_for_shortcode(name@) is None,
        },
{
    emojis::get_by_shortcode(name).map(|e| e.as_str().to_string())
}

/// Characters allowed in a shortcode name: `[a-z0-9_+-]`.
pub open spec fn shortcode_char(c: char) -> bool {
    ('a' <= c && c <= 'z') || ('0' <= c && c <= '9') || c == '_' || c == '+' || c == '-'
}

/// The end of the run of shortcode characters starting at `i`.
pub open spec fn shortcode_run_end(s: Seq<char>, i: int) -> int
    decreases s.len() - i,
{
    if 0 <= i < s.len() && shortcode_char(s[i]) {
        shortcode_run_end(s, i + 1)
    } else {
        i
    }
}

/// The text that replaces a matched `:name:`: the emoji found for the name,
/// or the matched text itself.
pub open spec fn shortcode_text(name: Seq<char>, found: Option<Seq<char>>) -> Seq<char> {
    match found {
        Some(e) => e,
        None => seq![':'] + name + seq![':'],
    }
}

/// The contents of an optional string.
pub open spec fn opt_view(o: Option<String>) -> Option<Seq<char>> {
    match o {
        Some(e) => Some(e@),
        None => None,
    }
}

/// The replacement of a matched shortcode, given what the emoji table answered
/// for its name.
pub fn shortcode_replacement(name: &Vec<char>, found: Option<String>) -> (r: Vec<char>)
    ensures
        r@ == shortcode_text(name@, opt_view(found)),
{
    match found {
        Some(e) => chars_of(e.as_str()),
        None => {
            let mut r = vec![':'];
            append_chars(&mut r, name);
            r.push(':');
            assert(r@ =~= seq![':'] + name@ + seq![':']);
            r
        },
    }
}

/// `:([a-z0-9_+-]+):` replaced by the emoji of the name when there is one.
pub struct Shortcode;

impl Pass for Shortcode {
    open spec fn spec_step(&self, s: Seq<char>, p: int) -> Option<(int, Seq<char>)> {
        if 0 <= p < s.len() && s[p] == ':' {
            let j = shortcode_run_end(s, p + 1);
            if j > p + 1 && j < s.len() && s[j] == ':' {
                let name = s.subrange(p + 1, j);
                Some((j + 1, shortcode_text(name, emoji_for_shortcode(name))))
            } else {
                None
            }
        } else {
            None
        }
    }

    fn step(&self, s: &Vec<char>, p: usize) -> (r: Option<(usize, Vec<char>)>) {
        if s[p] != ':' {
            return None;
        }
        let mut j = p + 1;
        while j < s.len() && (('a' <= s[j] && s[j] <= 'z') || ('0' <= s[j] && s[j] <= '9') || s[j]
            == '_' || s[j] == '+' || s[j] == '-')
            invariant
                p + 1 <= j <= s.len(),
                shortcode_run_end(s@, p + 1) == shortcode_run_end(s@, j as int),
            decreases s.len() - j,
        {
            j += 1;
        }
        if !(j > p + 1 && j < s.len() && s[j] == ':') {
            return None;
        }
        let name = slice_chars(s, p + 1, j);
        let name_str = string_of(&name);
        let found = lookup_shortcode(name_str.as_str());
        let rep = shortcode_replacement(&name, found);
        Some((j + 1, rep))
    }
}

// ---------------------------------------------------------------------------
// ASCII emoticons  :)  :(  <3 ...

/// The emoticon and the emoji of entry `i` of the table.
pub open spec fn smiley_entry(i: int) -> (Seq<char>, Seq<char>) {
    if i == 0 {
        (seq![':', '\'', '('], seq!['\u{1F622}'])
    } else if i == 1 {
        (seq!['O', ':', ')'], seq!['\u{1F607}'])
    } else if i == 2 {
        (seq!['>', ':', '('], seq!['\u{1F620}'])
    } else if i == 3 {
        (seq![':', ')'], seq!['\u{1F642}'])
    } else if i == 4 {
        (seq![':', '('], seq!['\u{1F641}'])
    } else if i == 5 {
        (seq![':', 'D'], seq!['\u{1F603}'])
    } else if i == 6 {
        (seq![';', ')'], seq!['\u{1F609}'])
    } else if i == 7 {
        (seq![':', 'P'], seq!['\u{1F61B}'])
    } else if i == 8 {
        (seq![':', 'p'], seq!['\u{1F61B}'])
    } else if i == 9 {
        (seq![':', 'O'], seq!['\u{1F62E}'])
    } else if i == 10 {
        (seq![':', 'o'], seq!['\u{1F62E}'])
    } else if i == 11 {
        (seq![':', '/'], seq!['\u{1F615}'])
    } else if i == 12 {
        (seq![':', '|'], seq!['\u{1F610}'])
    } else if i == 13 {
        (seq![':', '*'], seq!['\u{1F618}'])
    } else if i == 14 {
        (seq!['B', ')'], seq!['\u{1F60E}'])
    } else if i == 15 {
        (seq!['X', 'D'], seq!['\u{1F606}'])
    } else if i == 16 {
        (seq!['x', 'D'], seq!['\u{1F606}'])
    } else {
        (seq!['<', '3'], seq!['\u{2764}', '\u{FE0F}'])
    }
}

fn smiley_entry_exec(i: usize) -> (r: (Vec<char>, Vec<char>))
    ensures
        (r.0@, r.1@) == smiley_entry(i as int),
{
    let r = if i == 0 {
        (vec![':', '\'', '('], vec!['\u{1F622}'])
    } else if i == 1 {
        (vec!['O', ':', ')'], vec!['\u{1F607}'])
    } else if i == 2 {
        (vec!['>', ':', '('], vec!['\u{1F620}'])
    } else if i == 3 {
        (vec![':', ')'], vec!['\u{1F642}'])
    } else if i == 4 {
        (vec![':', '('], vec!['\u{1F641}'])
    } else if i == 5 {
        (vec![':', 'D'], vec!['\u{1F603}'])
    } else if i == 6 {
        (vec![';', ')'], vec!['\u{1F609}'])
    } else if i == 7 {
        (vec![':', 'P'], vec!['\u{1F61B}'])
    } else if i == 8 {
        (vec![':', 'p'], vec!['\u{1F61B}'])
    } else if i == 9 {
        (vec![':', 'O'], vec!['\u{1F62E}'])
    } else if i == 10 {
        (vec![':', 'o'], vec!['\u{1F62E}'])
    } else if i == 11 {
        (vec![':', '/'], vec!['\u{1F615}'])
    } else if i == 12 {
        (vec![':', '|'], vec!['\u{1F610}'])
    } else if i == 13 {
        (vec![':', '*'], vec!['\u{1F618}'])
    } else if i == 14 {
        (vec!['B', ')'], vec!['\u{1F60E}'])
    } else if i == 15 {
        (vec!['X', 'D'], vec!['\u{1F606}'])
    } else if i == 16 {
        (vec!['x', 'D'], vec!['\u{1F606}'])
    } else {
        (vec!['<', '3'], vec!['\u{2764}', '\u{FE0F}'])
    };
    assert((r.0@, r.1@) =~~= smiley_entry(i as int));
    r
}

/// What may follow an emoticon: `[\s,.!?]` (consumed) or the end of the text.
pub open spec fn smiley_suffix(s: Seq<char>, q: int) -> Option<int> {
    if 0 <= q < s.len() && (is_white_space(s[q]) || s[q] == ',' || s[q] == '.' || s[q] == '!'
        || s[q] == '?') {
        Some(q + 1)
    } else if q == s.len() {
        Some(q)
    } else {
        None
    }
}

fn smiley_suffix_exec(s: &Vec<char>, q: usize) -> (r: Option<usize>)
    ensures
        match r {
            Some(e) => smiley_suffix(s@, q as int) == Some(e as int) && e <= s.len(),
            None => smiley_suffix(s@, q as int) is None,
        },
{
    if q < s.len() && (is_ws(s[q]) || s[q] == ',' || s[q] == '.' || s[q] == '!' || s[q] == '?') {
        Some(q + 1)
    } else if q == s.len() {
        Some(q)
    } else {
        None
    }
}

/// `(?m)(^|[\s])EMOTICON([\s,.!?]|$)` replaced by `$1EMOJI$2`.
pub struct Smiley {
    pub idx: usize,
}

impl Pass for Smiley {
    open spec fn spec_step(&self, s: Seq<char>, p: int) -> Option<(int, Seq<char>)> {
        let (t, em) = smiley_entry(self.idx as int);
        if 0 <= p < s.len() && line_start(s, p) && has_at(s, p, t) && smiley_suffix(s, p + t.len())
            is Some {
            let e = smiley_suffix(s, p + t.len())->0;
            Some((e, em + s.subrange(p + t.len(), e)))
        } else if 0 <= p < s.len() && is_white_space(s[p]) && has_at(s, p + 1, t) && smiley_suffix(
            s,
            p + 1 + t.len(),
        ) is Some {
            let e = smiley_suffix(s, p + 1 + t.len())->0;
            Some((e, seq![s[p]] + em + s.subrange(p + 1 + t.len(), e)))
        } else {
            None
        }
    }

    fn step(&self, s: &Vec<char>, p: usize) -> (r: Option<(usize, Vec<char>)>) {
        let (t, em) = smiley_entry_exec(self.idx);
        if (p == 0 || s[p - 1] == '\n') && lit_at(s, p, &t) {
            if let Some(e) = smiley_suffix_exec(s, p + t.len()) {
                let mut rep = slice_chars(&em, 0, em.len());
                let g2 = slice_chars(s, p + t.len(), e);
                append_chars(&mut rep, &g2);
                assert(em@.subrange(0, em@.len() as int) =~= em@);
                return Some((e, rep));
            }
        }
        if is_ws(s[p]) && lit_at(s, p + 1, &t) {
            if let Some(e) = smiley_suffix_exec(s, p + 1 + t.len()) {
                let mut rep = vec![s[p]];
                append_chars(&mut rep, &em);
                let g2 = slice_chars(s, p + 1 + t.len(), e);
                append_chars(&mut rep, &g2);
                return Some((e, rep));
            }
        }
        None
    }
}

// ---------------------------------------------------------------------------
// BBCode tags  [t]...[/t]  and  [t=param]...[/t]

/// The name of a simple tag kind: b, i, u, s, url, img.
pub open spec fn simple_tag_name(kind: u8) -> Seq<char> {
    if kind == 0 {
        seq!['b']
    } else if kind == 1 {
        seq!['i']
    } else if kind == 2 {
        seq!['u']
    } else if kind == 3 {
        seq!['s']
    } else if kind == 4 {
        seq!['u', 'r', 'l']
    } else {
        seq!['i', 'm', 'g']
    }
}

/// The name of a parameter tag kind: color, size, url.
pub open spec fn param_tag_name(kind: u8) -> Seq<char> {
    if kind == 0 {
        seq!['c', 'o', 'l', 'o', 'r']
    } else if kind == 1 {
        seq!['s', 'i', 'z', 'e']
    } else {
        seq!['u', 'r', 'l']
    }
}

fn simple_tag_name_exec(kind: u8) -> (r: Vec<char>)
    ensures
        r@ == simple_tag_name(kind),
{
    let r = if kind == 0 {
        vec!['b']
    } else if kind == 1 {
        vec!['i']
    } else if kind == 2 {
        vec!['u']
    } else if kind == 3 {
        vec!['s']
    } else if kind == 4 {
        vec!['u', 'r', 'l']
    } else {
        vec!['i', 'm', 'g']
    };
    assert(r@ =~= simple_tag_name(kind));
    r
}

fn param_tag_name_exec(kind: u8) -> (r: Vec<char>)
    ensures
        r@ == param_tag_name(kind),
{
    let r = if kind == 0 {
        vec!['c', 'o', 'l', 'o', 'r']
    } else if kind == 1 {
        vec!['s', 'i', 'z', 'e']
    } else {
        vec!['u', 'r', 'l']
    };
    assert(r@ =~= param_tag_name(kind));
    r
}

/// `[name]`
pub open spec fn open_tag(name: Seq<char>) -> Seq<char> {
    seq!['['] + name + seq![']']
}

/// `[/name]`
pub open spec fn close_tag(name: Seq<char>) -> Seq<char> {
    seq!['[', '/'] + name + seq![']']
}

/// `[name=`
pub open spec fn open_param(name: Seq<char>) -> Seq<char> {
    seq!['['] + name + seq!['=']
}

fn wrap_name(pre: Vec<char>, name: &Vec<char>, post: char) -> (r: Vec<char>)
    ensures
        r@ == pre@ + name@ + seq![post],
{
    let mut r = pre;
    append_chars(&mut r, name);
    r.push(post);
    r
}

/// The rendering of a simple tag's content.
pub open spec fn render_simple<R: BBCodeRenderer>(r: &R, kind: u8, c: Seq<char>) -> Seq<char> {
    if kind == 0 {
        r.spec_bold(c)
    } else if kind == 1 {
        r.spec_italic(c)
    } else if kind == 2 {
        r.spec_underline(c)
    } else if kind == 3 {
        r.spec_strike(c)
    } else if kind == 4 {
        r.spec_url(c, c)
    } else {
        r.spec_image(c)
    }
}

/// The rendering of a parameter tag's content.
pub open spec fn render_param<R: BBCodeRenderer>(
    r: &R,
    kind: u8,
    param: Seq<char>,
    c: Seq<char>,
) -> Seq<char> {
    if kind == 0 {
        r.spec_color(param, c)
    } else if kind == 1 {
        r.spec_size(param, c)
    } else {
        r.spec_url(param, c)
    }
}

/// `\[name\](.*?)\[/name\]` rendered by the renderer.
pub struct SimpleTag<'a, R> {
    pub r: &'a R,
    pub kind: u8,
}

impl<'a, R: BBCodeRenderer> Pass for SimpleTag<'a, R> {
    open spec fn spec_step(&self, s: Seq<char>, p: int) -> Option<(int, Seq<char>)> {
        let name = simple_tag_name(self.kind);
        if has_at(s, p, open_tag(name)) {
            let a = p + name.len() + 2;
            match close_at(s, a, close_tag(name), false) {
                Some(k) => Some(
                    (k + name.len() + 3, render_simple(self.r, self.kind, s.subrange(a, k))),
                ),
                None => None,
            }
        } else {
            None
        }
    }

    fn step(&self, s: &Vec<char>, p: usize) -> (r: Option<(usize, Vec<char>)>) {
        let name = simple_tag_name_exec(self.kind);
        let open = wrap_name(vec!['['], &name, ']');
        let close = wrap_name(vec!['[', '/'], &name, ']');
        assert(open@ =~= open_tag(name@));
        assert(close@ =~= close_tag(name@));
        if !lit_at(s, p, &open) {
            return None;
        }
        let a = p + open.len();
        match close_at_exec(s, a, &close, false) {
            Some(k) => {
                proof {
                    lemma_close_at(s@, a as int, close@, false);
                }
                let content = string_of(&slice_chars(s, a, k));
                let c = content.as_str();
                let out = if self.kind == 0 {
                    self.r.bold(c)
                } else if self.kind == 1 {
                    self.r.italic(c)
                } else if self.kind == 2 {
                    self.r.underline(c)
                } else if self.kind == 3 {
                    self.r.strike(c)
                } else if self.kind == 4 {
                    self.r.url(c, c)
                } else {
                    self.r.image(c)
                };
                Some((k + close.len(), chars_of(out.as_str())))
            },
            None => None,
        }
    }
}

/// `\[name=([^\]]+)\](.*?)\[/name\]` rendered by the renderer.
pub struct ParamTag<'a, R> {
    pub r: &'a R,
    pub kind: u8,
}

impl<'a, R: BBCodeRenderer> Pass for ParamTag<'a, R> {
    open spec fn spec_step(&self, s: Seq<char>, p: int) -> Option<(int, Seq<char>)> {
        let name = param_tag_name(self.kind);
        if has_at(s, p, open_param(name)) {
            let a = p + name.len() + 2;
            match find_from(s, a, seq![']']) {
                Some(j) => if j > a {
                    match close_at(s, j + 1, close_tag(name), false) {
                        Some(k) => Some(
                            (
                                k + name.len() + 3,
                                render_param(
                                    self.r,
                                    self.kind,
                                    s.subrange(a, j),
                                    s.subrange(j + 1, k),
                                ),
                            ),
                        ),
                        None => None,
                    }
                } else {
                    None
                },
                None => None,
            }
        } else {
            None
        }
    }

    fn step(&self, s: &Vec<char>, p: usize) -> (r: Option<(usize, Vec<char>)>) {
        let name = param_tag_name_exec(self.kind);
        let open = wrap_name(vec!['['], &name, '=');
        let close = wrap_name(vec!['[', '/'], &name, ']');
        assert(open@ =~= open_param(name@));
        assert(close@ =~= close_tag(name@));
        if !lit_at(s, p, &open) {
            return None;
        }
        let a = p + open.len();
        let j = match find_char(s, a, ']') {
            Some(j) => j,
            None => return None,
        };
        if j <= a {
            return None;
        }
        match close_at_exec(s, j + 1, &close, false) {
            Some(k) => {
                proof {
                    lemma_close_at(s@, j + 1, close@, false);
                }
                let param = string_of(&slice_chars(s, a, j));
                let content = string_of(&slice_chars(s, j + 1, k));
                let pm = param.as_str();
                let c = content.as_str();
                let out = if self.kind == 0 {
                    self.r.color(pm, c)
                } else if self.kind == 1 {
                    self.r.size(pm, c)
                } else {
                    self.r.url(pm, c)
                };
                Some((k + close.len(), chars_of(out.as_str())))
            },
            None => None,
        }
    }
}

// ---------------------------------------------------------------------------
// Literal replacement, as `str::replace` does it.

/// Every occurrence of `from`, left to right and without overlap, replaced by `to`.
pub open spec fn replace_lit(
    s: Seq<char>,
    from: Seq<char>,
    to: Seq<char>,
    i: int,
    acc: Seq<char>,
) -> Seq<char>
    decreases s.len() - i,
{
    if i < 0 || i >= s.len() {
        acc
    } else if from.len() > 0 && has_at(s, i, from) {
        replace_lit(s, from, to, i + from.len(), acc + to)
    } else {
        replace_lit(s, from, to, i + 1, acc.push(s[i]))
    }
}

/// Replaces every occurrence of a non-empty `from` by `to`.
pub fn replace_lit_exec(s: &Vec<char>, from: &Vec<char>, to: &Vec<char>) -> (r: Vec<char>)
    ensures
        r@ == replace_lit(s@, from@, to@, 0, Seq::empty()),
{
    let mut out: Vec<char> = Vec::new();
    let mut i: usize = 0;
    while i < s.len()
        invariant
            i <= s.len(),
            replace_lit(s@, from@, to@, 0, Seq::empty()) == replace_lit(
                s@,
                from@,
                to@,
                i as int,
                out@,
            ),
        decreases s.len() - i,
    {
        if from.len() > 0 && lit_at(s, i, from) {
            append_chars(&mut out, to);
            i = i + from.len();
        } else {
            out.push(s[i]);
            i += 1;
        }
    }
    out
}


/// The emoticon table: whichever entry a pass uses, its emoticon becomes the emoji the
/// table assigns to it — :'( crying, O:) halo, >:( angry, :) slightly smiling, :( slightly
/// frowning, :D grinning with big eyes, ;) winking, :P and :p tongue out, :O and :o open
/// mouth, :/ confused, :| neutral, :* kissing, B) sunglasses, XD and xD squinting laugh,
/// <3 red heart.
pub proof fn emoticons_become_their_emoji(i: int)
    ensures
        smiley_entry(i).0 == seq![':', '\'', '('] ==> smiley_entry(i).1 == seq!['\u{1F622}'],
        smiley_entry(i).0 == seq!['O', ':', ')'] ==> smiley_entry(i).1 == seq!['\u{1F607}'],
        smiley_entry(i).0 == seq!['>', ':', '('] ==> smiley_entry(i).1 == seq!['\u{1F620}'],
        smiley_entry(i).0 == seq![':', ')'] ==> smiley_entry(i).1 == seq!['\u{1F642}'],
        smiley_entry(i).0 == seq![':', '('] ==> smiley_entry(i).1 == seq!['\u{1F641}'],
        smiley_entry(i).0 == seq![':', 'D'] ==> smiley_entry(i).1 == seq!['\u{1F603}'],
        smiley_entry(i).0 == seq![';', ')'] ==> smiley_entry(i).1 == seq!['\u{1F609}'],
        smiley_entry(i).0 == seq![':', 'P'] ==> smiley_entry(i).1 == seq!['\u{1F61B}'],
        smiley_entry(i).0 == seq![':', 'p'] ==> smiley_entry(i).1 == seq!['\u{1F61B}'],
        smiley_entry(i).0 == seq![':', 'O'] ==> smiley_entry(i).1 == seq!['\u{1F62E}'],
        smiley_entry(i).0 == seq![':', 'o'] ==> smiley_entry(i).1 == seq!['\u{1F62E}'],
        smiley_entry(i).0 == seq![':', '/'] ==> smiley_entry(i).1 == seq!['\u{1F615}'],
        smiley_entry(i).0 == seq![':', '|'] ==> smiley_entry(i).1 == seq!['\u{1F610}'],
        smiley_entry(i).0 == seq![':', '*'] ==> smiley_entry(i).1 == seq!['\u{1F618}'],
        smiley_entry(i).0 == seq!['B', ')'] ==> smiley_entry(i).1 == seq!['\u{1F60E}'],
        smiley_entry(i).0 == seq!['X', 'D'] ==> smiley_entry(i).1 == seq!['\u{1F606}'],
        smiley_entry(i).0 == seq!['x', 'D'] ==> smiley_entry(i).1 == seq!['\u{1F606}'],
        smiley_entry(i).0 == seq!['<', '3'] ==> smiley_entry(i).1 == seq!['\u{2764}', '\u{FE0F}'],
{
}

} // verus!
