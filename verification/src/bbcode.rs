//! BBCode parsing and rendering

use vstd::prelude::*;
use crate::markup::{
    fence, lines, lines_acc, protect, protect_exec, protect_match, protected_view, table_exec,
    table_step, tables, Protected,
};
use crate::passes::{
    delim_mark, open_param, open_tag, param_tag_name, replace_lit, replace_lit_exec,
    simple_tag_name, skip_ws, smiley_entry, Delim, Emph, LineItem, MdImage, MdLink, ParamTag,
    Shortcode, SimpleTag, Smiley,
};
use crate::render::{AnsiRenderer, BBCodeRenderer, HtmlRenderer, PlainTextRenderer};
use crate::scan::{lemma_rewrite_unchanged, replace_all, rewrite_all, Pass};
use crate::text::{chars_of, has_at, is_white_space, join, string_of};

verus! {

/// BBCode parser
pub struct BBCodeParser;

/// The emoticon passes from entry `i` of the table on.
pub open spec fn smileys_from(s: Seq<char>, i: int) -> Seq<char>
    decreases 18 - i,
{
    if i < 0 || i >= 18 {
        s
    } else {
        smileys_from(rewrite_all(&Smiley { idx: i as usize }, s), i + 1)
    }
}

/// Shortcodes, then each emoticon of the table in turn.
pub open spec fn spec_convert_smileys(s: Seq<char>) -> Seq<char> {
    smileys_from(rewrite_all(&Shortcode, s), 0)
}

/// The Markdown passes that follow the protected regions, in order.
pub open spec fn markdown_passes(s: Seq<char>) -> Seq<char> {
    let s4 = rewrite_all(&MdImage, s);
    let s5 = rewrite_all(&MdLink, s4);
    let s6 = rewrite_all(&LineItem { kind: 0 }, s5);
    let s7 = rewrite_all(&LineItem { kind: 1 }, s6);
    let s8 = rewrite_all(&LineItem { kind: 2 }, s7);
    let s9 = rewrite_all(&Delim { kind: 0 }, s8);
    let s10 = rewrite_all(&Delim { kind: 1 }, s9);
    let s11 = rewrite_all(&Delim { kind: 2 }, s10);
    let s12 = rewrite_all(&Delim { kind: 3 }, s11);
    let s13 = rewrite_all(&Emph { underscore: false }, s12);
    let s14 = rewrite_all(&Emph { underscore: true }, s13);
    let s15 = rewrite_all(&Delim { kind: 4 }, s14);
    spec_convert_smileys(s15)
}

/// Markdown turned into BBCode, with the code regions and tables replaced by
/// placeholders; the placeholders and their rendered regions, in order.
pub open spec fn spec_preprocess<R: BBCodeRenderer>(r: &R, s: Seq<char>) -> (
    Seq<char>,
    Seq<(Seq<char>, Seq<char>)>,
) {
    let (s1, p1) = protect(r, true, s, 0, Seq::empty(), Seq::empty());
    let (s2, p2) = protect(r, false, s1, 0, Seq::empty(), p1);
    let (s3, p3) = table_step(r, s2, p2);
    (markdown_passes(s3), p3)
}

/// The BBCode tag passes, in order.
pub open spec fn tag_passes<R: BBCodeRenderer>(r: &R, s: Seq<char>) -> Seq<char> {
    let t1 = rewrite_all(&SimpleTag { r: r, kind: 0 }, s);
    let t2 = rewrite_all(&SimpleTag { r: r, kind: 1 }, t1);
    let t3 = rewrite_all(&SimpleTag { r: r, kind: 2 }, t2);
    let t4 = rewrite_all(&SimpleTag { r: r, kind: 3 }, t3);
    let t5 = rewrite_all(&ParamTag { r: r, kind: 0 }, t4);
    let t6 = rewrite_all(&ParamTag { r: r, kind: 1 }, t5);
    let t7 = rewrite_all(&ParamTag { r: r, kind: 2 }, t6);
    let t8 = rewrite_all(&SimpleTag { r: r, kind: 4 }, t7);
    rewrite_all(&SimpleTag { r: r, kind: 5 }, t8)
}

/// The protected regions put back, each placeholder replaced in turn.
pub open spec fn restore(s: Seq<char>, prot: Seq<(Seq<char>, Seq<char>)>, i: int) -> Seq<char>
    decreases prot.len() - i,
{
    if i < 0 || i >= prot.len() {
        s
    } else {
        restore(replace_lit(s, prot[i].0, prot[i].1, 0, Seq::empty()), prot, i + 1)
    }
}

/// The full rendering of a message with a renderer.
pub open spec fn spec_render<R: BBCodeRenderer>(r: &R, s: Seq<char>) -> Seq<char> {
    let (t, prot) = spec_preprocess(r, s);
    restore(tag_passes(r, t), prot, 0)
}

impl BBCodeParser {
    /// Parse and render BBCode using the given renderer.
    /// Preprocesses Markdown syntax (code, bold, italic, strikethrough)
    /// into BBCode equivalents before applying the BBCode pipeline.
    pub fn render<R: BBCodeRenderer>(input: &str, renderer: &R) -> (r: String)
        ensures
            r@ == spec_render(renderer, input@),
    {
        let s = chars_of(input);
        let mut prot: Vec<Protected> = Vec::new();
        let pre = Self::preprocess_markdown(&s, renderer, &mut prot);
        let mut out = Self::process_simple_tag(&pre, 0, renderer);
        out = Self::process_simple_tag(&out, 1, renderer);
        out = Self::process_simple_tag(&out, 2, renderer);
        out = Self::process_simple_tag(&out, 3, renderer);
        out = Self::process_param_tag(&out, 0, renderer);
        out = Self::process_param_tag(&out, 1, renderer);
        out = Self::process_param_tag(&out, 2, renderer);
        out = Self::process_simple_tag(&out, 4, renderer);
        out = Self::process_simple_tag(&out, 5, renderer);
        let ghost pv = protected_view(prot@);
        let mut i: usize = 0;
        while i < prot.len()
            invariant
                i <= prot.len(),
                pv == protected_view(prot@),
                restore(tag_passes(renderer, pre@), pv, 0) == restore(out@, pv, i as int),
            decreases prot.len() - i,
        {
            out = replace_lit_exec(&out, &prot[i].0, &prot[i].1);
            i += 1;
        }
        string_of(&out)
    }

    /// Preprocess Markdown syntax into BBCode equivalents.
    /// Code regions are protected via NUL-byte placeholders to prevent
    /// further processing by the BBCode pipeline.
    fn preprocess_markdown<R: BBCodeRenderer>(
        input: &Vec<char>,
        renderer: &R,
        prot: &mut Vec<Protected>,
    ) -> (out: Vec<char>)
        requires
            old(prot)@.len() == 0,
        ensures
            (out@, protected_view(final(prot)@)) == spec_preprocess(renderer, input@),
    {
        assert(protected_view(prot@) =~= Seq::<(Seq<char>, Seq<char>)>::empty());
        let s1 = protect_exec(renderer, true, input, prot);
        let s2 = protect_exec(renderer, false, &s1, prot);
        let s3 = table_exec(renderer, &s2, prot);
        let s4 = replace_all(&MdImage, &s3);
        let s5 = replace_all(&MdLink, &s4);
        let s6 = replace_all(&LineItem { kind: 0 }, &s5);
        let s7 = replace_all(&LineItem { kind: 1 }, &s6);
        let s8 = replace_all(&LineItem { kind: 2 }, &s7);
        let s9 = replace_all(&Delim { kind: 0 }, &s8);
        let s10 = replace_all(&Delim { kind: 1 }, &s9);
        let s11 = replace_all(&Delim { kind: 2 }, &s10);
        let s12 = replace_all(&Delim { kind: 3 }, &s11);
        let s13 = replace_all(&Emph { underscore: false }, &s12);
        let s14 = replace_all(&Emph { underscore: true }, &s13);
        let s15 = replace_all(&Delim { kind: 4 }, &s14);
        Self::convert_smileys(&s15)
    }

    /// Convert emoji shortcodes (:smile:, :thumbsup:, etc.) to Unicode emoji
    /// using the full Unicode emoji database, plus common ASCII emoticons.
    fn convert_smileys(input: &Vec<char>) -> (out: Vec<char>)
        ensures
            out@ == spec_convert_smileys(input@),
    {
        let mut out = replace_all(&Shortcode, input);
        let ghost first = out@;
        let mut i: usize = 0;
        while i < 18
            invariant
                i <= 18,
                smileys_from(first, 0) == smileys_from(out@, i as int),
            decreases 18 - i,
        {
            out = replace_all(&Smiley { idx: i }, &out);
            i += 1;
        }
        out
    }

    /// Convert BBCode to HTML
    pub fn to_html(input: &str) -> (r: String)
        ensures
            r@ == spec_render(&HtmlRenderer, input@),
    {
        Self::render(input, &HtmlRenderer)
    }

    /// Convert BBCode to plain text
    pub fn to_plain(input: &str) -> (r: String)
        ensures
            r@ == spec_render(&PlainTextRenderer, input@),
    {
        Self::render(input, &PlainTextRenderer)
    }

    /// Convert BBCode to ANSI terminal output
    pub fn to_ansi(input: &str) -> (r: String)
        ensures
            r@ == spec_render(&AnsiRenderer, input@),
    {
        Self::render(input, &AnsiRenderer)
    }

    /// One simple-tag pass (b, i, u, s, url, img by kind).
    fn process_simple_tag<R: BBCodeRenderer>(input: &Vec<char>, kind: u8, renderer: &R) -> (out:
        Vec<char>)
        ensures
            out@ == rewrite_all(&SimpleTag { r: renderer, kind: kind }, input@),
    {
        replace_all(&SimpleTag { r: renderer, kind: kind }, input)
    }

    /// One parameter-tag pass (color, size, url by kind).
    fn process_param_tag<R: BBCodeRenderer>(input: &Vec<char>, kind: u8, renderer: &R) -> (out:
        Vec<char>)
        ensures
            out@ == rewrite_all(&ParamTag { r: renderer, kind: kind }, input@),
    {
        replace_all(&ParamTag { r: renderer, kind: kind }, input)
    }
}

/// Strip all BBCode tags from text
pub fn strip_bbcode(input: &str) -> (r: String)
    ensures
        r@ == spec_render(&PlainTextRenderer, input@),
{
    BBCodeParser::to_plain(input)
}


/// A character that no markup, table, list item, emoticon, shortcode or placeholder needs:
/// a lowercase ASCII letter, a digit, a space, a full stop or a comma.
pub open spec fn calm_char(c: char) -> bool {
    ('a' <= c && c <= 'z') || ('0' <= c && c <= '9') || c == ' ' || c == '.' || c == ','
}

/// Every character of the text is calm.
pub open spec fn calm(s: Seq<char>) -> bool {
    forall|i: int| 0 <= i < s.len() ==> calm_char(#[trigger] s[i])
}

proof fn lemma_has_at_char(s: Seq<char>, p: int, m: Seq<char>, k: int)
    requires
        has_at(s, p, m),
        0 <= k < m.len(),
    ensures
        s[p + k] == m[k],
{
    assert(s.subrange(p, p + m.len())[k] == s[p + k]);
}

proof fn lemma_skip_ws_from(s: Seq<char>, i: int)
    requires
        0 <= i,
    ensures
        skip_ws(s, i) >= i,
    decreases s.len() - i,
{
    if 0 <= i < s.len() && is_white_space(s[i]) {
        lemma_skip_ws_from(s, i + 1);
    }
}

proof fn lemma_calm_no_markdown(s: Seq<char>)
    requires
        calm(s),
    ensures
        forall|p: int| 0 <= p < s.len() ==> (#[trigger] MdImage.spec_step(s, p)) is None,
        forall|p: int| 0 <= p < s.len() ==> (#[trigger] MdLink.spec_step(s, p)) is None,
        forall|k: u8, p: int|
            0 <= p < s.len() ==> (#[trigger] (LineItem { kind: k }).spec_step(s, p)) is None,
        forall|k: u8, p: int| 0 <= p < s.len() ==> (#[trigger] (Delim { kind: k }).spec_step(s, p)) is None,
        forall|u: bool, p: int|
            0 <= p < s.len() ==> (#[trigger] (Emph { underscore: u }).spec_step(s, p)) is None,
        forall|p: int| 0 <= p < s.len() ==> (#[trigger] Shortcode.spec_step(s, p)) is None,
        forall|k: usize, p: int| 0 <= p < s.len() ==> (#[trigger] (Smiley { idx: k }).spec_step(s, p)) is None,
{
    assert forall|k: u8, p: int| 0 <= p < s.len() implies (#[trigger] (LineItem { kind: k }).spec_step(
        s,
        p,
    )) is None by {
        lemma_skip_ws_from(s, p);
        let w = skip_ws(s, p);
        if w + 1 < s.len() {
            assert(calm_char(s[w]));
        }
    }
    assert forall|k: u8, p: int| 0 <= p < s.len() implies (#[trigger] (Delim { kind: k }).spec_step(
        s,
        p,
    )) is None by {
        if has_at(s, p, delim_mark(k)) {
            lemma_has_at_char(s, p, delim_mark(k), 0);
            assert(calm_char(s[p]));
        }
    }
    assert forall|k: usize, p: int| 0 <= p < s.len() implies (#[trigger] (Smiley { idx: k }).spec_step(
        s,
        p,
    )) is None by {
        let (t, em) = smiley_entry(k as int);
        assert(t.len() >= 2 && (!calm_char(t[0]) || !calm_char(t[1])));
        if has_at(s, p, t) {
            lemma_has_at_char(s, p, t, 0);
            lemma_has_at_char(s, p, t, 1);
            assert(calm_char(s[p]) && calm_char(s[p + 1]));
        }
        if has_at(s, p + 1, t) {
            lemma_has_at_char(s, p + 1, t, 0);
            lemma_has_at_char(s, p + 1, t, 1);
            assert(calm_char(s[p + 1]) && calm_char(s[p + 2]));
        }
    }
}

proof fn lemma_calm_no_tags<R: BBCodeRenderer>(r: &R, s: Seq<char>)
    requires
        calm(s),
    ensures
        forall|k: u8, p: int|
            0 <= p < s.len() ==> (#[trigger] (SimpleTag { r: r, kind: k }).spec_step(s, p)) is None,
        forall|k: u8, p: int|
            0 <= p < s.len() ==> (#[trigger] (ParamTag { r: r, kind: k }).spec_step(s, p)) is None,
{
    assert forall|k: u8, p: int| 0 <= p < s.len() implies (#[trigger] (SimpleTag {
        r: r,
        kind: k,
    }).spec_step(s, p)) is None by {
        let t = open_tag(simple_tag_name(k));
        if has_at(s, p, t) {
            lemma_has_at_char(s, p, t, 0);
            assert(calm_char(s[p]));
        }
    }
    assert forall|k: u8, p: int| 0 <= p < s.len() implies (#[trigger] (ParamTag {
        r: r,
        kind: k,
    }).spec_step(s, p)) is None by {
        let t = open_param(param_tag_name(k));
        if has_at(s, p, t) {
            lemma_has_at_char(s, p, t, 0);
            assert(calm_char(s[p]));
        }
    }
}

proof fn lemma_calm_pass<P: Pass>(pass: &P, s: Seq<char>)
    requires
        forall|p: int| 0 <= p < s.len() ==> (#[trigger] pass.spec_step(s, p)) is None,
    ensures
        rewrite_all(pass, s) == s,
{
    lemma_rewrite_unchanged(pass, s, 0, Seq::empty());
    assert(Seq::<char>::empty() + s.skip(0) =~= s);
}

proof fn lemma_protect_unchanged<R: BBCodeRenderer>(
    r: &R,
    block: bool,
    s: Seq<char>,
    i: int,
    out: Seq<char>,
    prot: Seq<(Seq<char>, Seq<char>)>,
)
    requires
        calm(s),
        0 <= i <= s.len(),
    ensures
        protect(r, block, s, i, out, prot) == (out + s.skip(i), prot),
    decreases s.len() - i,
{
    if i < s.len() {
        assert(calm_char(s[i]));
        if has_at(s, i, fence()) {
            lemma_has_at_char(s, i, fence(), 0);
        }
        assert(protect_match(block, s, i) is None);
        lemma_protect_unchanged(r, block, s, i + 1, out.push(s[i]), prot);
        assert(out.push(s[i]) + s.skip(i + 1) =~= out + s.skip(i));
    } else {
        assert(out + s.skip(i) =~= out);
    }
}

proof fn lemma_lines_single(s: Seq<char>, i: int)
    requires
        calm(s),
        0 <= i <= s.len(),
    ensures
        lines_acc(s, i, 0, Seq::empty()) == if s.len() > 0 {
            seq![s]
        } else {
            Seq::<Seq<char>>::empty()
        },
    decreases s.len() - i,
{
    if i < s.len() {
        assert(calm_char(s[i]));
        lemma_lines_single(s, i + 1);
    } else {
        assert(s.subrange(0, s.len() as int) =~= s);
    }
}

proof fn lemma_calm_steps<R: BBCodeRenderer>(r: &R, s: Seq<char>)
    requires
        calm(s),
    ensures
        spec_preprocess(r, s) == (s, Seq::<(Seq<char>, Seq<char>)>::empty()),
        tag_passes(r, s) == s,
{
    let e = Seq::<(Seq<char>, Seq<char>)>::empty();
    lemma_protect_unchanged(r, true, s, 0, Seq::empty(), e);
    assert(Seq::<char>::empty() + s.skip(0) =~= s);
    lemma_protect_unchanged(r, false, s, 0, Seq::empty(), e);
    lemma_lines_single(s, 0);
    if s.len() > 0 {
        assert(s[0] != '|') by {
            assert(calm_char(s[0]));
        }
        let ls = seq![s];
        assert(tables(r, ls, 1, seq![s], e) == (seq![s], e));
        assert(tables(r, ls, 0, Seq::empty(), e) == tables(r, ls, 1, Seq::<Seq<char>>::empty().push(ls[0]), e));
        assert(Seq::<Seq<char>>::empty().push(ls[0]) =~= seq![s]);
        assert(join(seq![s], seq!['\n']) == s);
    } else {
        assert(join(Seq::<Seq<char>>::empty(), seq!['\n']) =~= s);
    }
    assert(table_step(r, s, e) == (s, e));
    lemma_calm_no_markdown(s);
    lemma_calm_pass(&MdImage, s);
    lemma_calm_pass(&MdLink, s);
    lemma_calm_pass(&LineItem { kind: 0 }, s);
    lemma_calm_pass(&LineItem { kind: 1 }, s);
    lemma_calm_pass(&LineItem { kind: 2 }, s);
    lemma_calm_pass(&Delim { kind: 0 }, s);
    lemma_calm_pass(&Delim { kind: 1 }, s);
    lemma_calm_pass(&Delim { kind: 2 }, s);
    lemma_calm_pass(&Delim { kind: 3 }, s);
    lemma_calm_pass(&Emph { underscore: false }, s);
    lemma_calm_pass(&Emph { underscore: true }, s);
    lemma_calm_pass(&Delim { kind: 4 }, s);
    lemma_calm_pass(&Shortcode, s);
    lemma_calm_smileys(s, 0);
    assert(markdown_passes(s) == s);
    lemma_calm_no_tags(r, s);
    lemma_calm_pass(&SimpleTag { r: r, kind: 0 }, s);
    lemma_calm_pass(&SimpleTag { r: r, kind: 1 }, s);
    lemma_calm_pass(&SimpleTag { r: r, kind: 2 }, s);
    lemma_calm_pass(&SimpleTag { r: r, kind: 3 }, s);
    lemma_calm_pass(&ParamTag { r: r, kind: 0 }, s);
    lemma_calm_pass(&ParamTag { r: r, kind: 1 }, s);
    lemma_calm_pass(&ParamTag { r: r, kind: 2 }, s);
    lemma_calm_pass(&SimpleTag { r: r, kind: 4 }, s);
    lemma_calm_pass(&SimpleTag { r: r, kind: 5 }, s);
}

proof fn lemma_calm_smileys(s: Seq<char>, i: int)
    requires
        calm(s),
        0 <= i,
    ensures
        smileys_from(s, i) == s,
    decreases 18 - i,
{
    if i < 18 {
        lemma_calm_no_markdown(s);
        lemma_calm_pass(&Smiley { idx: i as usize }, s);
        lemma_calm_smileys(s, i + 1);
    }
}

/// Text made only of lowercase ASCII letters, digits, spaces, full stops and commas carries
/// no markup: every renderer gives it back unchanged.
pub proof fn calm_text_unchanged<R: BBCodeRenderer>(r: &R, s: Seq<char>)
    requires
        calm(s),
    ensures
        spec_render(r, s) == s,
{
    lemma_calm_steps(r, s);
}

} // verus!
