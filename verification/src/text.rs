//! Character-level text utilities shared by the parsers and the data model.

use vstd::prelude::*;

verus! {

broadcast use vstd::string::axiom_spec_iter;

/// Whether `c` has the Unicode White_Space property, as `char::is_whitespace` decides it:
/// the 25 code points U+0009 to U+000D, U+0020, U+0085, U+00A0, U+1680, U+2000 to
/// U+200A, U+2028, U+2029, U+202F, U+205F and U+3000.
pub open spec fn is_white_space(c: char) -> bool {
    let n = c as u32;
    ||| 0x09 <= n <= 0x0d
    ||| n == 0x20
    ||| n == 0x85
    ||| n == 0xa0
    ||| n == 0x1680
    ||| 0x2000 <= n <= 0x200a
    ||| n == 0x2028
    ||| n == 0x2029
    ||| n == 0x202f
    ||| n == 0x205f
    ||| n == 0x3000
}

/// Whether `c` belongs to the Unicode word class `\w` of the `regex` crate.
pub uninterp spec fn is_word_class(c: char) -> bool;

/// The Unicode lowercase mapping of a string, as `str::to_lowercase` computes it.
pub uninterp spec fn lowercase(s: Seq<char>) -> Seq<char>;

/// ASCII letters and digits.
pub open spec fn is_ascii_alnum(c: char) -> bool {
    ('a' <= c && c <= 'z') || ('A' <= c && c <= 'Z') || ('0' <= c && c <= '9')
}

/// Word characters in the sense of the `\w` class and the `\b` assertion:
/// on ASCII the letters, digits and the underscore; elsewhere the Unicode class.
pub open spec fn is_word(c: char) -> bool {
    if (c as u32) < 128 {
        is_ascii_alnum(c) || c == '_'
    } else {
        is_word_class(c)
    }
}

/// `regex::Regex::is_match` with the pattern `^\w$` on the one-character text `c`:
/// true when `c` is in the Unicode word class of the `regex` crate
/// (Alphabetic, marks, decimal digits, connector punctuation, join controls).
#[verifier::external_body]
fn regex_word_class(c: char) -> (r: bool)
    ensures
        r == is_word_class(c),
{
    let mut buf = [0u8; 4];
    match regex::Regex::new(r"^\w$") {
        Ok(re) => re.is_match(c.encode_utf8(&mut buf)),
        Err(_) => false,
    }
}

/// Text made of ASCII characters only.
pub open spec fn is_ascii_text(s: Seq<char>) -> bool {
    forall|i: int| 0 <= i < s.len() ==> (#[trigger] s[i] as u32) < 128
}

/// ASCII text with its capital letters made small.
pub open spec fn ascii_lower(s: Seq<char>) -> Seq<char> {
    s.map_values(|c: char| if 'A' <= c && c <= 'Z' {
        ((c as u32) + 32) as char
    } else {
        c
    })
}

/// `str::to_lowercase`: the Unicode lowercase mapping of the whole string, which on
/// ASCII text makes the capital letters small and keeps every other character.
#[verifier::external_body]
pub(crate) fn to_lowercase(s: &str) -> (r: String)
    ensures
        r@ == lowercase(s@),
        is_ascii_text(s@) ==> r@ == ascii_lower(s@),
{
    s.to_lowercase()
}

/// `String::push`: appends one character.
#[verifier::external_body]
fn string_push(s: &mut String, c: char)
    ensures
        final(s)@ == old(s)@.push(c),
{
    s.push(c)
}

/// White_Space test on one character, as `char::is_whitespace` does it.
pub fn is_ws(c: char) -> (r: bool)
    ensures
        r == is_white_space(c),
{
    let n = c as u32;
    (0x09 <= n && n <= 0x0d) || n == 0x20 || n == 0x85 || n == 0xa0 || n == 0x1680 || (0x2000
        <= n && n <= 0x200a) || n == 0x2028 || n == 0x2029 || n == 0x202f || n == 0x205f || n
        == 0x3000
}

/// Word-character test used by the `\b` assertion.
pub fn is_word_char(c: char) -> (r: bool)
    ensures
        r == is_word(c),
{
    if (c as u32) < 128 {
        ('a' <= c && c <= 'z') || ('A' <= c && c <= 'Z') || ('0' <= c && c <= '9') || c == '_'
    } else {
        regex_word_class(c)
    }
}

/// The characters of a string slice, in order.
pub fn chars_of(s: &str) -> (v: Vec<char>)
    ensures
        v@ == s@,
{
    let mut v: Vec<char> = Vec::new();
    for c in it: s.chars()
        invariant
            v@ == it.seq().take(it.index() as int),
            it.seq() == s@,
    {
        v.push(c);
    }
    v
}

/// A string holding the given characters.
pub fn string_of(v: &Vec<char>) -> (s: String)
    ensures
        s@ == v@,
{
    let mut s = String::new();
    let mut i: usize = 0;
    while i < v.len()
        invariant
            i <= v.len(),
            s@ == v@.take(i as int),
        decreases v.len() - i,
    {
        string_push(&mut s, v[i]);
        i += 1;
        assert(v@.take(i as int) == v@.take(i - 1 as int).push(v@[i - 1]));
    }
    assert(v@.take(v.len() as int) == v@);
    s
}

/// Appends `t` to `v`.
pub fn append_chars(v: &mut Vec<char>, t: &Vec<char>)
    ensures
        final(v)@ == old(v)@ + t@,
{
    let mut i: usize = 0;
    while i < t.len()
        invariant
            i <= t.len(),
            v@ == old(v)@ + t@.take(i as int),
        decreases t.len() - i,
    {
        v.push(t[i]);
        i += 1;
        assert(t@.take(i as int) == t@.take(i - 1 as int).push(t@[i - 1]));
    }
    assert(t@.take(t.len() as int) == t@);
}

/// Appends the characters of a string slice to `v`.
pub fn append_str(v: &mut Vec<char>, t: &str)
    ensures
        final(v)@ == old(v)@ + t@,
{
    let c = chars_of(t);
    append_chars(v, &c);
}

/// The characters `s[a..b]`.
pub fn slice_chars(s: &Vec<char>, a: usize, b: usize) -> (r: Vec<char>)
    requires
        a <= b <= s.len(),
    ensures
        r@ == s@.subrange(a as int, b as int),
{
    let mut r: Vec<char> = Vec::new();
    let mut i = a;
    while i < b
        invariant
            a <= i <= b <= s.len(),
            r@ == s@.subrange(a as int, i as int),
        decreases b - i,
    {
        r.push(s[i]);
        i += 1;
        assert(s@.subrange(a as int, i as int) == s@.subrange(a as int, i - 1 as int).push(s@[i - 1]));
    }
    r
}

/// `lit` occurs in `s` starting at index `i`.
pub open spec fn has_at(s: Seq<char>, i: int, lit: Seq<char>) -> bool {
    0 <= i && i + lit.len() <= s.len() && s.subrange(i, i + lit.len()) == lit
}

/// Whether `lit` occurs in `s` at index `i`.
pub fn lit_at(s: &Vec<char>, i: usize, lit: &Vec<char>) -> (r: bool)
    ensures
        r == has_at(s@, i as int, lit@),
{
    if i > s.len() || lit.len() > s.len() - i {
        return false;
    }
    let mut k: usize = 0;
    while k < lit.len()
        invariant
            k <= lit.len(),
            i + lit.len() <= s.len(),
            forall|m: int| 0 <= m < k ==> s@[i + m] == lit@[m],
        decreases lit.len() - k,
    {
        if s[i + k] != lit[k] {
            assert(s@.subrange(i as int, i + lit.len())[k as int] != lit@[k as int]);
            return false;
        }
        k += 1;
    }
    assert(s@.subrange(i as int, i + lit.len()) =~= lit@);
    true
}

/// The first index `j >= i` at which `lit` occurs in `s`.
pub open spec fn find_from(s: Seq<char>, i: int, lit: Seq<char>) -> Option<int>
    decreases s.len() + 1 - i,
{
    if i < 0 || i + lit.len() > s.len() {
        None
    } else if has_at(s, i, lit) {
        Some(i)
    } else {
        find_from(s, i + 1, lit)
    }
}

/// Properties of a search result.
pub proof fn lemma_find_from(s: Seq<char>, i: int, lit: Seq<char>)
    requires
        0 <= i,
    ensures
        match find_from(s, i, lit) {
            Some(j) => i <= j && has_at(s, j, lit) && forall|k: int| i <= k < j ==> !has_at(s, k, lit),
            None => forall|k: int| i <= k ==> !has_at(s, k, lit),
        },
    decreases s.len() + 1 - i,
{
    if i + lit.len() > s.len() {
    } else if has_at(s, i, lit) {
    } else {
        lemma_find_from(s, i + 1, lit);
    }
}

/// Searches `s` for `lit` from index `i`.
pub fn find_lit(s: &Vec<char>, i: usize, lit: &Vec<char>) -> (r: Option<usize>)
    ensures
        match r {
            Some(j) => find_from(s@, i as int, lit@) == Some(j as int),
            None => find_from(s@, i as int, lit@) is None,
        },
{
    let mut j = i;
    while j <= s.len() && lit.len() <= s.len() - j
        invariant
            i <= j,
            find_from(s@, i as int, lit@) == find_from(s@, j as int, lit@),
        decreases s.len() + 1 - j,
    {
        if lit_at(s, j, lit) {
            return Some(j);
        }
        proof {
            if j == s.len() {
                assert(s@.subrange(j as int, j as int) =~= lit@);
            }
        }
        j += 1;
    }
    None
}

/// `t` occurs somewhere in `s`.
pub open spec fn contains_seq(s: Seq<char>, t: Seq<char>) -> bool {
    exists|i: int| has_at(s, i, t)
}

/// Whether `t` occurs in `s`.
pub fn contains_chars(s: &Vec<char>, t: &Vec<char>) -> (r: bool)
    ensures
        r == contains_seq(s@, t@),
{
    let f = find_lit(s, 0, t);
    proof {
        lemma_find_from(s@, 0, t@);
        if f is None {
            assert forall|i: int| !has_at(s@, i, t@) by {
                if i >= 0 {
                }
            }
        }
    }
    f.is_some()
}

/// `s` begins with `p`.
pub open spec fn starts_with(s: Seq<char>, p: Seq<char>) -> bool {
    has_at(s, 0, p)
}

/// Whether the string slice `s` begins with `p`.
pub fn str_starts_with(s: &str, p: &str) -> (r: bool)
    ensures
        r == starts_with(s@, p@),
{
    let sv = chars_of(s);
    let pv = chars_of(p);
    lit_at(&sv, 0, &pv)
}

/// Parts joined by a separator.
pub open spec fn join(parts: Seq<Seq<char>>, sep: Seq<char>) -> Seq<char>
    decreases parts.len(),
{
    if parts.len() == 0 {
        Seq::empty()
    } else if parts.len() == 1 {
        parts[0]
    } else {
        join(parts.drop_last(), sep) + sep + parts.last()
    }
}

/// Joins character sequences with a separator.
pub fn join_chars(parts: &Vec<Vec<char>>, sep: &Vec<char>) -> (r: Vec<char>)
    ensures
        r@ == join(parts@.map_values(|p: Vec<char>| p@), sep@),
{
    let ghost views = parts@.map_values(|p: Vec<char>| p@);
    let mut r: Vec<char> = Vec::new();
    let mut i: usize = 0;
    while i < parts.len()
        invariant
            i <= parts.len(),
            views == parts@.map_values(|p: Vec<char>| p@),
            r@ == join(views.take(i as int), sep@),
        decreases parts.len() - i,
    {
        if i > 0 {
            append_chars(&mut r, sep);
        }
        append_chars(&mut r, &parts[i]);
        i += 1;
        assert(views.take(i as int).drop_last() == views.take(i - 1 as int));
    }
    assert(views.take(parts.len() as int) == views);
    r
}

/// Decimal digits of a natural number, most significant first.
pub open spec fn decimal(n: nat) -> Seq<char>
    decreases n,
{
    if n < 10 {
        seq![digit_char(n)]
    } else {
        decimal(n / 10) + seq![digit_char(n % 10)]
    }
}

/// The character of a decimal digit.
pub open spec fn digit_char(d: nat) -> char {
    if d == 0 { '0' } else if d == 1 { '1' } else if d == 2 { '2' } else if d == 3 { '3' }
    else if d == 4 { '4' } else if d == 5 { '5' } else if d == 6 { '6' } else if d == 7 { '7' }
    else if d == 8 { '8' } else { '9' }
}

fn digit(d: usize) -> (c: char)
    requires
        d < 10,
    ensures
        c == digit_char(d as nat),
{
    if d == 0 { '0' } else if d == 1 { '1' } else if d == 2 { '2' } else if d == 3 { '3' }
    else if d == 4 { '4' } else if d == 5 { '5' } else if d == 6 { '6' } else if d == 7 { '7' }
    else if d == 8 { '8' } else { '9' }
}

/// Decimal rendering of a `usize`.
pub fn decimal_chars(n: usize) -> (r: Vec<char>)
    ensures
        r@ == decimal(n as nat),
    decreases n,
{
    if n < 10 {
        let mut r: Vec<char> = Vec::new();
        r.push(digit(n));
        r
    } else {
        let mut r = decimal_chars(n / 10);
        r.push(digit(n % 10));
        r
    }
}

/// Decimal rendering of a `u64`.
pub fn decimal_chars_u64(n: u64) -> (r: Vec<char>)
    ensures
        r@ == decimal(n as nat),
    decreases n,
{
    if n < 10 {
        let mut r: Vec<char> = Vec::new();
        r.push(digit(n as usize));
        r
    } else {
        let mut r = decimal_chars_u64(n / 10);
        r.push(digit((n % 10) as usize));
        r
    }
}

/// Whether two string slices hold the same characters.
pub fn str_eq(a: &str, b: &str) -> (r: bool)
    ensures
        r == (a@ == b@),
{
    let av = chars_of(a);
    let bv = chars_of(b);
    if av.len() != bv.len() {
        return false;
    }
    let r = lit_at(&av, 0, &bv);
    proof {
        if r {
            assert(av@.subrange(0, bv@.len() as int) =~= av@);
        } else {
            assert(av@.subrange(0, bv@.len() as int) =~= av@);
        }
    }
    r
}

} // verus!
