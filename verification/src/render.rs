//! Output formats for formatted chat text.

use vstd::prelude::*;
use crate::text::{chars_of, lowercase, string_of, to_lowercase};

verus! {

/// BBCode renderer for different output formats
pub trait BBCodeRenderer {
    /// Output of `bold`.
    spec fn spec_bold(&self, content: Seq<char>) -> Seq<char>;
    /// Output of `italic`.
    spec fn spec_italic(&self, content: Seq<char>) -> Seq<char>;
    /// Output of `underline`.
    spec fn spec_underline(&self, content: Seq<char>) -> Seq<char>;
    /// Output of `strike`.
    spec fn spec_strike(&self, content: Seq<char>) -> Seq<char>;
    /// Output of `color`.
    spec fn spec_color(&self, color: Seq<char>, content: Seq<char>) -> Seq<char>;
    /// Output of `size`.
    spec fn spec_size(&self, size: Seq<char>, content: Seq<char>) -> Seq<char>;
    /// Output of `url`.
    spec fn spec_url(&self, url: Seq<char>, text: Seq<char>) -> Seq<char>;
    /// Output of `image`.
    spec fn spec_image(&self, url: Seq<char>) -> Seq<char>;
    /// Output of `code`.
    spec fn spec_code(&self, content: Seq<char>) -> Seq<char>;
    /// Output of `code_block`.
    spec fn spec_code_block(&self, content: Seq<char>) -> Seq<char>;

    /// Render bold text
    fn bold(&self, content: &str) -> (r: String)
        ensures
            r@ == self.spec_bold(content@),
    ;

    /// Render italic text
    fn italic(&self, content: &str) -> (r: String)
        ensures
            r@ == self.spec_italic(content@),
    ;

    /// Render underlined text
    fn underline(&self, content: &str) -> (r: String)
        ensures
            r@ == self.spec_underline(content@),
    ;

    /// Render strikethrough text
    fn strike(&self, content: &str) -> (r: String)
        ensures
            r@ == self.spec_strike(content@),
    ;

    /// Render colored text
    fn color(&self, color: &str, content: &str) -> (r: String)
        ensures
            r@ == self.spec_color(color@, content@),
    ;

    /// Render sized text
    fn size(&self, size: &str, content: &str) -> (r: String)
        ensures
            r@ == self.spec_size(size@, content@),
    ;

    /// Render a URL
    fn url(&self, url: &str, text: &str) -> (r: String)
        ensures
            r@ == self.spec_url(url@, text@),
    ;

    /// Render an image
    fn image(&self, url: &str) -> (r: String)
        ensures
            r@ == self.spec_image(url@),
    ;

    /// Render inline code
    fn code(&self, content: &str) -> (r: String)
        ensures
            r@ == self.spec_code(content@),
    ;

    /// Render a code block
    fn code_block(&self, content: &str) -> (r: String)
        ensures
            r@ == self.spec_code_block(content@),
    ;
}

/// `a` followed by `b` followed by `c`, as a string.
fn wrap(a: &str, b: &str, c: &str) -> (r: String)
    ensures
        r@ == a@ + b@ + c@,
{
    let mut v = chars_of(a);
    let bv = chars_of(b);
    let cv = chars_of(c);
    crate::text::append_chars(&mut v, &bv);
    crate::text::append_chars(&mut v, &cv);
    string_of(&v)
}

/// `a`, `b`, `c`, `d`, `e` in sequence, as a string.
fn wrap5(a: &str, b: &str, c: &str, d: &str, e: &str) -> (r: String)
    ensures
        r@ == a@ + b@ + c@ + d@ + e@,
{
    let mut v = chars_of(a);
    crate::text::append_str(&mut v, b);
    crate::text::append_str(&mut v, c);
    crate::text::append_str(&mut v, d);
    crate::text::append_str(&mut v, e);
    string_of(&v)
}

/// HTML renderer
pub struct HtmlRenderer;

impl BBCodeRenderer for HtmlRenderer {
    open spec fn spec_bold(&self, content: Seq<char>) -> Seq<char> {
        "<strong>"@ + content + "</strong>"@
    }

    open spec fn spec_italic(&self, content: Seq<char>) -> Seq<char> {
        "<em>"@ + content + "</em>"@
    }

    open spec fn spec_underline(&self, content: Seq<char>) -> Seq<char> {
        "<u>"@ + content + "</u>"@
    }

    open spec fn spec_strike(&self, content: Seq<char>) -> Seq<char> {
        "<s>"@ + content + "</s>"@
    }

    open spec fn spec_color(&self, color: Seq<char>, content: Seq<char>) -> Seq<char> {
        "<span style=\"color: "@ + color + "\">"@ + content + "</span>"@
    }

    open spec fn spec_size(&self, size: Seq<char>, content: Seq<char>) -> Seq<char> {
        "<span style=\"font-size: "@ + size + "px\">"@ + content + "</span>"@
    }

    open spec fn spec_url(&self, url: Seq<char>, text: Seq<char>) -> Seq<char> {
        "<a href=\""@ + url + "\">"@ + text + "</a>"@
    }

    open spec fn spec_image(&self, url: Seq<char>) -> Seq<char> {
        "<img src=\""@ + url + "\" />"@
    }

    open spec fn spec_code(&self, content: Seq<char>) -> Seq<char> {
        "<code>"@ + content + "</code>"@
    }

    open spec fn spec_code_block(&self, content: Seq<char>) -> Seq<char> {
        "<pre><code>"@ + content + "</code></pre>"@
    }

    fn bold(&self, content: &str) -> (r: String) {
        wrap("<strong>", content, "</strong>")
    }

    fn italic(&self, content: &str) -> (r: String) {
        wrap("<em>", content, "</em>")
    }

    fn underline(&self, content: &str) -> (r: String) {
        wrap("<u>", content, "</u>")
    }

    fn strike(&self, content: &str) -> (r: String) {
        wrap("<s>", content, "</s>")
    }

    fn color(&self, color: &str, content: &str) -> (r: String) {
        wrap5("<span style=\"color: ", color, "\">", content, "</span>")
    }

    fn size(&self, size: &str, content: &str) -> (r: String) {
        wrap5("<span style=\"font-size: ", size, "px\">", content, "</span>")
    }

    fn url(&self, url: &str, text: &str) -> (r: String) {
        wrap5("<a href=\"", url, "\">", text, "</a>")
    }

    fn image(&self, url: &str) -> (r: String) {
        wrap("<img src=\"", url, "\" />")
    }

    fn code(&self, content: &str) -> (r: String) {
        wrap("<code>", content, "</code>")
    }

    fn code_block(&self, content: &str) -> (r: String) {
        wrap("<pre><code>", content, "</code></pre>")
    }
}

/// A copy of a string slice.
fn owned(s: &str) -> (r: String)
    ensures
        r@ == s@,
{
    let v = chars_of(s);
    string_of(&v)
}

/// Plain text renderer (strips BBCode)
pub struct PlainTextRenderer;

impl BBCodeRenderer for PlainTextRenderer {
    open spec fn spec_bold(&self, content: Seq<char>) -> Seq<char> {
        content
    }

    open spec fn spec_italic(&self, content: Seq<char>) -> Seq<char> {
        content
    }

    open spec fn spec_underline(&self, content: Seq<char>) -> Seq<char> {
        content
    }

    open spec fn spec_strike(&self, content: Seq<char>) -> Seq<char> {
        content
    }

    open spec fn spec_color(&self, color: Seq<char>, content: Seq<char>) -> Seq<char> {
        content
    }

    open spec fn spec_size(&self, size: Seq<char>, content: Seq<char>) -> Seq<char> {
        content
    }

    open spec fn spec_url(&self, url: Seq<char>, text: Seq<char>) -> Seq<char> {
        if text == url {
            url
        } else {
            text + " ("@ + url + ")"@
        }
    }

    open spec fn spec_image(&self, url: Seq<char>) -> Seq<char> {
        "[Image: "@ + url + "]"@
    }

    open spec fn spec_code(&self, content: Seq<char>) -> Seq<char> {
        content
    }

    open spec fn spec_code_block(&self, content: Seq<char>) -> Seq<char> {
        content
    }

    fn bold(&self, content: &str) -> (r: String) {
        owned(content)
    }

    fn italic(&self, content: &str) -> (r: String) {
        owned(content)
    }

    fn underline(&self, content: &str) -> (r: String) {
        owned(content)
    }

    fn strike(&self, content: &str) -> (r: String) {
        owned(content)
    }

    fn color(&self, _color: &str, content: &str) -> (r: String) {
        owned(content)
    }

    fn size(&self, _size: &str, content: &str) -> (r: String) {
        owned(content)
    }

    fn url(&self, url: &str, text: &str) -> (r: String) {
        let t = owned(text);
        let u = owned(url);
        if t == u {
            u
        } else {
            proof {
                reveal_strlit("");
            }
            wrap5("", text, " (", url, ")")
        }
    }

    fn image(&self, url: &str) -> (r: String) {
        wrap("[Image: ", url, "]")
    }

    fn code(&self, content: &str) -> (r: String) {
        owned(content)
    }

    fn code_block(&self, content: &str) -> (r: String) {
        owned(content)
    }
}

/// ANSI SGR parameter for a color name (compared after lowercasing).
pub open spec fn ansi_color_code(lower: Seq<char>) -> Seq<char> {
    if lower == "red"@ {
        "31"@
    } else if lower == "green"@ {
        "32"@
    } else if lower == "yellow"@ {
        "33"@
    } else if lower == "blue"@ {
        "34"@
    } else if lower == "magenta"@ {
        "35"@
    } else if lower == "cyan"@ {
        "36"@
    } else if lower == "white"@ {
        "37"@
    } else {
        "39"@
    }
}

/// ANSI terminal renderer
pub struct AnsiRenderer;

impl BBCodeRenderer for AnsiRenderer {
    open spec fn spec_bold(&self, content: Seq<char>) -> Seq<char> {
        "\x1b[1m"@ + content + "\x1b[0m"@
    }

    open spec fn spec_italic(&self, content: Seq<char>) -> Seq<char> {
        "\x1b[3m"@ + content + "\x1b[0m"@
    }

    open spec fn spec_underline(&self, content: Seq<char>) -> Seq<char> {
        "\x1b[4m"@ + content + "\x1b[0m"@
    }

    open spec fn spec_strike(&self, content: Seq<char>) -> Seq<char> {
        "\x1b[9m"@ + content + "\x1b[0m"@
    }

    open spec fn spec_color(&self, color: Seq<char>, content: Seq<char>) -> Seq<char> {
        "\x1b["@ + ansi_color_code(lowercase(color)) + "m"@ + content + "\x1b[0m"@
    }

    open spec fn spec_size(&self, size: Seq<char>, content: Seq<char>) -> Seq<char> {
        content
    }

    open spec fn spec_url(&self, url: Seq<char>, text: Seq<char>) -> Seq<char> {
        "\x1b]8;;"@ + url + "\x1b\\"@ + text + "\x1b]8;;\x1b\\"@
    }

    open spec fn spec_image(&self, url: Seq<char>) -> Seq<char> {
        "[Image: "@ + url + "]"@
    }

    open spec fn spec_code(&self, content: Seq<char>) -> Seq<char> {
        "\x1b[7m"@ + content + "\x1b[0m"@
    }

    open spec fn spec_code_block(&self, content: Seq<char>) -> Seq<char> {
        "\x1b[2m"@ + content + "\x1b[0m"@
    }

    fn bold(&self, content: &str) -> (r: String) {
        wrap("\x1b[1m", content, "\x1b[0m")
    }

    fn italic(&self, content: &str) -> (r: String) {
        wrap("\x1b[3m", content, "\x1b[0m")
    }

    fn underline(&self, content: &str) -> (r: String) {
        wrap("\x1b[4m", content, "\x1b[0m")
    }

    fn strike(&self, content: &str) -> (r: String) {
        wrap("\x1b[9m", content, "\x1b[0m")
    }

    fn color(&self, color: &str, content: &str) -> (r: String) {
        let lower = to_lowercase(color);
        let code: &str = if lower == owned("red") {
            "31"
        } else if lower == owned("green") {
            "32"
        } else if lower == owned("yellow") {
            "33"
        } else if lower == owned("blue") {
            "34"
        } else if lower == owned("magenta") {
            "35"
        } else if lower == owned("cyan") {
            "36"
        } else if lower == owned("white") {
            "37"
        } else {
            "39"
        };
        wrap5("\x1b[", code, "m", content, "\x1b[0m")
    }

    fn size(&self, _size: &str, content: &str) -> (r: String) {
        owned(content)
    }

    fn url(&self, url: &str, text: &str) -> (r: String) {
        wrap5("\x1b]8;;", url, "\x1b\\", text, "\x1b]8;;\x1b\\")
    }

    fn image(&self, url: &str) -> (r: String) {
        wrap("[Image: ", url, "]")
    }

    fn code(&self, content: &str) -> (r: String) {
        wrap("\x1b[7m", content, "\x1b[0m")
    }

    fn code_block(&self, content: &str) -> (r: String) {
        wrap("\x1b[2m", content, "\x1b[0m")
    }
}


/// In a terminal each named color, in any letter case, shows its standard SGR foreground
/// code around the text and resets after it: red 31, green 32, yellow 33, blue 34,
/// magenta 35, cyan 36, white 37; any other color uses the default foreground, 39.
pub proof fn ansi_named_colors(r: AnsiRenderer, color: Seq<char>, content: Seq<char>)
    ensures
        lowercase(color) == seq!['r', 'e', 'd'] ==> r.spec_color(color, content) == seq!['\x1b', '[', '3', '1', 'm'] + content
            + seq!['\x1b', '[', '0', 'm'],
        lowercase(color) == seq!['g', 'r', 'e', 'e', 'n'] ==> r.spec_color(color, content) == seq!['\x1b', '[', '3', '2', 'm'] + content
            + seq!['\x1b', '[', '0', 'm'],
        lowercase(color) == seq!['y', 'e', 'l', 'l', 'o', 'w'] ==> r.spec_color(color, content) == seq!['\x1b', '[', '3', '3', 'm'] + content
            + seq!['\x1b', '[', '0', 'm'],
        lowercase(color) == seq!['b', 'l', 'u', 'e'] ==> r.spec_color(color, content) == seq!['\x1b', '[', '3', '4', 'm'] + content
            + seq!['\x1b', '[', '0', 'm'],
        lowercase(color) == seq!['m', 'a', 'g', 'e', 'n', 't', 'a'] ==> r.spec_color(color, content) == seq!['\x1b', '[', '3', '5', 'm'] + content
            + seq!['\x1b', '[', '0', 'm'],
        lowercase(color) == seq!['c', 'y', 'a', 'n'] ==> r.spec_color(color, content) == seq!['\x1b', '[', '3', '6', 'm'] + content
            + seq!['\x1b', '[', '0', 'm'],
        lowercase(color) == seq!['w', 'h', 'i', 't', 'e'] ==> r.spec_color(color, content) == seq!['\x1b', '[', '3', '7', 'm'] + content
            + seq!['\x1b', '[', '0', 'm'],
        lowercase(color) != seq!['r', 'e', 'd'] && lowercase(color) != seq!['g', 'r', 'e', 'e', 'n'] && lowercase(color) != seq!['y', 'e', 'l', 'l', 'o', 'w']
            && lowercase(color) != seq!['b', 'l', 'u', 'e'] && lowercase(color) != seq!['m', 'a', 'g', 'e', 'n', 't', 'a'] && lowercase(color) != seq!['c', 'y', 'a', 'n']
            && lowercase(color) != seq!['w', 'h', 'i', 't', 'e'] ==> r.spec_color(color, content) == seq!['\x1b', '[', '3', '9', 'm']
            + content + seq!['\x1b', '[', '0', 'm'],
{
    reveal_strlit("\x1b[");
    reveal_strlit("m");
    reveal_strlit("\x1b[0m");
    assert("\x1b["@ =~= seq!['\x1b', '[']);
    assert("m"@ =~= seq!['m']);
    assert("\x1b[0m"@ =~= seq!['\x1b', '[', '0', 'm']);
    reveal_strlit("31");
    assert("31"@ =~= seq!['3', '1']);
    reveal_strlit("red");
    assert("red"@ =~= seq!['r', 'e', 'd']);
    reveal_strlit("32");
    assert("32"@ =~= seq!['3', '2']);
    reveal_strlit("green");
    assert("green"@ =~= seq!['g', 'r', 'e', 'e', 'n']);
    reveal_strlit("33");
    assert("33"@ =~= seq!['3', '3']);
    reveal_strlit("yellow");
    assert("yellow"@ =~= seq!['y', 'e', 'l', 'l', 'o', 'w']);
    reveal_strlit("34");
    assert("34"@ =~= seq!['3', '4']);
    reveal_strlit("blue");
    assert("blue"@ =~= seq!['b', 'l', 'u', 'e']);
    reveal_strlit("35");
    assert("35"@ =~= seq!['3', '5']);
    reveal_strlit("magenta");
    assert("magenta"@ =~= seq!['m', 'a', 'g', 'e', 'n', 't', 'a']);
    reveal_strlit("36");
    assert("36"@ =~= seq!['3', '6']);
    reveal_strlit("cyan");
    assert("cyan"@ =~= seq!['c', 'y', 'a', 'n']);
    reveal_strlit("37");
    assert("37"@ =~= seq!['3', '7']);
    reveal_strlit("white");
    assert("white"@ =~= seq!['w', 'h', 'i', 't', 'e']);
    reveal_strlit("39");
    assert("39"@ =~= seq!['3', '9']);
    let code = ansi_color_code(lowercase(color));
    assert(r.spec_color(color, content) =~= seq!['\x1b', '['] + code + seq!['m'] + content + seq!['\x1b', '[', '0', 'm']);
    if lowercase(color) == seq!['r', 'e', 'd'] {
        assert(seq!['\x1b', '['] + code + seq!['m'] =~= seq!['\x1b', '[', '3', '1', 'm']);
    }
    if lowercase(color) == seq!['g', 'r', 'e', 'e', 'n'] {
        assert(seq!['\x1b', '['] + code + seq!['m'] =~= seq!['\x1b', '[', '3', '2', 'm']);
    }
    if lowercase(color) == seq!['y', 'e', 'l', 'l', 'o', 'w'] {
        assert(seq!['\x1b', '['] + code + seq!['m'] =~= seq!['\x1b', '[', '3', '3', 'm']);
    }
    if lowercase(color) == seq!['b', 'l', 'u', 'e'] {
        assert(seq!['\x1b', '['] + code + seq!['m'] =~= seq!['\x1b', '[', '3', '4', 'm']);
    }
    if lowercase(color) == seq!['m', 'a', 'g', 'e', 'n', 't', 'a'] {
        assert(seq!['\x1b', '['] + code + seq!['m'] =~= seq!['\x1b', '[', '3', '5', 'm']);
    }
    if lowercase(color) == seq!['c', 'y', 'a', 'n'] {
        assert(seq!['\x1b', '['] + code + seq!['m'] =~= seq!['\x1b', '[', '3', '6', 'm']);
    }
    if lowercase(color) == seq!['w', 'h', 'i', 't', 'e'] {
        assert(seq!['\x1b', '['] + code + seq!['m'] =~= seq!['\x1b', '[', '3', '7', 'm']);
    }
    if code == seq!['3', '9'] {
        assert(seq!['\x1b', '['] + code + seq!['m'] =~= seq!['\x1b', '[', '3', '9', 'm']);
    }
}


/// In a terminal each style is its standard SGR attribute around the text, reset after it:
/// bold 1, italic 3, underline 4, strike-through 9, inline code in reverse video 7, a code
/// block dimmed 2; a link is an OSC 8 hyperlink, a size shows the text alone and an image
/// shows its address.
pub proof fn ansi_styles(r: AnsiRenderer, content: Seq<char>, param: Seq<char>)
    ensures
        r.spec_bold(content) == seq!['\x1b', '[', '1', 'm'] + content + seq!['\x1b', '[', '0', 'm'],
        r.spec_italic(content) == seq!['\x1b', '[', '3', 'm'] + content + seq!['\x1b', '[', '0', 'm'],
        r.spec_underline(content) == seq!['\x1b', '[', '4', 'm'] + content + seq!['\x1b', '[', '0', 'm'],
        r.spec_strike(content) == seq!['\x1b', '[', '9', 'm'] + content + seq!['\x1b', '[', '0', 'm'],
        r.spec_code(content) == seq!['\x1b', '[', '7', 'm'] + content + seq!['\x1b', '[', '0', 'm'],
        r.spec_code_block(content) == seq!['\x1b', '[', '2', 'm'] + content + seq!['\x1b', '[', '0', 'm'],
        r.spec_url(param, content) == seq!['\x1b', ']', '8', ';', ';'] + param + seq!['\x1b', '\\'] + content + seq!['\x1b', ']', '8', ';', ';', '\x1b', '\\'],
        r.spec_image(param) == seq!['[', 'I', 'm', 'a', 'g', 'e', ':', ' '] + param + seq![']'],
{
    reveal_strlit("\x1b[0m");
    assert("\x1b[0m"@ =~= seq!['\x1b', '[', '0', 'm']);
    reveal_strlit("\x1b[1m");
    assert("\x1b[1m"@ =~= seq!['\x1b', '[', '1', 'm']);
    reveal_strlit("\x1b[2m");
    assert("\x1b[2m"@ =~= seq!['\x1b', '[', '2', 'm']);
    reveal_strlit("\x1b[3m");
    assert("\x1b[3m"@ =~= seq!['\x1b', '[', '3', 'm']);
    reveal_strlit("\x1b[4m");
    assert("\x1b[4m"@ =~= seq!['\x1b', '[', '4', 'm']);
    reveal_strlit("\x1b[7m");
    assert("\x1b[7m"@ =~= seq!['\x1b', '[', '7', 'm']);
    reveal_strlit("\x1b[9m");
    assert("\x1b[9m"@ =~= seq!['\x1b', '[', '9', 'm']);
    reveal_strlit("\x1b\\");
    assert("\x1b\\"@ =~= seq!['\x1b', '\\']);
    reveal_strlit("\x1b]8;;");
    assert("\x1b]8;;"@ =~= seq!['\x1b', ']', '8', ';', ';']);
    reveal_strlit("\x1b]8;;\x1b\\");
    assert("\x1b]8;;\x1b\\"@ =~= seq!['\x1b', ']', '8', ';', ';', '\x1b', '\\']);
    reveal_strlit("[Image: ");
    assert("[Image: "@ =~= seq!['[', 'I', 'm', 'a', 'g', 'e', ':', ' ']);
    reveal_strlit("]");
    assert("]"@ =~= seq![']']);
}

/// In HTML each style is its element around the text: bold `strong`, italic `em`,
/// underline `u`, strike-through `s`, inline code `code`, a code block `pre` holding
/// `code`; a color and a size are `span` styles, a link an `a` with its address, an image
/// an `img` with its source.
pub proof fn html_elements(r: HtmlRenderer, content: Seq<char>, param: Seq<char>)
    ensures
        r.spec_bold(content) == seq!['<', 's', 't', 'r', 'o', 'n', 'g', '>'] + content + seq!['<', '/', 's', 't', 'r', 'o', 'n', 'g', '>'],
        r.spec_italic(content) == seq!['<', 'e', 'm', '>'] + content + seq!['<', '/', 'e', 'm', '>'],
        r.spec_underline(content) == seq!['<', 'u', '>'] + content + seq!['<', '/', 'u', '>'],
        r.spec_strike(content) == seq!['<', 's', '>'] + content + seq!['<', '/', 's', '>'],
        r.spec_code(content) == seq!['<', 'c', 'o', 'd', 'e', '>'] + content + seq!['<', '/', 'c', 'o', 'd', 'e', '>'],
        r.spec_code_block(content) == seq!['<', 'p', 'r', 'e', '>', '<', 'c', 'o', 'd', 'e', '>'] + content + seq!['<', '/', 'c', 'o', 'd', 'e', '>', '<', '/', 'p', 'r', 'e', '>'],
        r.spec_color(param, content) == seq!['<', 's', 'p', 'a', 'n', ' ', 's', 't', 'y', 'l', 'e', '=', '"', 'c', 'o', 'l', 'o', 'r', ':', ' '] + param + seq!['"', '>'] + content + seq!['<', '/', 's', 'p', 'a', 'n', '>'],
        r.spec_size(param, content) == seq!['<', 's', 'p', 'a', 'n', ' ', 's', 't', 'y', 'l', 'e', '=', '"', 'f', 'o', 'n', 't', '-', 's', 'i', 'z', 'e', ':', ' '] + param + seq!['p', 'x', '"', '>'] + content + seq!['<', '/', 's', 'p', 'a', 'n', '>'],
        r.spec_url(param, content) == seq!['<', 'a', ' ', 'h', 'r', 'e', 'f', '=', '"'] + param + seq!['"', '>'] + content + seq!['<', '/', 'a', '>'],
        r.spec_image(param) == seq!['<', 'i', 'm', 'g', ' ', 's', 'r', 'c', '=', '"'] + param + seq!['"', ' ', '/', '>'],
{
    reveal_strlit("\" />");
    assert("\" />"@ =~= seq!['"', ' ', '/', '>']);
    reveal_strlit("\">");
    assert("\">"@ =~= seq!['"', '>']);
    reveal_strlit("</a>");
    assert("</a>"@ =~= seq!['<', '/', 'a', '>']);
    reveal_strlit("</code>");
    assert("</code>"@ =~= seq!['<', '/', 'c', 'o', 'd', 'e', '>']);
    reveal_strlit("</code></pre>");
    assert("</code></pre>"@ =~= seq!['<', '/', 'c', 'o', 'd', 'e', '>', '<', '/', 'p', 'r', 'e', '>']);
    reveal_strlit("</em>");
    assert("</em>"@ =~= seq!['<', '/', 'e', 'm', '>']);
    reveal_strlit("</s>");
    assert("</s>"@ =~= seq!['<', '/', 's', '>']);
    reveal_strlit("</span>");
    assert("</span>"@ =~= seq!['<', '/', 's', 'p', 'a', 'n', '>']);
    reveal_strlit("</strong>");
    assert("</strong>"@ =~= seq!['<', '/', 's', 't', 'r', 'o', 'n', 'g', '>']);
    reveal_strlit("</u>");
    assert("</u>"@ =~= seq!['<', '/', 'u', '>']);
    reveal_strlit("<a href=\"");
    assert("<a href=\""@ =~= seq!['<', 'a', ' ', 'h', 'r', 'e', 'f', '=', '"']);
    reveal_strlit("<code>");
    assert("<code>"@ =~= seq!['<', 'c', 'o', 'd', 'e', '>']);
    reveal_strlit("<em>");
    assert("<em>"@ =~= seq!['<', 'e', 'm', '>']);
    reveal_strlit("<img src=\"");
    assert("<img src=\""@ =~= seq!['<', 'i', 'm', 'g', ' ', 's', 'r', 'c', '=', '"']);
    reveal_strlit("<pre><code>");
    assert("<pre><code>"@ =~= seq!['<', 'p', 'r', 'e', '>', '<', 'c', 'o', 'd', 'e', '>']);
    reveal_strlit("<s>");
    assert("<s>"@ =~= seq!['<', 's', '>']);
    reveal_strlit("<span style=\"color: ");
    assert("<span style=\"color: "@ =~= seq!['<', 's', 'p', 'a', 'n', ' ', 's', 't', 'y', 'l', 'e', '=', '"', 'c', 'o', 'l', 'o', 'r', ':', ' ']);
    reveal_strlit("<span style=\"font-size: ");
    assert("<span style=\"font-size: "@ =~= seq!['<', 's', 'p', 'a', 'n', ' ', 's', 't', 'y', 'l', 'e', '=', '"', 'f', 'o', 'n', 't', '-', 's', 'i', 'z', 'e', ':', ' ']);
    reveal_strlit("<strong>");
    assert("<strong>"@ =~= seq!['<', 's', 't', 'r', 'o', 'n', 'g', '>']);
    reveal_strlit("<u>");
    assert("<u>"@ =~= seq!['<', 'u', '>']);
    reveal_strlit("px\">");
    assert("px\">"@ =~= seq!['p', 'x', '"', '>']);
}


/// As plain text, styles, colors, sizes and code show the text alone; a link shows its
/// text followed by its address in brackets, or the address alone where the two are the
/// same; an image shows its address.
pub proof fn plain_text_shows_content(r: PlainTextRenderer, content: Seq<char>, param: Seq<char>)
    ensures
        r.spec_bold(content) == content,
        r.spec_italic(content) == content,
        r.spec_underline(content) == content,
        r.spec_strike(content) == content,
        r.spec_color(param, content) == content,
        r.spec_size(param, content) == content,
        r.spec_code(content) == content,
        r.spec_code_block(content) == content,
        r.spec_url(param, param) == param,
        content != param ==> r.spec_url(param, content) == content + seq![' ', '('] + param
            + seq![')'],
        r.spec_image(param) == seq!['[', 'I', 'm', 'a', 'g', 'e', ':', ' '] + param + seq![']'],
{
    reveal_strlit(" (");
    reveal_strlit(")");
    reveal_strlit("[Image: ");
    reveal_strlit("]");
    assert(" ("@ =~= seq![' ', '(']);
    assert(")"@ =~= seq![')']);
    assert("[Image: "@ =~= seq!['[', 'I', 'm', 'a', 'g', 'e', ':', ' ']);
    assert("]"@ =~= seq![']']);
}

} // verus!
