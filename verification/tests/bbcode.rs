use tslib::bbcode::{strip_bbcode, BBCodeParser};
#[test]
fn test_bold() {
    assert_eq!(
        BBCodeParser::to_html("[b]test[/b]"),
        "<strong>test</strong>"
    );
}

#[test]
fn test_color() {
    assert_eq!(
        BBCodeParser::to_html("[color=red]test[/color]"),
        "<span style=\"color: red\">test</span>"
    );
}

#[test]
fn test_strip() {
    assert_eq!(strip_bbcode("[b]hello[/b] [i]world[/i]"), "hello world");
}

#[test]
fn italic_html() {
    assert_eq!(BBCodeParser::to_html("[i]x[/i]"), "<em>x</em>");
}

#[test]
fn underline_html() {
    assert_eq!(BBCodeParser::to_html("[u]x[/u]"), "<u>x</u>");
}

#[test]
fn strike_html() {
    assert_eq!(BBCodeParser::to_html("[s]x[/s]"), "<s>x</s>");
}

#[test]
fn url_with_param() {
    assert_eq!(
        BBCodeParser::to_html("[url=https://ex.com]click[/url]"),
        "<a href=\"https://ex.com\">click</a>"
    );
}

#[test]
fn url_simple() {
    assert_eq!(
        BBCodeParser::to_html("[url]https://ex.com[/url]"),
        "<a href=\"https://ex.com\">https://ex.com</a>"
    );
}

#[test]
fn image_tag() {
    assert_eq!(
        BBCodeParser::to_html("[img]pic.png[/img]"),
        "<img src=\"pic.png\" />"
    );
}

#[test]
fn nested_bold_italic() {
    // Inner tags processed first
    let result = BBCodeParser::to_html("[b][i]text[/i][/b]");
    assert_eq!(result, "<strong><em>text</em></strong>");
}

#[test]
fn plain_text_url_different_text() {
    let result = BBCodeParser::to_plain("[url=https://ex.com]click[/url]");
    assert_eq!(result, "click (https://ex.com)");
}

#[test]
fn plain_text_url_same_text() {
    let result = BBCodeParser::to_plain("[url]https://ex.com[/url]");
    assert_eq!(result, "https://ex.com");
}

#[test]
fn plain_text_image() {
    assert_eq!(BBCodeParser::to_plain("[img]pic.png[/img]"), "[Image: pic.png]");
}

#[test]
fn ansi_bold() {
    let result = BBCodeParser::to_ansi("[b]hi[/b]");
    assert_eq!(result, "\x1b[1mhi\x1b[0m");
}

#[test]
fn ansi_color_red() {
    let result = BBCodeParser::to_ansi("[color=red]err[/color]");
    assert_eq!(result, "\x1b[31merr\x1b[0m");
}

#[test]
fn ansi_unknown_color_uses_default() {
    let result = BBCodeParser::to_ansi("[color=#ff0000]x[/color]");
    assert_eq!(result, "\x1b[39mx\x1b[0m");
}

#[test]
fn no_tags_unchanged() {
    assert_eq!(BBCodeParser::to_html("plain text"), "plain text");
    assert_eq!(BBCodeParser::to_plain("plain text"), "plain text");
}

#[test]
fn malformed_tags_unchanged() {
    // Unclosed tags remain as-is
    assert_eq!(BBCodeParser::to_html("[b]open"), "[b]open");
}

#[test]
fn size_html() {
    assert_eq!(
        BBCodeParser::to_html("[size=12]big[/size]"),
        "<span style=\"font-size: 12px\">big</span>"
    );
}

// --- Markdown support tests ---

#[test]
fn md_bold_html() {
    assert_eq!(
        BBCodeParser::to_html("**bold**"),
        "<strong>bold</strong>"
    );
}

#[test]
fn md_bold_plain() {
    assert_eq!(BBCodeParser::to_plain("**bold**"), "bold");
}

#[test]
fn md_bold_ansi() {
    assert_eq!(
        BBCodeParser::to_ansi("**bold**"),
        "\x1b[1mbold\x1b[0m"
    );
}

#[test]
fn md_italic_html() {
    assert_eq!(
        BBCodeParser::to_html("*italic*"),
        "<em>italic</em>"
    );
}

#[test]
fn md_italic_plain() {
    assert_eq!(BBCodeParser::to_plain("*italic*"), "italic");
}

#[test]
fn md_italic_ansi() {
    assert_eq!(
        BBCodeParser::to_ansi("*italic*"),
        "\x1b[3mitalic\x1b[0m"
    );
}

#[test]
fn md_strikethrough_html() {
    assert_eq!(
        BBCodeParser::to_html("~~struck~~"),
        "<s>struck</s>"
    );
}

#[test]
fn md_strikethrough_plain() {
    assert_eq!(BBCodeParser::to_plain("~~struck~~"), "struck");
}

#[test]
fn md_strikethrough_ansi() {
    assert_eq!(
        BBCodeParser::to_ansi("~~struck~~"),
        "\x1b[9mstruck\x1b[0m"
    );
}

#[test]
fn md_inline_code_html() {
    assert_eq!(
        BBCodeParser::to_html("`code here`"),
        "<code>code here</code>"
    );
}

#[test]
fn md_inline_code_plain() {
    assert_eq!(BBCodeParser::to_plain("`code here`"), "code here");
}

#[test]
fn md_inline_code_ansi() {
    assert_eq!(
        BBCodeParser::to_ansi("`code here`"),
        "\x1b[7mcode here\x1b[0m"
    );
}

#[test]
fn md_code_block_html() {
    assert_eq!(
        BBCodeParser::to_html("```\nhello\n```"),
        "<pre><code>hello\n</code></pre>"
    );
}

#[test]
fn md_code_block_with_lang_html() {
    assert_eq!(
        BBCodeParser::to_html("```python\nprint(1)\n```"),
        "<pre><code>print(1)\n</code></pre>"
    );
}

#[test]
fn md_code_block_ansi() {
    assert_eq!(
        BBCodeParser::to_ansi("```\nhello\n```"),
        "\x1b[2mhello\n\x1b[0m"
    );
}

#[test]
fn md_code_protects_content() {
    // Markdown inside backticks should NOT be parsed
    assert_eq!(
        BBCodeParser::to_html("`**not bold**`"),
        "<code>**not bold**</code>"
    );
}

#[test]
fn md_code_block_protects_content() {
    // BBCode inside fenced code should NOT be parsed
    assert_eq!(
        BBCodeParser::to_html("```\n[b]not bold[/b]\n```"),
        "<pre><code>[b]not bold[/b]\n</code></pre>"
    );
}

#[test]
fn md_mixed_with_bbcode() {
    assert_eq!(
        BBCodeParser::to_html("[b]bb[/b] **md**"),
        "<strong>bb</strong> <strong>md</strong>"
    );
}

#[test]
fn md_lone_asterisk_unchanged() {
    // A single * surrounded by spaces should not be converted
    assert_eq!(BBCodeParser::to_html("a * b"), "a * b");
}

#[test]
fn md_bold_italic_combined() {
    // ***text*** → bold wraps italic
    assert_eq!(
        BBCodeParser::to_html("***text***"),
        "<strong><em>text</em></strong>"
    );
}

// --- Underscore variants ---

#[test]
fn md_underscore_italic_html() {
    assert_eq!(
        BBCodeParser::to_html("_italic_"),
        "<em>italic</em>"
    );
}

#[test]
fn md_underscore_bold_html() {
    assert_eq!(
        BBCodeParser::to_html("__bold__"),
        "<strong>bold</strong>"
    );
}

#[test]
fn md_underscore_bold_italic_html() {
    assert_eq!(
        BBCodeParser::to_html("___both___"),
        "<strong><em>both</em></strong>"
    );
}

#[test]
fn md_underscore_in_identifier_unchanged() {
    // foo_bar_baz should NOT become italic
    assert_eq!(BBCodeParser::to_html("foo_bar_baz"), "foo_bar_baz");
}

#[test]
fn md_underscore_italic_in_sentence() {
    assert_eq!(
        BBCodeParser::to_html("this is _important_ stuff"),
        "this is <em>important</em> stuff"
    );
}

// --- Checkboxes ---

#[test]
fn md_checkbox_checked() {
    assert_eq!(
        BBCodeParser::to_html("- [x] done"),
        "☑ done"
    );
}

#[test]
fn md_checkbox_unchecked() {
    assert_eq!(
        BBCodeParser::to_html("- [ ] todo"),
        "☐ todo"
    );
}

#[test]
fn md_checkbox_star() {
    assert_eq!(
        BBCodeParser::to_html("* [x] yes"),
        "☑ yes"
    );
}

// --- List items ---

#[test]
fn md_list_dash() {
    assert_eq!(
        BBCodeParser::to_html("- item one\n- item two"),
        "• item one\n• item two"
    );
}

#[test]
fn md_list_star() {
    assert_eq!(
        BBCodeParser::to_html("* first\n* second"),
        "• first\n• second"
    );
}

#[test]
fn md_list_indented() {
    assert_eq!(
        BBCodeParser::to_html("  - nested"),
        "  • nested"
    );
}

// --- Smileys ---

#[test]
fn smiley_smile() {
    assert_eq!(BBCodeParser::to_html("hello :)"), "hello 🙂");
}

#[test]
fn smiley_sad() {
    assert_eq!(BBCodeParser::to_html("oh no :("), "oh no 🙁");
}

#[test]
fn smiley_heart() {
    assert_eq!(BBCodeParser::to_html("love <3"), "love ❤\u{fe0f}");
}

#[test]
fn smiley_grin() {
    assert_eq!(BBCodeParser::to_html("haha :D"), "haha 😃");
}

#[test]
fn smiley_not_in_url() {
    // :/ inside a URL should NOT be converted
    let input = "see http://example.com";
    assert_eq!(BBCodeParser::to_html(input), input);
}

#[test]
fn smiley_multiple() {
    assert_eq!(
        BBCodeParser::to_html(":) :D"),
        "🙂 😃"
    );
}

#[test]
fn smiley_with_punctuation() {
    assert_eq!(
        BBCodeParser::to_html("nice :)!"),
        "nice 🙂!"
    );
}

#[test]
fn smiley_cry() {
    assert_eq!(BBCodeParser::to_html("so sad :'("), "so sad 😢");
}

// --- Emoji shortcodes ---

#[test]
fn shortcode_smile() {
    assert_eq!(BBCodeParser::to_html(":smile:"), "😄");
}

#[test]
fn shortcode_thumbsup() {
    assert_eq!(BBCodeParser::to_html(":thumbsup:"), "👍");
    assert_eq!(BBCodeParser::to_html(":+1:"), "👍");
}

#[test]
fn shortcode_heart() {
    assert_eq!(BBCodeParser::to_html(":heart:"), "❤️");
}

#[test]
fn shortcode_unknown_unchanged() {
    assert_eq!(BBCodeParser::to_html(":notanemoji:"), ":notanemoji:");
}

#[test]
fn shortcode_in_sentence() {
    assert_eq!(
        BBCodeParser::to_html("great job :fire: keep going"),
        "great job 🔥 keep going"
    );
}

#[test]
fn shortcode_multiple() {
    assert_eq!(
        BBCodeParser::to_html(":wave: hello :earth_americas:"),
        "👋 hello 🌎"
    );
}

// --- Markdown links ---

#[test]
fn md_link_html() {
    assert_eq!(
        BBCodeParser::to_html("[link](http://example.com)"),
        "<a href=\"http://example.com\">link</a>"
    );
}

#[test]
fn md_link_https() {
    assert_eq!(
        BBCodeParser::to_html("[click](https://example.com/path?q=1)"),
        "<a href=\"https://example.com/path?q=1\">click</a>"
    );
}

#[test]
fn md_link_in_bold() {
    assert_eq!(
        BBCodeParser::to_html("**[click](http://example.com)**"),
        "<strong><a href=\"http://example.com\">click</a></strong>"
    );
}

#[test]
fn md_link_no_protocol_unchanged() {
    // Relative URLs without http(s):// are left as-is
    assert_eq!(
        BBCodeParser::to_html("[text](relative/path)"),
        "[text](relative/path)"
    );
}

// --- Markdown images ---

#[test]
fn md_image_html() {
    assert_eq!(
        BBCodeParser::to_html("![img](pic.png)"),
        "<img src=\"pic.png\" />"
    );
}

#[test]
fn md_image_with_title() {
    assert_eq!(
        BBCodeParser::to_html("![alt](pic.png \"my title\")"),
        "<img src=\"pic.png\" />"
    );
}

#[test]
fn md_image_does_not_match_link() {
    // A normal link should NOT become an image
    let result = BBCodeParser::to_html("[link](http://example.com)");
    assert!(!result.contains("<img"));
    assert!(result.contains("<a href"));
}

#[test]
fn md_link_does_not_match_image() {
    // An image should NOT become a link
    let result = BBCodeParser::to_html("![photo](http://example.com/pic.png)");
    assert!(result.contains("<img"));
    assert!(!result.contains("<a href"));
}

// --- Markdown tables ---

#[test]
fn md_table_simple() {
    let input = "| A | B |\n| --- | --- |\n| 1 | 2 |";
    assert_eq!(
        BBCodeParser::to_html(input),
        "<pre><code>| A | B |\n| 1 | 2 |</code></pre>"
    );
}

#[test]
fn md_table_with_alignment() {
    let input = "| Left | Center | Right |\n| :--- | :---: | ---: |\n| a | b | c |";
    assert_eq!(
        BBCodeParser::to_html(input),
        "<pre><code>| Left | Center | Right |\n| a | b | c |</code></pre>"
    );
}

#[test]
fn md_table_with_surrounding_text() {
    let input = "Before\n| A | B |\n| --- | --- |\n| 1 | 2 |\nAfter";
    assert_eq!(
        BBCodeParser::to_html(input),
        "Before\n<pre><code>| A | B |\n| 1 | 2 |</code></pre>\nAfter"
    );
}

#[test]
fn md_table_single_pipe_line_not_table() {
    // A single line starting with | should not be treated as a table
    assert_eq!(
        BBCodeParser::to_html("| just a pipe"),
        "| just a pipe"
    );
}

// --- Ordered lists (already working) ---

#[test]
fn md_ordered_list_with_sub_bullets() {
    let input = "1. First\n   - sub\n2. Second";
    assert_eq!(
        BBCodeParser::to_html(input),
        "1. First\n   • sub\n2. Second"
    );
}
