use tslib::bbcode::{strip_bbcode, BBCodeParser};

#[test]
fn calm_text_passes_through_every_renderer() {
    let s = "plain words, 42 of them. nothing else";
    assert_eq!(BBCodeParser::to_html(s), s);
    assert_eq!(BBCodeParser::to_plain(s), s);
    assert_eq!(BBCodeParser::to_ansi(s), s);
    assert_eq!(strip_bbcode(s), s);
    assert_eq!(BBCodeParser::to_html(""), "");
}
