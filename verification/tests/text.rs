use tslib::text::is_ws;

#[test]
fn white_space_matches_the_standard_library_everywhere() {
    for n in 0u32..=0x10FFFF {
        if let Some(c) = char::from_u32(n) {
            assert_eq!(is_ws(c), c.is_whitespace(), "U+{n:04X}");
        }
    }
    let count = (0u32..=0x10FFFF).filter_map(char::from_u32).filter(|c| is_ws(*c)).count();
    assert_eq!(count, 25);
}
