use grep_cli::sanitize::sanitize;

#[test]
fn escapes_controls_and_bidi() {
    assert_eq!(
        sanitize("a\x1b[31m\u{202e}z\u{0085}"),
        "a\\u{001B}[31m\\u{202E}z\\u{0085}"
    );
}

#[test]
fn keeps_normal_unicode() {
    assert_eq!(sanitize("東京 café"), "東京 café");
}

#[test]
fn escapes_every_control_range_with_four_hex_digits() {
    assert_eq!(sanitize("\u{0}"), "\\u{0000}");
    assert_eq!(sanitize("\n\t"), "\\u{000A}\\u{0009}");
    assert_eq!(sanitize("\u{7f}\u{9f}\u{a0}"), "\\u{007F}\\u{009F}\u{a0}");
    assert_eq!(sanitize("\u{61c}\u{200e}\u{200f}"), "\\u{061C}\\u{200E}\\u{200F}");
    assert_eq!(sanitize("\u{2066}\u{2069}\u{206a}"), "\\u{2066}\\u{2069}\u{206a}");
}

#[test]
fn sanitizing_twice_changes_nothing_more() {
    let once = sanitize("x\u{1b}\u{202a}y");
    assert_eq!(sanitize(&once), once);
}

#[test]
fn white_space_matches_the_standard_library() {
    for code in 0u32..=0x10FFFF {
        if let Some(c) = char::from_u32(code) {
            assert_eq!(grep_cli::text::char_is_whitespace(c), c.is_whitespace(), "{code:#x}");
        }
    }
}
