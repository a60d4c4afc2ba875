use broker::server::text::{clean, sanitize_text, trim};

#[test]
fn trim_removes_surrounding_white_space() {
    assert_eq!(trim("Hello "), "Hello");
    assert_eq!(trim("\tworld\t"), "world");
    assert_eq!(trim("  a b  "), "a b");
    assert_eq!(trim("   \t \n"), "");
    assert_eq!(trim(""), "");
    assert_eq!(trim("x"), "x");
    assert_eq!(trim("\u{a0}\u{2003}x\u{3000}\u{85}"), "x");
    assert_eq!(trim("\u{200b}x"), "\u{200b}x");
}

#[test]
fn trim_agrees_with_the_standard_library() {
    for text in ["", " ", "a", " a", "a ", "\n\ta b\r\n", "\u{1680}\u{2028}z\u{205f}", "é ü"] {
        assert_eq!(trim(text), text.trim());
    }
}

#[test]
fn sanitize_strips_control_characters_but_tab() {
    assert_eq!(sanitize_text("a\u{0}b\u{7}c\u{1b}[0m"), "abc[0m");
    assert_eq!(sanitize_text("a\tb c"), "a\tb c");
    assert_eq!(sanitize_text("line\nbreak\r"), "linebreak");
    assert_eq!(sanitize_text("del\u{7f}"), "del");
    assert_eq!(sanitize_text("é\u{85}ü"), "é\u{85}ü");
    assert_eq!(sanitize_text(""), "");
}

#[test]
fn clean_trims_then_sanitizes() {
    assert_eq!(clean("  he\u{1}llo \n"), "hello");
    assert_eq!(clean("\u{1} x"), " x");
    assert_eq!(clean(" \u{2} "), "");
}
