use kmd_parser::pattern::ends_visibly;
use kmd_parser::text::{
    chars_of, ends_with_hard_break, is_whitespace, line_is_blank, string_from, trimmed,
};

#[test]
fn white_space_is_the_unicode_property() {
    for c in ['\t', '\n', '\u{b}', '\u{c}', '\r', ' ', '\u{85}', '\u{a0}', '\u{1680}'] {
        assert!(is_whitespace(c), "{:?}", c);
    }
    for c in ['\u{2000}', '\u{2005}', '\u{200a}', '\u{2028}', '\u{2029}', '\u{202f}'] {
        assert!(is_whitespace(c), "{:?}", c);
    }
    for c in ['\u{205f}', '\u{3000}'] {
        assert!(is_whitespace(c), "{:?}", c);
    }
    for c in ['\u{8}', '\u{e}', 'a', '#', '*', '\u{84}', '\u{86}', '\u{180e}', '\u{1fff}'] {
        assert!(!is_whitespace(c), "{:?}", c);
    }
    for c in ['\u{200b}', '\u{2027}', '\u{202a}', '\u{2060}', '\u{2fff}', '\u{3001}', '\u{feff}'] {
        assert!(!is_whitespace(c), "{:?}", c);
    }
}

#[test]
fn white_space_agrees_with_std_on_every_character() {
    let mut code: u32 = 0;
    while code <= 0x10ffff {
        if let Some(c) = char::from_u32(code) {
            assert_eq!(is_whitespace(c), c.is_whitespace(), "{:?}", c);
        }
        code += 1;
    }
}

#[test]
fn blank_lines() {
    assert!(line_is_blank(""));
    assert!(line_is_blank(" "));
    assert!(line_is_blank(" \t\u{a0}\u{3000}\n"));
    assert!(!line_is_blank(" a "));
    assert!(!line_is_blank("#"));
    assert!(!line_is_blank("\u{200b}"));
}

#[test]
fn hard_breaks() {
    assert!(ends_with_hard_break("a  "));
    assert!(ends_with_hard_break("  "));
    assert!(ends_with_hard_break("a   "));
    assert!(!ends_with_hard_break("a "));
    assert!(!ends_with_hard_break(" "));
    assert!(!ends_with_hard_break(""));
    assert!(!ends_with_hard_break("a\t\t"));
    assert!(!ends_with_hard_break("a \t"));
    assert!(!ends_with_hard_break("  a"));
}

#[test]
fn trimmed_text() {
    assert_eq!(trimmed(""), "");
    assert_eq!(trimmed("   "), "");
    assert_eq!(trimmed("a"), "a");
    assert_eq!(trimmed("  a b  "), "a b");
    assert_eq!(trimmed("\t\u{a0}a\u{3000}\r\n"), "a");
    assert_eq!(trimmed("a  "), "a");
    assert_eq!(trimmed("  a"), "a");
    assert_eq!(trimmed(" \u{200b} "), "\u{200b}");
    assert_eq!(trimmed("é ü"), "é ü");
}

#[test]
fn trimmed_agrees_with_std() {
    for s in ["", " ", "x", " x", "x ", " x y ", "\u{2003}x\u{2003}", "\n\nx\n", " * ", "##  "] {
        assert_eq!(trimmed(s), s.trim());
        assert_eq!(line_is_blank(s), s.trim().is_empty());
        assert_eq!(ends_with_hard_break(s), s.ends_with("  "));
    }
}

#[test]
fn characters_of_a_string_and_back() {
    assert_eq!(chars_of(""), Vec::<char>::new());
    assert_eq!(chars_of("aé*"), vec!['a', 'é', '*']);
    let chars = vec!['h', 'é', 'l', 'l', 'o'];
    assert_eq!(string_from(&chars, 0, 5), "héllo");
    assert_eq!(string_from(&chars, 1, 3), "él");
    assert_eq!(string_from(&chars, 2, 2), "");
    assert_eq!(string_from(&chars, 5, 5), "");
}

#[test]
fn visible_end_of_a_line() {
    assert!(ends_visibly("a"));
    assert!(ends_visibly(" a"));
    assert!(ends_visibly("a b*"));
    assert!(ends_visibly("a\u{200b}"));
    assert!(ends_visibly("é"));
    assert!(!ends_visibly(""));
    assert!(!ends_visibly(" "));
    assert!(!ends_visibly("a "));
    assert!(!ends_visibly("a\t"));
    assert!(!ends_visibly("a\n"));
    assert!(!ends_visibly("a\u{a0}"));
    assert!(!ends_visibly("a\u{3000}"));
    assert!(!ends_visibly("a\u{85}"));
}

#[test]
fn visible_end_agrees_with_the_last_character() {
    let mut code: u32 = 0;
    while code <= 0x3100 {
        if let Some(c) = char::from_u32(code) {
            let line = format!("x{}", c);
            assert_eq!(ends_visibly(&line), !is_whitespace(c), "{:?}", c);
        }
        code += 1;
    }
}
