use meshly_core::scan::{cut_line_end, cut_slashes, eq_ignore_ascii_case, parse_unsigned, trim};
use meshly_core::text::{
    chars_of, contains_text, decimal_text, decode_text, same_text, text_precedes,
};

fn chars(s: &str) -> Vec<char> {
    chars_of(s)
}

#[test]
fn numbers_print_in_decimal() {
    for n in [0u64, 7, 10, 99, 100, 12345, u64::MAX] {
        assert_eq!(decimal_text(n), n.to_string());
    }
}

#[test]
fn whitespace_is_that_of_unicode() {
    for code in 0..=0x10ffffu32 {
        if let Some(c) = char::from_u32(code) {
            let trimmed = trim(&vec![c]);
            assert_eq!(trimmed.is_empty(), c.is_whitespace(), "{code:x}");
        }
    }
    assert_eq!(trim(&chars("\u{3000} a b\t\r\n")), chars("a b"));
    assert_eq!(trim(&chars(" \t")), chars(""));
}

#[test]
fn unsigned_numbers_parse_as_usize_does() {
    for s in [
        "", "+", "-", "0", "-0", "+5", "007", "18446744073709551615", "18446744073709551616",
        "99999999999999999999999", " 1", "1 ", "1_0", "١", "12a", "++1",
    ] {
        assert_eq!(parse_unsigned(&chars(s)), s.parse::<usize>().ok(), "{s:?}");
    }
}

#[test]
fn texts_are_cut_and_compared() {
    assert_eq!(cut_line_end(&chars("a\r\n\n\r"), true), chars("a"));
    assert_eq!(cut_line_end(&chars("a\n\r\r"), false), chars("a\n"));
    assert_eq!(cut_slashes(&chars("//a/")), chars("a/"));
    assert!(eq_ignore_ascii_case(&chars("Keep-ALIVE"), "keep-alive"));
    assert!(!eq_ignore_ascii_case(&chars("kelvin\u{212a}"), "kelvink"));
    assert!(contains_text("abcabd", "abd"));
    assert!(contains_text("x", ""));
    assert!(!contains_text("ab", "abc"));
    assert!(same_text("é", "é") && !same_text("a", "b"));
    let samples = ["", "a", "ab", "b", "é", "z", "\u{ffff}", "\u{10000}", "aé"];
    for a in samples {
        for b in samples {
            assert_eq!(text_precedes(a, b), a < b, "{a:?} {b:?}");
        }
    }
}

#[test]
fn bytes_are_decoded_where_they_are_text() {
    assert_eq!(decode_text("xäy".as_bytes(), 1, 3).as_deref(), Some("ä"));
    assert_eq!(decode_text("xäy".as_bytes(), 1, 2), None);
}
