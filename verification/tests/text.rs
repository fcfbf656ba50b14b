//! Texts: numbers, white space, parts.

use proxypilot::text::{
    chars_of, decimal_text, equal_but_case, is_before, join, parse_unsigned, same, split_at_first,
    split_at_last, split_on, strip_prefix, text_of, trim, trim_end_of, trim_start_of,
};

#[test]
fn a_written_number_is_read_back() {
    for n in [0, 7, 10, 65535, 65536, u64::MAX] {
        assert_eq!(decimal_text(n), n.to_string());
        assert_eq!(parse_unsigned(&decimal_text(n), u64::MAX), Some(n));
    }
    assert_eq!(parse_unsigned("65536", 65535), None);
    assert_eq!(parse_unsigned("+5", 65535), Some(5));
    assert_eq!(parse_unsigned("", 65535), None);
    assert_eq!(parse_unsigned("+", 65535), None);
    assert_eq!(parse_unsigned("007", 65535), Some(7));
    assert_eq!(parse_unsigned("1x", 65535), None);
}

#[test]
fn texts_are_cut_and_put_together_by_characters() {
    let chars = chars_of("Жa😀");
    assert_eq!(chars, vec!['Ж', 'a', '😀']);
    assert_eq!(text_of(&chars, 1, 3), "a😀");
    assert_eq!(split_on("a;;b", ';'), vec!["a", "", "b"]);
    assert_eq!(join(&split_on("a;;b", ';'), ", "), "a, , b");
    assert_eq!(split_at_first("k=v=w", '='), Some(("k".into(), "v=w".into())));
    assert_eq!(split_at_last("[::1]:80", ':'), Some(("[::1]".into(), "80".into())));
    assert_eq!(split_at_first("k", '='), None);
    assert_eq!(strip_prefix("https://h", "https://"), Some("h".into()));
    assert_eq!(strip_prefix("http", "https://"), None);
}

#[test]
fn white_space_is_that_of_unicode() {
    assert_eq!(trim("\u{a0}\t x \u{2003}\n"), "x");
    assert_eq!(trim(" \u{3000} "), "");
    assert_eq!(trim_start_of("[[x[", '['), "x[");
    assert_eq!(trim_end_of("x]]", ']'), "x");
    for c in '\u{0}'..='\u{ffff}' {
        let s = c.to_string();
        assert_eq!(trim(&s).is_empty(), s.trim().is_empty(), "{:x}", u32::from(c));
    }
}

#[test]
fn texts_are_compared_by_their_characters() {
    assert!(same("Ж", "Ж") && !same("Ж", "ж"));
    assert!(equal_but_case("LocalHost", "localhost"));
    assert!(!equal_but_case("Ж", "ж"));
    for (a, b) in [("", "a"), ("a", "b"), ("rc.1", "rc.2"), ("rc", "rc.1"), ("z", "Ж"), ("ﬀ", "😀")] {
        assert!(is_before(a, b) && !is_before(b, a));
        assert_eq!(is_before(a, b), a < b);
    }
}
