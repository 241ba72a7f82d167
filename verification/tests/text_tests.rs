use dyndns::text::{
    char_is_whitespace, decimal_string, find_char_from, push_int, str_equal, trim_bounds,
    trim_matches_str, trim_str,
};

#[test]
fn trim_removes_unicode_whitespace_at_both_ends() {
    assert_eq!(trim_str("  abc \t\n"), "abc");
    assert_eq!(trim_str("\u{2003}a b\u{205f}"), "a b");
    assert_eq!(trim_str("   "), "");
    assert_eq!(trim_str(""), "");
    assert_eq!(trim_str("x"), "x");
    assert_eq!(trim_bounds(" ab "), (1, 3));
}

#[test]
fn whitespace_matches_the_standard_library() {
    for c in ['\t', '\n', '\u{b}', '\u{c}', '\r', ' ', '\u{85}', '\u{a0}', '\u{1680}', '\u{2000}', '\u{200a}', '\u{2028}', '\u{2029}', '\u{202f}', '\u{205f}', '\u{3000}', 'a', '\u{200b}', '\u{feff}', '0', '\u{180e}'] {
        assert_eq!(char_is_whitespace(c), c.is_whitespace(), "{:?}", c);
    }
}

#[test]
fn trim_matches_strips_repeated_characters() {
    assert_eq!(trim_matches_str("\"\"abc\"", '"'), "abc");
    assert_eq!(trim_matches_str("'a'b'", '\''), "a'b");
    assert_eq!(trim_matches_str("''''", '\''), "");
    assert_eq!(trim_matches_str("xyz", '"'), "xyz");
}

#[test]
fn find_char_from_reports_position_or_length() {
    assert_eq!(find_char_from("a=b=c", 0, '='), 1);
    assert_eq!(find_char_from("a=b=c", 2, '='), 3);
    assert_eq!(find_char_from("abc", 0, '='), 3);
    assert_eq!(find_char_from("é=x", 0, '='), 1);
}

#[test]
fn str_equal_compares_characters() {
    assert!(str_equal("abc", "abc"));
    assert!(!str_equal("abc", "abd"));
    assert!(!str_equal("abc", "ab"));
    assert!(str_equal("", ""));
}

#[test]
fn decimal_rendering() {
    assert_eq!(decimal_string(0), "0");
    assert_eq!(decimal_string(7), "7");
    assert_eq!(decimal_string(1234567), "1234567");
    assert_eq!(decimal_string(u64::MAX), u64::MAX.to_string());
}

#[test]
fn signed_decimal_rendering() {
    for n in [0i64, -1, 42, -10003, i64::MIN, i64::MAX] {
        let mut s = String::from("x");
        push_int(&mut s, n);
        assert_eq!(s, format!("x{}", n));
    }
}
