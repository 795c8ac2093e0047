use broker::text::{char_is_whitespace, is_all_ascii_digits, parse_i64, parse_u64, str_eq, trim};

#[test]
fn trims_unicode_whitespace_like_str_trim() {
    for s in ["  a b  ", "\u{a0}x\u{2028}", "", "   ", "\t\n12\r", "\u{3000}y"] {
        assert_eq!(trim(s), s.trim());
    }
    assert!(char_is_whitespace('\u{85}'));
    assert!(!char_is_whitespace('\u{200b}'));
}

#[test]
fn parses_integers_like_str_parse() {
    for s in ["0", "+0", "-0", "12", "+12", "-12", "", "+", "-", "1 2", "007", "18446744073709551615",
        "18446744073709551616", "9223372036854775807", "9223372036854775808",
        "-9223372036854775808", "-9223372036854775809", "١٢"]
    {
        assert_eq!(parse_u64(s), s.parse::<u64>().ok(), "u64 {s:?}");
        assert_eq!(parse_i64(s), s.parse::<i64>().ok(), "i64 {s:?}");
    }
}

#[test]
fn compares_and_classifies_text() {
    assert!(str_eq("abc", "abc"));
    assert!(!str_eq("abc", "abd"));
    assert!(!str_eq("ab", "abc"));
    assert!(is_all_ascii_digits("0123456789"));
    assert!(is_all_ascii_digits(""));
    assert!(!is_all_ascii_digits("12a"));
    assert!(!is_all_ascii_digits("١٢"));
}
