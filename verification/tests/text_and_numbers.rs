use stock_analysis::numtext::{int_to_text, parse_amount, parse_i32, parse_i64, parse_threshold, parse_u32, Threshold};
use stock_analysis::text::{
    contains_str, ends_with_str, join_texts, remove_str, split_char, split_whitespace, starts_with_str, trim,
};

#[test]
fn trim_removes_unicode_whitespace_at_both_ends() {
    assert_eq!(trim("  2330\t\n"), "2330");
    assert_eq!(trim("\u{3000}台積電\u{3000}"), "台積電");
    assert_eq!(trim("   "), "");
    assert_eq!(trim("a b"), "a b");
}

#[test]
fn split_whitespace_gives_the_words() {
    assert_eq!(split_whitespace("  2330  price_below\t900.0 "), vec!["2330", "price_below", "900.0"]);
    assert!(split_whitespace("   ").is_empty());
    assert_eq!(split_whitespace("one"), vec!["one"]);
}

#[test]
fn substring_tests() {
    assert!(contains_str("台積電", "積"));
    assert!(contains_str("2330", ""));
    assert!(!contains_str("2330", "2331"));
    assert!(starts_with_str("/abc", "/"));
    assert!(ends_with_str("2330.TWO", ".TWO"));
    assert!(!ends_with_str("TW", ".TW"));
}

#[test]
fn split_keeps_empty_pieces() {
    assert_eq!(split_char("09:30", ':'), vec!["09", "30"]);
    assert_eq!(split_char("a::b", ':'), vec!["a", "", "b"]);
    assert_eq!(split_char("", ':'), vec![""]);
    assert_eq!(split_char("114/01/01", '/'), vec!["114", "01", "01"]);
}

#[test]
fn remove_every_occurrence_left_to_right() {
    assert_eq!(remove_str("2330.TW", ".TW"), "2330");
    assert_eq!(remove_str("6488.TWO", ".TWO"), "6488");
    assert_eq!(remove_str(".TW.TW", ".TW"), "");
    assert_eq!(remove_str("aaa", "aa"), "a");
}

#[test]
fn join_with_separator() {
    let parts = vec!["a".to_string(), "b".to_string(), "c".to_string()];
    assert_eq!(join_texts(&parts, ", "), "a, b, c");
    assert_eq!(join_texts(&vec![], ", "), "");
    assert_eq!(join_texts(&vec!["x".to_string()], "\n\n"), "x");
}

#[test]
fn integer_text_round_trips() {
    for n in [0i64, 7, -7, 10, 8189, -1234567, i64::MAX, i64::MIN] {
        let t = int_to_text(n);
        assert_eq!(t, n.to_string());
        assert_eq!(parse_i64(&t), Some(n));
    }
}

#[test]
fn integer_parsing_matches_std() {
    for s in ["", "+", "-", "12a", " 1", "+5", "-5", "007", "99999999999999999999", "-9223372036854775808", "9223372036854775808"] {
        assert_eq!(parse_i64(s), s.parse::<i64>().ok(), "i64 {s:?}");
        assert_eq!(parse_i32(s), s.parse::<i32>().ok(), "i32 {s:?}");
        assert_eq!(parse_u32(s), s.parse::<u32>().ok(), "u32 {s:?}");
    }
    assert_eq!(parse_u32("-0"), None);
    assert_eq!(parse_i32("2147483648"), None);
    assert_eq!(parse_i32("-2147483648"), Some(i32::MIN));
}

#[test]
fn amounts_read_as_hundredths() {
    assert_eq!(parse_amount("900.0"), Some(90000));
    assert_eq!(parse_amount("900"), Some(90000));
    assert_eq!(parse_amount("2.5"), Some(250));
    assert_eq!(parse_amount("-1.25"), Some(-125));
    assert_eq!(parse_amount(".5"), Some(50));
    assert_eq!(parse_amount("5."), Some(500));
    assert_eq!(parse_amount("+3"), Some(300));
    assert_eq!(parse_amount("0.005"), Some(1));
    assert_eq!(parse_amount("0.004"), Some(0));
    assert_eq!(parse_amount("abc"), None);
    assert_eq!(parse_amount("."), None);
    assert_eq!(parse_amount(""), None);
    assert_eq!(parse_amount("1.2.3"), None);
    assert_eq!(parse_amount("1e3"), Some(100000));
    assert_eq!(parse_amount("1E-2"), Some(1));
    assert_eq!(parse_amount("1.5e1"), Some(1500));
    assert_eq!(parse_amount("+2.5E+2"), Some(25000));
    assert_eq!(parse_amount("-2.5e-1"), Some(-25));
    assert_eq!(parse_amount(".5e-2"), Some(1));
    assert_eq!(parse_amount("4.9e-3"), Some(0));
    assert_eq!(parse_amount("5.e0"), Some(500));
    assert_eq!(parse_amount("0e400"), Some(0));
    assert_eq!(parse_amount("1e-400"), Some(0));
    assert_eq!(parse_amount("92233720368547758.07"), Some(i64::MAX));
    assert_eq!(parse_amount("-92233720368547758.08"), Some(i64::MIN));
    assert_eq!(parse_amount("92233720368547758.08"), Some(i64::MAX));
    assert_eq!(parse_amount("-1e20"), Some(i64::MIN));
    assert_eq!(parse_amount("1e400"), Some(i64::MAX));
    assert_eq!(parse_amount("1e99999999999999999999999"), Some(i64::MAX));
    assert_eq!(parse_amount("1e-99999999999999999999999"), Some(0));
    assert_eq!(parse_amount("1e"), None);
    assert_eq!(parse_amount("e5"), None);
    assert_eq!(parse_amount(".e5"), None);
    assert_eq!(parse_amount("1e+"), None);
    assert_eq!(parse_amount("1e2.5"), None);
    assert_eq!(parse_amount("inf"), None);
    assert_eq!(parse_amount("NaN"), None);
}

#[test]
fn thresholds_read_as_floats() {
    assert_eq!(parse_threshold("900.5"), Some(Threshold::Amount(90050)));
    assert_eq!(parse_threshold("1e20"), Some(Threshold::Amount(i64::MAX)));
    assert_eq!(parse_threshold("inf"), Some(Threshold::PlusInfinity));
    assert_eq!(parse_threshold("+Infinity"), Some(Threshold::PlusInfinity));
    assert_eq!(parse_threshold("-INF"), Some(Threshold::MinusInfinity));
    assert_eq!(parse_threshold("NaN"), Some(Threshold::NotANumber));
    assert_eq!(parse_threshold("-nan"), Some(Threshold::NotANumber));
    assert_eq!(parse_threshold("infin"), None);
    assert_eq!(parse_threshold("nan1"), None);
    assert_eq!(parse_threshold("abc"), None);
}
