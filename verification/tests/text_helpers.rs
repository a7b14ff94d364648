use sphinx_scraper::text::{dec_string, has_scheme, has_token_sp, has_token_ws, trim_str};

#[test]
fn trim_removes_surrounding_whitespace() {
    assert_eq!(trim_str("  a b \n\t"), "a b");
    assert_eq!(trim_str(""), "");
    assert_eq!(trim_str(" \n "), "");
    assert_eq!(trim_str("x"), "x");
}

#[test]
fn scheme_detection() {
    assert!(has_scheme("https://other.com/x"));
    assert!(!has_scheme("/api/foo"));
    assert!(!has_scheme(""));
    assert!(!has_scheme(":/"));
}

#[test]
fn class_tokens_split_on_single_spaces() {
    assert!(has_token_sp("admonition warning", "admonition"));
    assert!(has_token_sp("admonition warning", "warning"));
    assert!(!has_token_sp("admonition warning", "admon"));
    assert!(has_token_sp("", ""));
    assert!(!has_token_sp("a  b", "a b"));
}

#[test]
fn whitespace_tokens_drop_empty_runs() {
    assert!(has_token_ws("dl  describe", "describe"));
    assert!(!has_token_ws("dl  describe", ""));
    assert!(has_token_ws("\tdescribe\n", "describe"));
}

#[test]
fn decimal_rendering() {
    assert_eq!(dec_string(0), "0");
    assert_eq!(dec_string(7), "7");
    assert_eq!(dec_string(1234), "1234");
}
