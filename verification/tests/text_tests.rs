use agent_evaluation::text::{
    blank, contains_chars, is_rate_limit_error, mentions_rate_limit,
    parse_u32, push_decimal, same_text, starts_with, trim, truncate,
};

#[test]
fn truncate_keeps_short_text() {
    assert_eq!(truncate("hello world", 80), "hello world");
}

#[test]
fn truncate_replaces_newlines() {
    assert_eq!(truncate("line one\nline two", 80), "line one line two");
}

#[test]
fn truncate_cuts_long_text_with_ellipsis() {
    let r = truncate("abcdefghij", 5);
    assert_eq!(r, "abcd…");
    assert_eq!(r.chars().count(), 5);
}

#[test]
fn truncate_exact_length_is_unchanged() {
    assert_eq!(truncate("abcde", 5), "abcde");
}

#[test]
fn truncate_counts_characters_not_bytes() {
    assert_eq!(truncate("ééééé", 5), "ééééé");
    assert_eq!(truncate("éééééé", 5), "éééé…");
}

#[test]
fn truncate_empty_text_with_zero_limit() {
    assert_eq!(truncate("", 0), "");
}

#[test]
fn rate_limit_detected_case_insensitively() {
    assert!(is_rate_limit_error("HTTP 429 Too Many Requests"));
    assert!(is_rate_limit_error("Rate Limit exceeded"));
    assert!(is_rate_limit_error("error: RATE_LIMIT_ERROR"));
    assert!(is_rate_limit_error("Anthropic API is Overloaded"));
    assert!(is_rate_limit_error("exceeded Tokens Per Minute"));
    assert!(is_rate_limit_error("too many REQUESTS PER MINUTE"));
    assert!(is_rate_limit_error("Request Rejected by upstream"));
}

#[test]
fn rate_limit_not_detected_in_other_errors() {
    assert!(!is_rate_limit_error("connection refused"));
    assert!(!is_rate_limit_error("timeout after 30s"));
    assert!(!is_rate_limit_error("exit status: 1"));
    assert!(!is_rate_limit_error(""));
}

#[test]
fn rate_limit_uses_unicode_lowercase() {
    // KELVIN SIGN lower-cases to an ASCII `k`.
    assert!(is_rate_limit_error("TO\u{212A}ENS PER MINUTE"));
}

#[test]
fn mentions_rate_limit_is_case_sensitive_on_lowered_text() {
    assert!(mentions_rate_limit("rate limit"));
    assert!(!mentions_rate_limit("RATE LIMIT"));
}

#[test]
fn trim_removes_unicode_white_space() {
    assert_eq!(trim("  hi there \n"), "hi there");
    assert_eq!(trim("\u{3000}x\u{a0}"), "x");
    assert_eq!(trim(" \t\n"), "");
    assert_eq!(trim("a b"), "a b");
}

#[test]
fn blank_matches_trim_is_empty() {
    assert!(blank(""));
    assert!(blank(" \r\n\u{2028}"));
    assert!(!blank(" . "));
}

#[test]
fn parse_u32_accepts_plus_and_digits() {
    assert_eq!(parse_u32("42"), Some(42));
    assert_eq!(parse_u32("+42"), Some(42));
    assert_eq!(parse_u32("007"), Some(7));
    assert_eq!(parse_u32("4294967295"), Some(u32::MAX));
}

#[test]
fn parse_u32_rejects_bad_text() {
    assert_eq!(parse_u32(""), None);
    assert_eq!(parse_u32("+"), None);
    assert_eq!(parse_u32("-1"), None);
    assert_eq!(parse_u32("12a"), None);
    assert_eq!(parse_u32(" 1"), None);
    assert_eq!(parse_u32("4294967296"), None);
    assert_eq!(parse_u32("99999999999x"), None);
}

#[test]
fn parse_u32_agrees_with_std() {
    for s in ["0", "+0", "1", "65535", "4294967295", "4294967296", "", "+", "-0", "1_0", "x"] {
        assert_eq!(parse_u32(s), s.parse::<u32>().ok(), "input {:?}", s);
    }
}

#[test]
fn decimal_then_parse_round_trips() {
    for n in [0u32, 7, 10, 99, 100, 123456, u32::MAX] {
        let mut s = String::new();
        push_decimal(&mut s, n as u64);
        assert_eq!(s, n.to_string());
        assert_eq!(parse_u32(&s), Some(n));
    }
}

#[test]
fn decimal_of_large_u64() {
    let mut s = String::from("x=");
    push_decimal(&mut s, u64::MAX);
    assert_eq!(s, "x=18446744073709551615");
}

#[test]
fn text_comparisons() {
    assert!(same_text("abc", "abc"));
    assert!(!same_text("abc", "abd"));
    assert!(!same_text("abc", "ab"));
    assert!(starts_with("exit status: 2", "exit "));
    assert!(!starts_with("exi", "exit "));
    let hay: Vec<char> = "the quick fox".chars().collect();
    let needle: Vec<char> = "ick".chars().collect();
    assert!(contains_chars(&hay, &needle));
    let missing: Vec<char> = "slow".chars().collect();
    assert!(!contains_chars(&hay, &missing));
    assert!(contains_chars(&hay, &Vec::new()));
}

#[test]
fn rate_limit_marker_survives_surrounding_text_and_case() {
    for s in ["HTTP 429", "rate limit", "Overloaded", "request rejected"] {
        assert!(is_rate_limit_error(s));
        let wrapped = format!("upstream said: {s} (retry later)");
        assert!(is_rate_limit_error(&wrapped));
        assert!(is_rate_limit_error(&s.to_ascii_uppercase()));
    }
    assert!(!is_rate_limit_error(&"connection refused".to_ascii_uppercase()));
}
