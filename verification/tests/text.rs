use upnp_parser::text::{parse_unsigned, split_text, text_contains, text_eq};

#[test]
fn split_of_empty_text_is_one_empty_piece() {
    assert_eq!(split_text("", ','), vec![String::new()]);
}

#[test]
fn split_keeps_empty_pieces() {
    assert_eq!(split_text("a,,b,", ','), vec!["a", "", "b", ""]);
}

#[test]
fn contains_finds_pattern_anywhere() {
    assert!(text_contains("http-get:*:audio/mpeg:*", "audio"));
    assert!(!text_contains("http-get:*:image/jpeg:*", "audio"));
    assert!(text_contains("abc", ""));
    assert!(!text_contains("ab", "abc"));
}

#[test]
fn text_eq_compares_characters() {
    assert!(text_eq("Sink", "Sink"));
    assert!(!text_eq("Sink", "Sinks"));
    assert!(!text_eq("Sink", "sink"));
}

#[test]
fn unsigned_numbers() {
    assert_eq!(parse_unsigned("37", 255), Some(37));
    assert_eq!(parse_unsigned("+37", 255), Some(37));
    assert_eq!(parse_unsigned("007", 255), Some(7));
    assert_eq!(parse_unsigned("255", 255), Some(255));
    assert_eq!(parse_unsigned("256", 255), None);
    assert_eq!(parse_unsigned("300", 255), None);
    assert_eq!(parse_unsigned("", 255), None);
    assert_eq!(parse_unsigned("+", 255), None);
    assert_eq!(parse_unsigned("-1", 255), None);
    assert_eq!(parse_unsigned(" 1", 255), None);
    assert_eq!(parse_unsigned("18446744073709551615", u64::MAX), Some(u64::MAX));
    assert_eq!(parse_unsigned("18446744073709551616", u64::MAX), None);
}
