use bili_stream::text::{contains_substr, str_eq, strip_quotes};

#[test]
fn substring_search() {
    assert!(contains_substr("https://a.com/x.m3u8?k=1", "m3u8"));
    assert!(!contains_substr("https://a.com/x.flv?k=1", "m3u8"));
    assert!(contains_substr("abc", ""));
    assert!(contains_substr("", ""));
    assert!(!contains_substr("", "a"));
    assert!(contains_substr("aab", "ab"));
}

#[test]
fn string_equality() {
    assert!(str_eq("", ""));
    assert!(str_eq("low", "low"));
    assert!(!str_eq("low", "high"));
    assert!(!str_eq("low", "lower"));
}

#[test]
fn quote_stripping() {
    assert_eq!(strip_quotes("\"https://a.com\""), "https://a.com");
    assert_eq!(strip_quotes("no quotes"), "no quotes");
    assert_eq!(strip_quotes("\"\"\"x\"\""), "x");
    assert_eq!(strip_quotes("\"\"\""), "");
    assert_eq!(strip_quotes(""), "");
    assert_eq!(strip_quotes("a\"b"), "a\"b");
}
