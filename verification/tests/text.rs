use tunecraft::text::{
    char_is_whitespace, find_char, push_decimal, push_str, starts_with, str_eq, to_chars,
    trim_bounds,
};

#[test]
fn chars_round_trip() {
    let v = to_chars("héllo");
    assert_eq!(v, vec!['h', 'é', 'l', 'l', 'o']);
    assert!(to_chars("").is_empty());
}

#[test]
fn whitespace_matches_std() {
    for c in [' ', '\t', '\n', '\r', '\u{85}', '\u{a0}', '\u{2003}', '\u{3000}', 'a', '0', '_'] {
        assert_eq!(char_is_whitespace(c), c.is_whitespace(), "{:?}", c);
    }
}

#[test]
fn trim_bounds_match_str_trim() {
    let s = to_chars("  \t hello world \n ");
    let (a, b) = trim_bounds(&s, 0, s.len());
    let got: String = s[a..b].iter().collect();
    assert_eq!(got, "  \t hello world \n ".trim());
    let blank = to_chars("   ");
    let (a, b) = trim_bounds(&blank, 0, 3);
    assert_eq!(a, b);
    let (a, b) = trim_bounds(&s, 5, 10);
    assert_eq!((a, b), (5, 9));
}

#[test]
fn find_char_within_bounds() {
    let s = to_chars("a[b]c]");
    assert_eq!(find_char(&s, ']', 0, s.len()), Some(3));
    assert_eq!(find_char(&s, ']', 4, s.len()), Some(5));
    assert_eq!(find_char(&s, ']', 0, 3), None);
    assert_eq!(find_char(&s, 'z', 0, s.len()), None);
}

#[test]
fn pushing_decimals_and_text() {
    let mut out = Vec::new();
    push_decimal(&mut out, 0);
    push_str(&mut out, " / ");
    push_decimal(&mut out, 18446744073709551615);
    assert_eq!(out.iter().collect::<String>(), "0 / 18446744073709551615");
}

#[test]
fn string_comparisons() {
    assert!(str_eq("abc", "abc"));
    assert!(!str_eq("abc", "abd"));
    assert!(!str_eq("abc", "ab"));
    assert!(starts_with("file:///music", "file://"));
    assert!(starts_with("abc", ""));
    assert!(!starts_with("fil", "file"));
}
