use csml::text::{
    contains_char, ends_with_ignore_ascii_case, eq_ignore_ascii_case, is_split_field,
    starts_with_ignore_ascii_case, str_eq, trim, trim_chars, trim_end_chars, Trimmed,
};

#[test]
fn trim_removes_unicode_white_space() {
    assert_eq!(trim("  a b \t\n"), "a b");
    assert_eq!(trim("\u{3000}x\u{a0}"), "x");
    assert_eq!(trim("\u{2028}\u{85}"), "");
    assert_eq!(trim("x\u{200b}"), "x\u{200b}");
    let s = " \u{2003}mixed\u{205f} ";
    assert_eq!(trim(s), s.trim());
}

#[test]
fn trim_chars_removes_one_char_class() {
    assert_eq!(trim_chars("\"\"v\"\"", Trimmed::Char('"')), "v");
    assert_eq!(trim_chars("'v'", Trimmed::Char('"')), "'v'");
    assert_eq!(trim_end_chars("http://x///", Trimmed::Char('/')), "http://x");
    assert_eq!(trim_end_chars("///", Trimmed::Char('/')), "");
}

#[test]
fn case_insensitive_comparisons() {
    assert!(starts_with_ignore_ascii_case("HTTPS://x", "https://"));
    assert!(!starts_with_ignore_ascii_case("htt", "http://"));
    assert!(ends_with_ignore_ascii_case("a/V1/Traces", "/v1/traces"));
    assert!(!ends_with_ignore_ascii_case("a/v1/trace", "/v1/traces"));
    assert!(eq_ignore_ascii_case("DeBuG", "debug"));
    assert!(!eq_ignore_ascii_case("debugs", "debug"));
}

#[test]
fn equality_and_fields() {
    assert!(str_eq("abc", "abc"));
    assert!(!str_eq("abc", "abd"));
    assert!(contains_char("a,b", ','));
    assert!(!contains_char("ab", ','));
    assert!(is_split_field("a,b,c", ',', "b"));
    assert!(is_split_field("a,b,c", ',', "c"));
    assert!(is_split_field("a,,c", ',', ""));
    assert!(!is_split_field("a,b,c", ',', "a,b"));
    assert!(!is_split_field("ab,c", ',', "a"));
}
