use csml::number::{i64_to_string, parse_i64};

#[test]
fn parse_i64_reads_decimal_text() {
    assert_eq!(parse_i64("42"), Some(42));
    assert_eq!(parse_i64("+7"), Some(7));
    assert_eq!(parse_i64("-15"), Some(-15));
    assert_eq!(parse_i64("007"), Some(7));
    assert_eq!(parse_i64("9223372036854775807"), Some(i64::MAX));
    assert_eq!(parse_i64("-9223372036854775808"), Some(i64::MIN));
}

#[test]
fn parse_i64_refuses_what_std_refuses() {
    for s in ["", "-", "+", "1a", " 1", "1 ", "9223372036854775808", "-9223372036854775809", "--1", "1_000"] {
        assert_eq!(parse_i64(s), None, "{:?}", s);
        assert!(s.parse::<i64>().is_err());
    }
}

#[test]
fn i64_to_string_writes_decimal_text() {
    assert_eq!(i64_to_string(0), "0");
    assert_eq!(i64_to_string(10), "10");
    assert_eq!(i64_to_string(-305), "-305");
    assert_eq!(i64_to_string(i64::MIN), i64::MIN.to_string());
    assert_eq!(i64_to_string(i64::MAX), i64::MAX.to_string());
}

#[test]
fn decimal_text_reads_back() {
    for v in [0i64, 1, -1, 99, 1000, i64::MIN, i64::MAX] {
        assert_eq!(parse_i64(&i64_to_string(v)), Some(v));
    }
}
