use csml::tools::{trunc, validate_api_key, MAX_LABEL_BYTES};

#[test]
fn trunc_keeps_short_labels() {
    assert_eq!(trunc("bot_id"), "bot_id");
    assert_eq!(trunc(""), "");
    let exact = "x".repeat(256);
    assert_eq!(trunc(&exact), exact.as_str());
}

#[test]
fn trunc_cuts_long_ascii_labels_at_limit() {
    let long = "a".repeat(300);
    let cut = trunc(&long);
    assert_eq!(cut.len(), MAX_LABEL_BYTES);
    assert_eq!(cut, &long[..256]);
}

#[test]
fn trunc_cuts_at_char_boundary() {
    // 255 one-byte chars, then a two-byte char spanning bytes 255..257.
    let s = format!("{}é{}", "a".repeat(255), "b".repeat(10));
    let cut = trunc(&s);
    assert_eq!(cut.len(), 255);
    assert_eq!(cut, "a".repeat(255));
    // Four-byte chars: 64 of them fill exactly 256 bytes.
    let emoji = "😀".repeat(70);
    assert_eq!(trunc(&emoji).len(), 256);
    assert_eq!(trunc(&emoji), "😀".repeat(64));
}

#[test]
fn trunc_is_idempotent() {
    let s = format!("{}é{}", "a".repeat(255), "b".repeat(10));
    let once = trunc(&s);
    assert_eq!(trunc(once), once);
    let long = "z".repeat(1000);
    assert_eq!(trunc(trunc(&long)), trunc(&long));
}

#[test]
fn api_key_unconfigured_lets_everything_through() {
    assert_eq!(validate_api_key(None, None), None);
    assert_eq!(validate_api_key(None, Some("anything")), None);
    assert_eq!(validate_api_key(Some(""), None), None);
}

#[test]
fn api_key_missing_header() {
    assert_eq!(
        validate_api_key(Some("k1,k2"), None),
        Some("Missing X-Api-Key in header".to_owned())
    );
}

#[test]
fn api_key_invalid_header() {
    let invalid = Some("Invalid X-Api-Key".to_owned());
    assert_eq!(validate_api_key(Some("k1,k2"), Some("")), invalid);
    assert_eq!(validate_api_key(Some("k1,k2"), Some("k3")), invalid);
    assert_eq!(validate_api_key(Some("k1,k2"), Some("k1,k2")), invalid);
    assert_eq!(validate_api_key(Some("k1,k2"), Some("k")), invalid);
    assert_eq!(validate_api_key(Some("k1,,k2"), Some("")), invalid);
    assert_eq!(validate_api_key(Some("k1, k2"), Some("k2")), invalid);
}

#[test]
fn api_key_valid_header() {
    assert_eq!(validate_api_key(Some("k1,k2"), Some("k1")), None);
    assert_eq!(validate_api_key(Some("k1,k2"), Some("k2")), None);
    assert_eq!(validate_api_key(Some("solo"), Some("solo")), None);
    assert_eq!(validate_api_key(Some("k1, k2"), Some(" k2")), None);
}
