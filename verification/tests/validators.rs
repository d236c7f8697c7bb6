use rust_api::validators::{
    validate_ca_postal, validate_custom, validate_email, validate_matches, validate_max_length,
    pattern_verdict, validate_min_length, validate_non_empty, validate_phone_e164, validate_range, validate_url,
    validate_us_zip, validate_uuid,
};

#[test]
fn email_accepts_valid() {
    assert!(validate_email("e", "user@example.com").is_ok());
    assert!(validate_email("e", "a.b+c@sub.domain.io").is_ok());
}

#[test]
fn email_rejects_invalid() {
    assert!(validate_email("e", "notanemail").is_err());
    assert!(validate_email("e", "@missing.local").is_err());
    assert!(validate_email("e", "missing@").is_err());
}

#[test]
fn url_accepts_valid() {
    assert!(validate_url("u", "https://example.com").is_ok());
    assert!(validate_url("u", "http://foo.bar/baz?q=1").is_ok());
}

#[test]
fn url_rejects_invalid() {
    assert!(validate_url("u", "ftp://not-http.com").is_err());
    assert!(validate_url("u", "not a url").is_err());
}

#[test]
fn uuid_accepts_valid_v4() {
    assert!(validate_uuid("id", "550e8400-e29b-41d4-a716-446655440000").is_ok());
    assert!(validate_uuid("id", "f47ac10b-58cc-4372-a567-0e02b2c3d479").is_ok());
    // v1 UUID (version byte is 1, not 4) — should fail
    assert!(validate_uuid("id", "550e8400-e29b-11d4-a716-446655440000").is_err());
}

#[test]
fn uuid_rejects_non_uuid() {
    assert!(validate_uuid("id", "not-a-uuid").is_err());
}

#[test]
fn non_empty_accepts_content() {
    assert!(validate_non_empty("f", "hello").is_ok());
}

#[test]
fn non_empty_rejects_blank() {
    assert!(validate_non_empty("f", "").is_err());
    assert!(validate_non_empty("f", "   ").is_err());
}

#[test]
fn min_length_boundary() {
    assert!(validate_min_length("f", "abc", 3).is_ok());
    assert!(validate_min_length("f", "ab", 3).is_err());
}

#[test]
fn max_length_boundary() {
    assert!(validate_max_length("f", "abc", 3).is_ok());
    assert!(validate_max_length("f", "abcd", 3).is_err());
}

#[test]
fn range_inclusive_boundaries() {
    assert!(validate_range("age", 18u32, 18, 120).is_ok());
    assert!(validate_range("age", 120u32, 18, 120).is_ok());
    assert!(validate_range("age", 17u32, 18, 120).is_err());
    assert!(validate_range("age", 121u32, 18, 120).is_err());
}

#[test]
fn us_zip_accepts_valid() {
    assert!(validate_us_zip("z", "12345").is_ok());
    assert!(validate_us_zip("z", "12345-6789").is_ok());
}

#[test]
fn us_zip_rejects_invalid() {
    assert!(validate_us_zip("z", "1234").is_err());
    assert!(validate_us_zip("z", "ABCDE").is_err());
}

#[test]
fn ca_postal_accepts_valid() {
    assert!(validate_ca_postal("p", "K1A 0A9").is_ok());
    assert!(validate_ca_postal("p", "M5V3L9").is_ok());
}

#[test]
fn ca_postal_rejects_invalid() {
    assert!(validate_ca_postal("p", "12345").is_err());
    assert!(validate_ca_postal("p", "Z9Z 9Z9").is_err()); // Z not valid first char
}

#[test]
fn phone_e164_accepts_valid() {
    assert!(validate_phone_e164("p", "+12125551234").is_ok());
    assert!(validate_phone_e164("p", "+447911123456").is_ok());
}

#[test]
fn phone_e164_rejects_invalid() {
    assert!(validate_phone_e164("p", "2125551234").is_err()); // missing +
    assert!(validate_phone_e164("p", "+1").is_err()); // too short
}

#[test]
fn validate_custom_uses_predicate() {
    let reserved = ["admin", "root"];
    assert!(
        validate_custom("username", &"alice", |u| !reserved.contains(u), "reserved").is_ok()
    );
    assert!(
        validate_custom("username", &"admin", |u| !reserved.contains(u), "reserved").is_err()
    );
}

#[test]
fn validate_matches_pattern() {
    assert!(validate_matches("f", "abc123", r"^[a-z0-9]+$").is_ok());
    assert!(validate_matches("f", "ABC", r"^[a-z0-9]+$").is_err());
}

// ---------------------------------------------------------------------------
// Messages and field names
// ---------------------------------------------------------------------------

#[test]
fn each_validator_names_the_field_and_its_message() {
    let cases = [
        (validate_email("email", "x"), "invalid email address"),
        (validate_url("site", "x"), "invalid URL"),
        (validate_uuid("id", "x"), "invalid UUID v4"),
        (validate_non_empty("name", " \t\n"), "must not be empty"),
        (validate_us_zip("zip", "x"), "invalid US ZIP code"),
        (validate_ca_postal("postal", "x"), "invalid Canadian postal code"),
        (validate_phone_e164("phone", "x"), "invalid E.164 phone number"),
    ];
    let fields = ["email", "site", "id", "name", "zip", "postal", "phone"];
    for ((result, message), field) in cases.into_iter().zip(fields) {
        let err = result.unwrap_err();
        assert_eq!(err.field, field);
        assert_eq!(err.message, message);
    }
}

#[test]
fn length_messages_show_the_bound() {
    let err = validate_min_length("username", "ab", 3).unwrap_err();
    assert_eq!(err.field, "username");
    assert_eq!(err.message, "must be at least 3 characters");
    let err = validate_max_length("username", "abcdefghijkl", 10).unwrap_err();
    assert_eq!(err.message, "must be at most 10 characters");
    let err = validate_min_length("f", "", 1234567).unwrap_err();
    assert_eq!(err.message, "must be at least 1234567 characters");
    let err = validate_max_length("f", "a", 0).unwrap_err();
    assert_eq!(err.message, "must be at most 0 characters");
}

#[test]
fn lengths_count_characters_not_bytes() {
    // Four characters, twelve bytes in UTF-8.
    assert!(validate_max_length("f", "日本語字", 4).is_ok());
    assert!(validate_min_length("f", "日本語字", 5).is_err());
    assert!(validate_min_length("f", "", 0).is_ok());
}

#[test]
fn range_message_shows_the_bounds() {
    let err = validate_range("age", 17u32, 18, 120).unwrap_err();
    assert_eq!(err.field, "age");
    assert_eq!(err.message, "must be between 18 and 120");
    let err = validate_range("temp", -5i64, -3, 7).unwrap_err();
    assert_eq!(err.message, "must be between -3 and 7");
    assert!(validate_range("c", 'm', 'a', 'z').is_ok());
}

#[test]
fn matches_reports_a_bad_pattern_as_a_failure() {
    let err = validate_matches("f", "abc", "(unclosed").unwrap_err();
    assert_eq!(err.field, "f");
    assert_eq!(err.message, "invalid validation pattern (framework error)");
    let err = validate_matches("f", "ABC", "^[a-z]+$").unwrap_err();
    assert_eq!(err.message, "does not match required pattern");
    // The pattern is searched for, not anchored, unless it says so.
    assert!(validate_matches("f", "xxabcxx", "abc").is_ok());
}

#[test]
fn custom_error_carries_the_message() {
    let err = validate_custom("handle", &7u32, |n: &u32| *n % 2 == 0, "must be even").unwrap_err();
    assert_eq!(err.field, "handle");
    assert_eq!(err.message, "must be even");
    assert!(validate_custom("handle", &8u32, |n: &u32| *n % 2 == 0, "must be even").is_ok());
}

#[test]
fn non_empty_trims_unicode_white_space() {
    // U+3000 IDEOGRAPHIC SPACE and U+00A0 NO-BREAK SPACE are white space.
    assert!(validate_non_empty("f", "\u{3000}\u{a0}").is_err());
    assert!(validate_non_empty("f", " x ").is_ok());
}

#[test]
fn pattern_verdict_decides_from_the_regex_outcome() {
    assert!(pattern_verdict("f", true, true).is_ok());
    let e = pattern_verdict("f", true, false).unwrap_err();
    assert_eq!((e.field.as_str(), e.message.as_str()), ("f", "does not match required pattern"));
    let e = pattern_verdict("g", false, true).unwrap_err();
    assert_eq!(e.field, "g");
    assert_eq!(e.message, "invalid validation pattern (framework error)");
    assert!(pattern_verdict("g", false, false).is_err());
}

#[test]
fn url_refuses_white_space_after_the_scheme() {
    assert!(validate_url("u", "http://a b").is_err());
    assert!(validate_url("u", "https://a\tb.com").is_err());
    assert!(validate_url("u", "http://ab").is_ok());
    assert!(validate_url("u", "http://a").is_err());
    assert!(validate_url("u", "http:// ab").is_err());
}
