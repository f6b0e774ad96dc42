use oxidarr::auth::{constant_time_eq, first_query_value, is_authorized, ApiKey};

#[test]
fn constant_time_eq_matches_equal_slices() {
    assert!(constant_time_eq(b"same-key", b"same-key"));
}

#[test]
fn constant_time_eq_rejects_different_lengths() {
    assert!(!constant_time_eq(b"short", b"much-longer"));
}

#[test]
fn constant_time_eq_rejects_different_bytes_of_equal_length() {
    assert!(!constant_time_eq(b"aaaa", b"aaab"));
}

#[test]
fn constant_time_eq_of_empty_slices() {
    assert!(constant_time_eq(b"", b""));
    assert!(!constant_time_eq(b"", b"\0"));
}

#[test]
fn header_key_is_accepted() {
    let key = ApiKey::new("secret");
    assert!(is_authorized(&key, Some("secret"), None));
    assert!(!is_authorized(&key, Some("wrong"), None));
}

#[test]
fn query_key_is_accepted_when_there_is_no_header() {
    let key = ApiKey::new("secret");
    assert!(is_authorized(&key, None, Some("t=search&apikey=secret")));
    assert!(!is_authorized(&key, None, Some("t=search")));
    assert!(!is_authorized(&key, None, None));
}

#[test]
fn header_is_authoritative_over_the_query() {
    let key = ApiKey::new("secret");
    assert!(!is_authorized(&key, Some("wrong"), Some("apikey=secret")));
}

#[test]
fn query_values_are_decoded_and_the_first_wins() {
    assert_eq!(first_query_value(Some("apikey=a%20b&apikey=c"), "apikey"), Some("a b".to_string()));
    assert_eq!(first_query_value(Some("x=1"), "apikey"), None);
    assert_eq!(first_query_value(None, "apikey"), None);
}

#[test]
fn a_percent_encoded_query_key_matches() {
    let key = ApiKey::new("s3cr+t");
    assert!(is_authorized(&key, None, Some("apikey=s3cr%2Bt")));
    assert!(!is_authorized(&key, None, Some("apikey=s3cr+t")));
}

#[test]
fn debug_never_prints_the_secret() {
    let key = ApiKey::new("s3cret");
    assert!(!key.debug_text().contains("s3cret"));
}

#[test]
fn debug_text_is_the_same_for_every_key() {
    assert_eq!(ApiKey::new("a").debug_text(), ApiKey::new("b").debug_text());
    assert_eq!(ApiKey::new("a").debug_text(), "ApiKey(\"<redacted>\")");
}
