use std::time::{Duration, SystemTime, UNIX_EPOCH};

use http::header::{HeaderName, HeaderValue};
use http::HeaderMap;
use httpdate::HttpDate;

use kutil_http::conditional::{modified, modified_since};
use kutil_http::encoding::Encoding;
use kutil_http::etag::ETag;
use kutil_http::headers::{has_room_for_names, MAX_HEADER_NAMES};
use kutil_http::headers::{
    content_digest_name, standard_name, xx_cache_duration_name, xx_cache_name, xx_encode_name,
    CustomHeaderValues, HeaderValues,
};
use kutil_http::language::Language;
use kutil_http::media_type::MediaType;
use kutil_http::selector::Selector;

fn headers(pairs: &[(&'static str, &'static str)]) -> HeaderMap {
    let mut map = HeaderMap::new();
    for (name, value) in pairs {
        map.append(HeaderName::from_static(name), HeaderValue::from_static(value));
    }
    map
}

fn date(seconds: u64) -> HttpDate {
    HttpDate::from(UNIX_EPOCH + Duration::from_secs(seconds))
}

#[test]
fn header_names() {
    assert_eq!(xx_cache_name().as_str(), "xx-cache");
    assert_eq!(xx_cache_duration_name().as_str(), "xx-cache-duration");
    assert_eq!(xx_encode_name().as_str(), "xx-encode");
    assert_eq!(content_digest_name().as_str(), "content-digest");
    assert_eq!(standard_name("etag").as_str(), "etag");
}

#[test]
fn string_value_first_and_all() {
    let map = headers(&[("accept", "text/html"), ("accept", "application/json")]);
    assert_eq!(map.string_value(standard_name("accept")), Some("text/html"));
    assert_eq!(map.string_values(standard_name("accept")), vec!["text/html", "application/json"]);
    assert_eq!(map.string_value(standard_name("etag")), None);
    assert!(map.string_values(standard_name("etag")).is_empty());
}

#[test]
fn string_values_skip_non_ascii() {
    let mut map = HeaderMap::new();
    map.append(HeaderName::from_static("x-a"), HeaderValue::from_bytes(b"caf\xc3\xa9").expect("value"));
    map.append(HeaderName::from_static("x-a"), HeaderValue::from_static("plain"));
    assert_eq!(map.string_value(HeaderName::from_static("x-a")), None);
    assert_eq!(map.string_values(HeaderName::from_static("x-a")), vec!["plain"]);
}

#[test]
fn set_string_value_replaces() {
    let mut map = headers(&[("x-a", "1"), ("x-a", "2")]);
    assert!(map.set_string_value(HeaderName::from_static("x-a"), "three").is_ok());
    assert_eq!(map.string_values(HeaderName::from_static("x-a")), vec!["three"]);
}

#[test]
fn set_string_value_rejects_controls() {
    let mut map = headers(&[("x-a", "1")]);
    assert!(map.set_string_value(HeaderName::from_static("x-a"), "bad\nvalue").is_err());
    assert_eq!(map.string_value(HeaderName::from_static("x-a")), None);
}

#[test]
fn bool_values() {
    let map = headers(&[("xx-cache", "FALSE"), ("xx-encode", "True"), ("x-b", "maybe")]);
    assert!(!map.xx_cache(true));
    assert!(map.xx_encode(false));
    assert!(map.bool_value(HeaderName::from_static("x-b"), true));
    assert!(!map.bool_value(HeaderName::from_static("x-b"), false));
    assert!(map.bool_value(HeaderName::from_static("x-missing"), true));
}

#[test]
fn bool_value_round_trip() {
    let mut map = HeaderMap::new();
    for value in [true, false] {
        map.set_bool_value(HeaderName::from_static("x-flag"), value);
        assert_eq!(map.bool_value(HeaderName::from_static("x-flag"), !value), value);
    }
}

#[test]
fn usize_value_round_trip() {
    let mut map = HeaderMap::new();
    map.set_usize_value(standard_name("content-length"), 12345);
    assert_eq!(map.string_value(standard_name("content-length")), Some("12345"));
    assert_eq!(map.content_length(), Some(12345));
    map.set_usize_value(standard_name("content-length"), 0);
    assert_eq!(map.content_length(), Some(0));
}

#[test]
fn content_length_values() {
    assert_eq!(headers(&[("content-length", "42")]).content_length(), Some(42));
    assert_eq!(headers(&[("content-length", "+7")]).content_length(), Some(7));
    assert_eq!(headers(&[("content-length", "-1")]).content_length(), None);
    assert_eq!(headers(&[("content-length", "")]).content_length(), None);
    assert_eq!(headers(&[("content-length", "99999999999999999999999")]).content_length(), None);
    assert_eq!(HeaderMap::new().content_length(), None);
}

#[test]
fn date_value_round_trip() {
    let mut map = HeaderMap::new();
    let when = date(784111777);
    map.set_date_value(standard_name("last-modified"), when);
    assert_eq!(map.string_value(standard_name("last-modified")), Some("Sun, 06 Nov 1994 08:49:37 GMT"));
    assert_eq!(map.last_modified(), Some(when));
}

#[test]
fn date_values() {
    let map = headers(&[
        ("if-modified-since", "Sun, 06 Nov 1994 08:49:37 GMT"),
        ("if-unmodified-since", "not a date"),
    ]);
    assert_eq!(map.if_modified_since(), Some(date(784111777)));
    assert_eq!(map.if_unmodified_since(), None);
    assert_eq!(map.last_modified(), None);
}

#[test]
fn encoding_value() {
    let mut map = HeaderMap::new();
    map.set_encoding_value(standard_name("content-encoding"), Encoding::Brotli);
    assert_eq!(map.string_value(standard_name("content-encoding")), Some("br"));
    assert_eq!(map.content_encoding(), Encoding::Brotli);
    assert_eq!(headers(&[("content-encoding", "weird")]).content_encoding(), Encoding::Identity);
    assert_eq!(HeaderMap::new().content_encoding(), Encoding::Identity);
}

#[test]
fn duration_values() {
    let map = headers(&[("xx-cache-duration", "1h"), ("x-d", "nonsense")]);
    assert_eq!(map.xx_cache_duration(), Some(Duration::from_secs(3600)));
    assert_eq!(map.duration_value(HeaderName::from_static("x-d")), None);
    assert_eq!(HeaderMap::new().xx_cache_duration(), None);
}

#[test]
fn content_type_value() {
    assert_eq!(headers(&[("content-type", "text/plain")]).content_type(), Some(MediaType::new_fostered("text", "plain")));
    assert_eq!(headers(&[("content-type", "plain")]).content_type(), None);
}

#[test]
fn accept_values() {
    let map = headers(&[("accept-encoding", "gzip;q=0.4"), ("accept-encoding", "br, zstd;q=0.9")]);
    let preferences = map.accept_encoding();
    let order: Vec<Selector<Encoding>> = preferences.0.iter().map(|p| p.selector.clone()).collect();
    assert_eq!(
        order,
        vec![
            Selector::Specific(Encoding::Brotli),
            Selector::Specific(Encoding::Zstandard),
            Selector::Specific(Encoding::GZip)
        ]
    );
    let map = headers(&[("accept", "text/html, */*;q=0.8")]);
    assert_eq!(map.accept().0.len(), 2);
    let map = headers(&[("accept-language", "en-US, fr;q=0.5")]);
    let languages = map.accept_language();
    assert_eq!(languages.0.len(), 2);
    assert_eq!(languages.0[0].selector, Selector::Specific(Language::parse("en-us")));
}

#[test]
fn content_language_value() {
    let map = headers(&[("content-language", "de, en-GB, de")]);
    let languages = map.content_language().expect("languages");
    assert_eq!(languages.len(), 2);
    assert_eq!(HeaderMap::new().content_language(), None);
}

#[test]
fn etag_values() {
    let map = headers(&[("etag", "W/\"v1\""), ("if-none-match", "\"a\", \"b\""), ("if-match", "*")]);
    assert_eq!(map.etag(), Some(ETag::new("v1".to_string(), true)));
    assert!(map.if_none_match().expect("matcher").matches(Some(&ETag::new("b".to_string(), false))));
    assert!(map.if_match().expect("matcher").matches(None));
    assert_eq!(headers(&[("etag", "v1")]).etag(), None);
}

#[test]
fn authorization_basic_values() {
    let map = headers(&[("authorization", "Basic dXNlcjpwYXNz")]);
    assert_eq!(map.authorization_basic(), Some(("user".to_string(), "pass".to_string())));
    let map = headers(&[("authorization", "Basic dXNlcjpwYTpzcw==")]);
    assert_eq!(map.authorization_basic(), Some(("user".to_string(), "pa:ss".to_string())));
    assert_eq!(headers(&[("authorization", "Bearer abc")]).authorization_basic(), None);
    assert_eq!(headers(&[("authorization", "Basic !!!")]).authorization_basic(), None);
    // "nocolon" has no `:`
    assert_eq!(headers(&[("authorization", "Basic bm9jb2xvbg==")]).authorization_basic(), None);
    assert_eq!(HeaderMap::new().authorization_basic(), None);
}

#[test]
fn modified_since_values() {
    assert!(modified_since(None, None));
    assert!(modified_since(Some(date(100)), None));
    assert!(modified_since(None, Some(date(100))));
    assert!(modified_since(Some(date(200)), Some(date(100))));
    assert!(!modified_since(Some(date(100)), Some(date(100))));
    assert!(!modified_since(Some(date(50)), Some(date(100))));
}

#[test]
fn modified_without_conditions() {
    let response = headers(&[("etag", "\"a\""), ("last-modified", "Sun, 06 Nov 1994 08:49:37 GMT")]);
    assert!(modified(&HeaderMap::new(), &response));
}

#[test]
fn modified_if_none_match() {
    let response = headers(&[("etag", "\"a\"")]);
    assert!(!modified(&headers(&[("if-none-match", "\"a\"")]), &response));
    assert!(modified(&headers(&[("if-none-match", "\"b\"")]), &response));
    assert!(!modified(&headers(&[("if-none-match", "*")]), &HeaderMap::new()));
    let weak = headers(&[("etag", "W/\"a\"")]);
    assert!(modified(&headers(&[("if-none-match", "\"a\"")]), &weak));
}

#[test]
fn modified_if_modified_since() {
    let response = headers(&[("last-modified", "Sun, 06 Nov 1994 08:49:37 GMT")]);
    assert!(!modified(&headers(&[("if-modified-since", "Sun, 06 Nov 1994 08:49:37 GMT")]), &response));
    assert!(modified(&headers(&[("if-modified-since", "Sat, 05 Nov 1994 08:49:37 GMT")]), &response));
    assert!(modified(&headers(&[("if-modified-since", "garbage")]), &response));
}

#[test]
fn modified_if_none_match_takes_precedence() {
    let response = headers(&[("etag", "\"a\""), ("last-modified", "Sun, 06 Nov 1994 08:49:37 GMT")]);
    let stale_tag_fresh_date =
        headers(&[("if-none-match", "\"b\""), ("if-modified-since", "Sun, 06 Nov 1994 08:49:37 GMT")]);
    assert!(modified(&stale_tag_fresh_date, &response));
    let matching_tag_old_date =
        headers(&[("if-none-match", "\"a\""), ("if-modified-since", "Sat, 05 Nov 1994 08:49:37 GMT")]);
    assert!(!modified(&matching_tag_old_date, &response));
}

#[test]
fn now_is_current() {
    let before = SystemTime::now() - Duration::from_secs(2);
    let now: SystemTime = kutil_http::headers::now().into();
    assert!(now >= before);
}

#[test]
fn byte_string_values_are_utf8() {
    let mut map = HeaderMap::new();
    map.append(HeaderName::from_static("x-a"), HeaderValue::from_bytes("café".as_bytes()).expect("value"));
    map.append(HeaderName::from_static("x-a"), HeaderValue::from_bytes(b"\xff").expect("value"));
    map.append(HeaderName::from_static("x-a"), HeaderValue::from_static("plain"));
    assert_eq!(map.byte_string_value(HeaderName::from_static("x-a")), Some("café".to_string()));
    assert_eq!(map.byte_string_values(HeaderName::from_static("x-a")), vec!["café".to_string(), "plain".to_string()]);
    assert_eq!(map.byte_string_value(HeaderName::from_static("x-missing")), None);
    let mut map = HeaderMap::new();
    map.append(HeaderName::from_static("x-b"), HeaderValue::from_bytes(b"\xff").expect("value"));
    assert_eq!(map.byte_string_value(HeaderName::from_static("x-b")), None);
}

#[test]
fn set_string_values_in_order() {
    let mut map = headers(&[("x-one", "old"), ("x-one", "older")]);
    let pairs = vec![
        ("X-One".to_string(), "1".to_string()),
        ("bad name".to_string(), "2".to_string()),
        ("X-Two".to_string(), "2".to_string()),
    ];
    assert!(map.set_string_values(&pairs).is_ok());
    assert_eq!(map.string_values(HeaderName::from_static("x-one")), vec!["1"]);
    assert_eq!(map.string_value(HeaderName::from_static("x-two")), Some("2"));
    assert_eq!(map.len(), 2);
}

#[test]
fn set_string_values_stop_at_failure() {
    let mut map = headers(&[("x-b", "old")]);
    let pairs = vec![
        ("x-a".to_string(), "ok".to_string()),
        ("x-b".to_string(), "bad\nvalue".to_string()),
        ("x-c".to_string(), "c".to_string()),
    ];
    assert!(map.set_string_values(&pairs).is_err());
    assert_eq!(map.string_value(HeaderName::from_static("x-a")), Some("ok"));
    assert_eq!(map.string_value(HeaderName::from_static("x-b")), None);
    assert_eq!(map.string_value(HeaderName::from_static("x-c")), None);
}

#[test]
fn room_for_header_names() {
    assert_eq!(MAX_HEADER_NAMES, 6554);
    assert!(has_room_for_names(&HeaderMap::new(), 0));
    assert!(has_room_for_names(&HeaderMap::new(), 6553));
    assert!(!has_room_for_names(&HeaderMap::new(), 6554));
    let map = headers(&[("a", "1"), ("a", "2"), ("b", "3")]);
    assert!(has_room_for_names(&map, 6551));
    assert!(!has_room_for_names(&map, 6552));
}
