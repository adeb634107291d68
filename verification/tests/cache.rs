use bytes::Bytes;
use http::header::{HeaderName, HeaderValue};
use http::{HeaderMap, Method};

use kutil_http::body::{copy_split, read_outcome, read_size, remainder_reserve, take_into_buffer, Probe, ReadOutcome};
use kutil_http::cache::body::{BodyTranscoding, CachedBody};
use kutil_http::cache::key::{cache_key_text, common_key_weight, join_strings};
use kutil_http::language::Language;
use kutil_http::media_type::MediaType;
use kutil_http::cache::configuration::{CachingConfiguration, EncodingConfiguration};
use kutil_http::cache::request;
use kutil_http::cache::response::{
    cache_duration, prepare_cached_headers, prepare_cached_headers_at, prepare_response_headers, response_encoding, storage_encoding,
};
use kutil_http::cache::service::{caching_step, CachingAction, CachingEvent, CachingState};
use kutil_http::cache::tiered::{TieredCache, TieredLookup};
use kutil_http::cache::upstream;
use kutil_http::cache::weight::{weigher_weight, CacheWeight};
use kutil_http::encoding::Encoding;
use kutil_http::headers::{standard_name, HeaderValues};
use kutil_http::pieces::{BodyPieces, ErrorWithBodyPieces, ErrorWithResponsePieces};
use kutil_http::response::prepare_bytes_response_headers;
use kutil_http::routing::{NamedTargets, TargetsShape};
use kutil_http::transcoding::prepare_transcoding;

fn stored_count(body: &CachedBody) -> usize {
    [Encoding::Identity, Encoding::Brotli, Encoding::Deflate, Encoding::GZip, Encoding::Zstandard]
        .iter()
        .filter(|encoding| body.representation(**encoding).is_some())
        .count()
}

fn headers(pairs: &[(&'static str, &'static str)]) -> HeaderMap {
    let mut map = HeaderMap::new();
    for (name, value) in pairs {
        map.append(HeaderName::from_static(name), HeaderValue::from_static(value));
    }
    map
}

fn keep() -> EncodingConfiguration {
    EncodingConfiguration::default()
}

fn drop_identity() -> EncodingConfiguration {
    EncodingConfiguration { min_body_size: 0, encodable_by_default: true, keep_identity_encoding: false }
}

#[test]
fn configuration_defaults() {
    let caching = CachingConfiguration::default();
    assert_eq!(caching.min_body_size, 0);
    assert_eq!(caching.max_body_size, 1024 * 1024);
    assert!(caching.cacheable_by_default);
    let encoding = EncodingConfiguration::default();
    assert_eq!(encoding.min_body_size, 0);
    assert!(encoding.encodable_by_default);
    assert!(encoding.keep_identity_encoding);
}

#[test]
fn cached_body_insert_and_get_representation() {
    let mut body = CachedBody::new();
    assert_eq!(body.representation(Encoding::GZip), None);
    body.insert(Encoding::GZip, Bytes::from_static(b"zipped"));
    body.insert(Encoding::Identity, Bytes::from_static(b"plain"));
    body.insert(Encoding::GZip, Bytes::from_static(b"zipped again"));
    assert_eq!(stored_count(&body), 2);
    assert_eq!(body.representation(Encoding::GZip), Some(Bytes::from_static(b"zipped again")));
    assert_eq!(body.representation(Encoding::Identity), Some(Bytes::from_static(b"plain")));
    let copy = body.duplicate();
    assert_eq!(copy.representation(Encoding::GZip), Some(Bytes::from_static(b"zipped again")));
}

#[test]
fn cached_body_new_with_same_encoding() {
    assert_eq!(CachedBody::new_with_transcoding(Encoding::GZip, Encoding::GZip), (None, None));
    let body = CachedBody::new_with(Bytes::from_static(b"z"), Encoding::GZip, Encoding::GZip, None, None, &keep());
    assert_eq!(stored_count(&body), 1);
    assert_eq!(body.representation(Encoding::GZip), Some(Bytes::from_static(b"z")));
}

#[test]
fn cached_body_new_with_encoding_identity() {
    assert_eq!(CachedBody::new_with_transcoding(Encoding::Identity, Encoding::Brotli), (None, Some(Encoding::Brotli)));
    let bytes = Bytes::from_static(b"plain");
    let encoded = Bytes::from_static(b"brotli");
    let body =
        CachedBody::new_with(bytes.clone(), Encoding::Identity, Encoding::Brotli, None, Some(encoded.clone()), &keep());
    assert_eq!(body.representation(Encoding::Brotli), Some(encoded.clone()));
    assert_eq!(body.representation(Encoding::Identity), Some(bytes.clone()));
    let body =
        CachedBody::new_with(bytes, Encoding::Identity, Encoding::Brotli, None, Some(encoded), &drop_identity());
    assert_eq!(body.representation(Encoding::Identity), None);
}

#[test]
fn cached_body_new_with_decoding() {
    assert_eq!(CachedBody::new_with_transcoding(Encoding::GZip, Encoding::Identity), (Some(Encoding::GZip), None));
    let body = CachedBody::new_with(
        Bytes::from_static(b"zipped"),
        Encoding::GZip,
        Encoding::Identity,
        Some(Bytes::from_static(b"plain")),
        None,
        &drop_identity(),
    );
    assert_eq!(stored_count(&body), 1);
    assert_eq!(body.representation(Encoding::Identity), Some(Bytes::from_static(b"plain")));
}

#[test]
fn cached_body_new_with_reencoding() {
    assert_eq!(
        CachedBody::new_with_transcoding(Encoding::GZip, Encoding::Zstandard),
        (Some(Encoding::GZip), Some(Encoding::Zstandard))
    );
    let body = CachedBody::new_with(
        Bytes::from_static(b"zipped"),
        Encoding::GZip,
        Encoding::Zstandard,
        Some(Bytes::from_static(b"plain")),
        Some(Bytes::from_static(b"zstd")),
        &keep(),
    );
    assert_eq!(stored_count(&body), 2);
    assert_eq!(body.representation(Encoding::Zstandard), Some(Bytes::from_static(b"zstd")));
    assert_eq!(body.representation(Encoding::GZip), None);
}

#[test]
fn cached_body_get_stored() {
    let mut body = CachedBody::new();
    body.insert(Encoding::GZip, Bytes::from_static(b"zipped"));
    assert_eq!(body.get_transcoding(Encoding::GZip), BodyTranscoding::Stored);
    let (bytes, modified) = body.get(Encoding::GZip, None, None, &keep());
    assert_eq!(bytes, Bytes::from_static(b"zipped"));
    assert!(modified.is_none());
}

#[test]
fn cached_body_get_decode_then_stored() {
    let mut body = CachedBody::new();
    body.insert(Encoding::GZip, Bytes::from_static(b"zipped"));
    body.insert(Encoding::Brotli, Bytes::from_static(b"brotli"));
    let transcoding = body.get_transcoding(Encoding::Identity);
    assert_eq!(transcoding, BodyTranscoding::Decode(Encoding::Brotli));
    let (bytes, modified) = body.get(Encoding::Identity, Some(Bytes::from_static(b"plain")), None, &keep());
    assert_eq!(bytes, Bytes::from_static(b"plain"));
    let modified = modified.expect("modified");
    assert_eq!(modified.get_transcoding(Encoding::Identity), BodyTranscoding::Stored);
    assert_eq!(modified.representation(Encoding::GZip), Some(Bytes::from_static(b"zipped")));
    let (again, none) = modified.get(Encoding::Identity, None, None, &keep());
    assert_eq!(again, Bytes::from_static(b"plain"));
    assert!(none.is_none());
}

#[test]
fn cached_body_get_encode_from_identity() {
    let mut body = CachedBody::new();
    body.insert(Encoding::Identity, Bytes::from_static(b"plain"));
    assert_eq!(body.get_transcoding(Encoding::Deflate), BodyTranscoding::Encode);
    let (bytes, modified) = body.get(Encoding::Deflate, None, Some(Bytes::from_static(b"deflated")), &keep());
    assert_eq!(bytes, Bytes::from_static(b"deflated"));
    let modified = modified.expect("modified");
    assert_eq!(modified.representation(Encoding::Deflate), Some(Bytes::from_static(b"deflated")));
    assert_eq!(stored_count(&modified), 2);
}

#[test]
fn cached_body_get_reencode() {
    let mut body = CachedBody::new();
    body.insert(Encoding::GZip, Bytes::from_static(b"zipped"));
    assert_eq!(body.get_transcoding(Encoding::Brotli), BodyTranscoding::Reencode(Encoding::GZip));
    let (bytes, modified) = body.get(
        Encoding::Brotli,
        Some(Bytes::from_static(b"plain")),
        Some(Bytes::from_static(b"brotli")),
        &keep(),
    );
    assert_eq!(bytes, Bytes::from_static(b"brotli"));
    let modified = modified.expect("modified");
    assert_eq!(stored_count(&modified), 3);
    assert_eq!(modified.representation(Encoding::Identity), Some(Bytes::from_static(b"plain")));
    let (_, modified) = body.get(
        Encoding::Brotli,
        Some(Bytes::from_static(b"plain")),
        Some(Bytes::from_static(b"brotli")),
        &drop_identity(),
    );
    let modified = modified.expect("modified");
    assert_eq!(stored_count(&modified), 2);
    assert_eq!(modified.representation(Encoding::Identity), None);
}

#[test]
fn cached_body_get_missing() {
    let body = CachedBody::default();
    assert_eq!(body.get_transcoding(Encoding::Identity), BodyTranscoding::Missing);
    assert_eq!(body.get_transcoding(Encoding::GZip), BodyTranscoding::Missing);
    let (bytes, modified) = body.get(Encoding::GZip, None, None, &keep());
    assert!(bytes.is_empty());
    assert!(modified.is_none());
}

#[test]
fn cached_body_weight_grows_with_bytes() {
    let empty = CachedBody::new();
    let base = empty.cache_weight();
    assert_eq!(base, std::mem::size_of::<CachedBody>());
    let mut body = CachedBody::new();
    body.insert(Encoding::Identity, Bytes::from_static(b"12345"));
    let entry = std::mem::size_of::<Encoding>() + std::mem::size_of::<Bytes>();
    assert_eq!(body.cache_weight(), base + entry + 5);
}

#[test]
fn weigher_saturates() {
    assert_eq!(weigher_weight(10, 20), 30);
    assert_eq!(weigher_weight(u32::MAX as usize, 1), u32::MAX);
    assert_eq!(weigher_weight(usize::MAX, usize::MAX), u32::MAX);
}

#[test]
fn tiered_cache_new() {
    let tiered = TieredCache::new(1u8, "next");
    assert_eq!(tiered.first, 1);
    assert_eq!(tiered.next, "next");
}

#[test]
fn tiered_lookup_hit_and_miss() {
    match TieredCache::<u8, u8>::after_first_lookup(Some(7u32)) {
        TieredLookup::Found(found) => assert_eq!(found, 7),
        TieredLookup::AskNext => panic!("a first-tier hit is the answer"),
    }
    assert!(matches!(TieredCache::<u8, u8>::after_first_lookup(None::<u32>), TieredLookup::AskNext));
}

#[test]
fn upstream_skip_cache_checks() {
    let configuration = CachingConfiguration { min_body_size: 10, max_body_size: 100, cacheable_by_default: true };
    let none = None::<fn() -> bool>;
    assert_eq!(upstream::should_skip_cache(200, &HeaderMap::new(), &configuration, none), (false, None));
    assert_eq!(upstream::should_skip_cache(404, &HeaderMap::new(), &configuration, none), (true, None));
    assert_eq!(upstream::should_skip_cache(200, &headers(&[("xx-cache", "false")]), &configuration, none), (true, None));
    assert_eq!(upstream::should_skip_cache(200, &headers(&[("content-range", "bytes 0-1/2")]), &configuration, none), (true, None));
    assert_eq!(upstream::should_skip_cache(200, &headers(&[("content-length", "5")]), &configuration, none), (true, Some(5)));
    assert_eq!(upstream::should_skip_cache(200, &headers(&[("content-length", "500")]), &configuration, none), (true, Some(500)));
    assert_eq!(upstream::should_skip_cache(204, &headers(&[("content-length", "50")]), &configuration, none), (false, Some(50)));
    let uncacheable = CachingConfiguration { cacheable_by_default: false, ..configuration };
    assert_eq!(upstream::should_skip_cache(200, &HeaderMap::new(), &uncacheable, none), (true, None));
    assert_eq!(upstream::should_skip_cache(200, &headers(&[("xx-cache", "true")]), &uncacheable, none), (false, None));
}

#[test]
fn upstream_skip_cache_hook() {
    let configuration = CachingConfiguration::default();
    assert_eq!(upstream::should_skip_cache(200, &HeaderMap::new(), &configuration, Some(|| false)), (true, None));
    assert_eq!(upstream::should_skip_cache(200, &HeaderMap::new(), &configuration, Some(|| true)), (false, None));
    let called = std::cell::Cell::new(false);
    let hook = || {
        called.set(true);
        true
    };
    assert_eq!(upstream::should_skip_cache(500, &HeaderMap::new(), &configuration, Some(hook)), (true, None));
    assert!(!called.get());
}

#[test]
fn upstream_validate_encoding() {
    let configuration = EncodingConfiguration { min_body_size: 100, encodable_by_default: true, keep_identity_encoding: true };
    let none = None::<fn(Encoding) -> bool>;
    assert_eq!(upstream::validate_encoding(Encoding::Identity, Some(1), &configuration, none), (Encoding::Identity, false));
    assert_eq!(upstream::validate_encoding(Encoding::GZip, Some(10), &configuration, none), (Encoding::Identity, true));
    assert_eq!(upstream::validate_encoding(Encoding::GZip, Some(1000), &configuration, none), (Encoding::GZip, false));
    assert_eq!(upstream::validate_encoding(Encoding::GZip, None, &configuration, none), (Encoding::GZip, false));
    assert_eq!(
        upstream::validate_encoding(Encoding::GZip, None, &configuration, Some(|e: Encoding| e != Encoding::GZip)),
        (Encoding::Identity, true)
    );
    assert_eq!(
        upstream::validate_encoding(Encoding::Brotli, None, &configuration, Some(|e: Encoding| e != Encoding::GZip)),
        (Encoding::Brotli, false)
    );
    let no_minimum = EncodingConfiguration { min_body_size: 0, ..configuration };
    assert_eq!(upstream::validate_encoding(Encoding::GZip, Some(0), &no_minimum, none), (Encoding::GZip, false));
}

#[test]
fn request_skip_cache() {
    let none = None::<fn() -> bool>;
    assert!(!request::should_skip_cache(true, &Method::GET, none));
    assert!(!request::should_skip_cache(true, &Method::PUT, none));
    assert!(request::should_skip_cache(true, &Method::POST, none));
    assert!(request::should_skip_cache(true, &Method::PATCH, none));
    assert!(request::should_skip_cache(false, &Method::GET, none));
    assert!(request::should_skip_cache(true, &Method::HEAD, Some(|| false)));
    assert!(!request::should_skip_cache(true, &Method::HEAD, Some(|| true)));
}

#[test]
fn request_select_encoding() {
    let none = None::<fn(Encoding) -> bool>;
    let enabled = Some(vec![Encoding::Brotli, Encoding::GZip, Encoding::Deflate, Encoding::Zstandard]);
    let map = headers(&[("accept-encoding", "gzip, deflate, br;q=0.9")]);
    assert_eq!(request::select_encoding(&map, &enabled, none), Encoding::GZip);
    let map = headers(&[("accept-encoding", "gzip, br")]);
    assert_eq!(request::select_encoding(&map, &enabled, none), Encoding::Brotli);
    assert_eq!(request::select_encoding(&HeaderMap::new(), &enabled, none), Encoding::Identity);
    assert_eq!(request::select_encoding(&map, &None, none), Encoding::Identity);
    assert_eq!(request::select_encoding(&map, &Some(vec![]), none), Encoding::Identity);
    assert_eq!(request::select_encoding(&map, &enabled, Some(|_: Encoding| false)), Encoding::Identity);
    let map = headers(&[("accept-encoding", "compress")]);
    assert_eq!(request::select_encoding(&map, &enabled, none), Encoding::Identity);
}

#[test]
fn response_encodings() {
    let configuration = EncodingConfiguration { min_body_size: 10, encodable_by_default: true, keep_identity_encoding: true };
    assert_eq!(storage_encoding(&HeaderMap::new(), Encoding::GZip, 100, &configuration), Encoding::GZip);
    assert_eq!(storage_encoding(&HeaderMap::new(), Encoding::GZip, 5, &configuration), Encoding::Identity);
    assert_eq!(storage_encoding(&headers(&[("xx-encode", "false")]), Encoding::GZip, 100, &configuration), Encoding::Identity);
    assert_eq!(storage_encoding(&HeaderMap::new(), Encoding::Identity, 100, &configuration), Encoding::Identity);
    assert_eq!(response_encoding(&headers(&[("xx-encode", "false")]), Encoding::Brotli, &configuration), Encoding::Identity);
    assert_eq!(response_encoding(&HeaderMap::new(), Encoding::Brotli, &configuration), Encoding::Brotli);
}

#[test]
fn cache_durations() {
    let none = None::<fn() -> Option<std::time::Duration>>;
    let map = headers(&[("xx-cache-duration", "30s")]);
    assert_eq!(cache_duration(&map, Some(|| Some(std::time::Duration::from_secs(5)))), Some(std::time::Duration::from_secs(30)));
    assert_eq!(cache_duration(&HeaderMap::new(), Some(|| Some(std::time::Duration::from_secs(5)))), Some(std::time::Duration::from_secs(5)));
    assert_eq!(cache_duration(&HeaderMap::new(), none), None);
}

#[test]
fn cache_duration_header_overrides_hook_even_when_invalid() {
    let map = headers(&[("xx-cache-duration", "not a duration")]);
    let hook = || -> Option<std::time::Duration> { panic!("the hook is not called when XX-Cache-Duration is present") };
    assert_eq!(cache_duration(&map, Some(hook)), None);
}

#[test]
fn cached_headers_are_prepared() {
    let mut map = headers(&[
        ("xx-cache", "true"),
        ("xx-cache-duration", "1m"),
        ("content-encoding", "gzip"),
        ("content-length", "10"),
        ("content-digest", "sha-256=:x:"),
        ("accept-ranges", "bytes"),
        ("last-modified", "Sun, 06 Nov 1994 08:49:37 GMT"),
        ("content-type", "text/plain"),
    ]);
    prepare_cached_headers(&mut map, true);
    assert_eq!(map.len(), 3);
    assert_eq!(map.string_value(standard_name("last-modified")), Some("Sun, 06 Nov 1994 08:49:37 GMT"));
    assert_eq!(map.string_value(standard_name("xx-encode")), Some("true"));
    assert_eq!(map.string_value(standard_name("content-type")), Some("text/plain"));
}

#[test]
fn cached_headers_get_last_modified() {
    let mut map = HeaderMap::new();
    prepare_cached_headers(&mut map, false);
    assert_eq!(map.len(), 1);
    assert!(map.last_modified().is_some());
}

#[test]
fn cached_headers_get_the_given_last_modified() {
    let date = httpdate::HttpDate::from(std::time::UNIX_EPOCH + std::time::Duration::from_secs(784111777));
    let mut map = HeaderMap::new();
    prepare_cached_headers_at(&mut map, false, date);
    assert_eq!(map.string_value(standard_name("last-modified")), Some("Sun, 06 Nov 1994 08:49:37 GMT"));
    let mut dated = headers(&[("last-modified", "Mon, 07 Nov 1994 08:49:37 GMT")]);
    prepare_cached_headers_at(&mut dated, false, date);
    assert_eq!(dated.string_value(standard_name("last-modified")), Some("Mon, 07 Nov 1994 08:49:37 GMT"));
}

#[test]
fn response_headers_are_prepared() {
    let mut map = headers(&[("xx-encode", "true"), ("content-type", "text/plain")]);
    prepare_response_headers(&mut map, Encoding::GZip, 123);
    assert_eq!(map.string_value(standard_name("xx-encode")), None);
    assert_eq!(map.string_value(standard_name("content-encoding")), Some("gzip"));
    assert_eq!(map.string_value(standard_name("content-length")), Some("123"));
    let mut map = HeaderMap::new();
    prepare_response_headers(&mut map, Encoding::Identity, 0);
    assert_eq!(map.string_value(standard_name("content-encoding")), None);
    assert_eq!(map.content_length(), Some(0));
}

#[test]
fn transcoding_encodes_plain_responses() {
    let mut map = headers(&[("xx-cache", "true"), ("content-length", "10"), ("content-digest", "d")]);
    assert_eq!(prepare_transcoding(&mut map, Encoding::Zstandard, true), Some(Encoding::Zstandard));
    assert_eq!(map.string_value(standard_name("content-encoding")), Some("zstd"));
    assert_eq!(map.len(), 1);
    // once encoded, it is not encoded again
    assert_eq!(prepare_transcoding(&mut map, Encoding::GZip, true), None);
}

#[test]
fn transcoding_passes_through() {
    let mut map = headers(&[("xx-encode", "false"), ("content-length", "10")]);
    assert_eq!(prepare_transcoding(&mut map, Encoding::GZip, true), None);
    assert_eq!(map.len(), 1);
    let mut map = headers(&[("content-encoding", "br")]);
    assert_eq!(prepare_transcoding(&mut map, Encoding::GZip, true), None);
    let mut map = HeaderMap::new();
    assert_eq!(prepare_transcoding(&mut map, Encoding::Identity, true), None);
    let mut map = HeaderMap::new();
    assert_eq!(prepare_transcoding(&mut map, Encoding::GZip, false), None);
}

#[test]
fn caching_steps() {
    assert_eq!(
        caching_step(CachingState::Start, CachingEvent::Checked { skip_cache: true }),
        (CachingState::Done, CachingAction::PassThrough)
    );
    assert_eq!(
        caching_step(CachingState::Start, CachingEvent::Checked { skip_cache: false }),
        (CachingState::LookingUp, CachingAction::LookUp)
    );
    assert_eq!(
        caching_step(CachingState::LookingUp, CachingEvent::LookedUp { hit: true, modified: true }),
        (CachingState::Done, CachingAction::ServeCached)
    );
    assert_eq!(
        caching_step(CachingState::LookingUp, CachingEvent::LookedUp { hit: true, modified: false }),
        (CachingState::Done, CachingAction::NotModified)
    );
    assert_eq!(
        caching_step(CachingState::LookingUp, CachingEvent::LookedUp { hit: false, modified: false }),
        (CachingState::Upstream, CachingAction::CallUpstream)
    );
    assert_eq!(
        caching_step(CachingState::Upstream, CachingEvent::Answered { skip_caching: true }),
        (CachingState::Done, CachingAction::RespondUncached)
    );
    assert_eq!(
        caching_step(CachingState::Upstream, CachingEvent::Answered { skip_caching: false }),
        (CachingState::Storing, CachingAction::Store)
    );
    assert_eq!(
        caching_step(CachingState::Storing, CachingEvent::Stored { stored: true, has_pieces: false }),
        (CachingState::Done, CachingAction::ServeStored)
    );
    assert_eq!(
        caching_step(CachingState::Storing, CachingEvent::Stored { stored: false, has_pieces: true }),
        (CachingState::Done, CachingAction::RespondWithPieces)
    );
    assert_eq!(
        caching_step(CachingState::Storing, CachingEvent::Stored { stored: false, has_pieces: false }),
        (CachingState::Done, CachingAction::RespondError)
    );
}

#[test]
fn body_reading_decisions() {
    assert_eq!(read_size(Some(50), 10, 100), 50);
    assert_eq!(read_size(None, 10, 100), 100);
    assert_eq!(read_outcome(Probe::Byte, 100, 10), ReadOutcome::TooBig);
    assert_eq!(read_outcome(Probe::Failure, 3, 10), ReadOutcome::Failed);
    assert_eq!(read_outcome(Probe::End, 3, 10), ReadOutcome::TooSmall);
    assert_eq!(read_outcome(Probe::End, 10, 10), ReadOutcome::Complete);
    assert_eq!(copy_split(4, 10), (4, 6));
    assert_eq!(copy_split(40, 10), (10, 0));
    assert_eq!(remainder_reserve(0), 8192);
    assert_eq!(remainder_reserve(100), 8092);
    assert_eq!(remainder_reserve(10000), 0);
}

#[test]
fn pieces_constructors() {
    let pieces = BodyPieces::new("body", Bytes::from_static(b"first"));
    assert_eq!(pieces.body, "body");
    assert_eq!(pieces.first_bytes, Bytes::from_static(b"first"));
    let error = ErrorWithBodyPieces::new("error", Some(pieces));
    assert_eq!(error.error, "error");
    assert!(error.pieces.is_some());
    let bare: ErrorWithBodyPieces<&str, &str> = ErrorWithBodyPieces::from_error("bare");
    assert!(bare.pieces.is_none());
    let (parts, _) = http::Response::new(()).into_parts();
    let response_error = ErrorWithResponsePieces::new_from_body(error, parts);
    assert_eq!(response_error.error, "error");
    let response_pieces = response_error.pieces.expect("pieces");
    assert_eq!(response_pieces.first_bytes, Bytes::from_static(b"first"));
    assert_eq!(*response_pieces.response.body(), "body");
    let (parts, _) = http::Response::new(()).into_parts();
    let none = ErrorWithResponsePieces::new_from_body(ErrorWithBodyPieces::<&str, &str>::from_error("e"), parts);
    assert!(none.pieces.is_none());
}

#[test]
fn named_targets() {
    let mut targets = NamedTargets::new();
    assert!(targets.is_empty());
    assert!(matches!(targets.shape(), TargetsShape::Empty));
    assert!(targets.add("a.example".to_string(), 1).is_ok());
    assert!(matches!(targets.shape(), TargetsShape::Single(&1)));
    let duplicate = targets.add("a.example".to_string(), 2);
    assert_eq!(duplicate.expect_err("duplicate").name, "a.example");
    assert_eq!(targets.get(&"a.example".to_string()), Some(&1));
    targets.insert("b.example".to_string(), 3);
    targets.insert("a.example".to_string(), 4);
    assert!(matches!(targets.shape(), TargetsShape::Many));
    assert_eq!(targets.get(&"a.example".to_string()), Some(&4));
    assert!(targets.contains(&"b.example".to_string()));
    assert_eq!(targets.get(&"c.example".to_string()), None);
    let fallback = Some("b.example".to_string());
    assert_eq!(targets.get_or_fallback(&"c.example".to_string(), &fallback), Some(&3));
    assert_eq!(targets.get_or_fallback(&"a.example".to_string(), &fallback), Some(&4));
    assert_eq!(targets.get_or_fallback(&"c.example".to_string(), &None), None);
    assert_eq!(targets.get_or_fallback(&"c.example".to_string(), &Some("d".to_string())), None);
}

#[test]
fn cache_key_texts() {
    let query = vec![("k".to_string(), vec!["1".to_string(), "2".to_string()]), ("x".to_string(), vec!["y".to_string()])];
    assert_eq!(
        cache_key_text("GET", "", "", None, "/a", &query, &None, &vec![], &vec![]),
        "GET||||/a|k=1&k=2&x=y|||"
    );
    assert_eq!(
        cache_key_text(
            "GET",
            "https",
            "h",
            Some(8080),
            "/",
            &vec![],
            &Some(MediaType::new_fostered("text", "html")),
            &vec![Language::parse("en-US"), Language::parse("fr")],
            &vec![(3, 5)],
        ),
        "GET|https|h|8080|/||text/html|en-us,fr|3=5"
    );
    assert_eq!(join_strings(&vec!["a".to_string(), "b".to_string()], ", "), "a, b");
    assert_eq!(join_strings(&vec![], ","), "");
}

#[test]
fn uri_path_with_query() {
    assert_eq!(kutil_http::uri::path_with_query("/a/b", Some("x=1&y=2")), "/a/b?x=1&y=2");
    assert_eq!(kutil_http::uri::path_with_query("/a/b", None), "/a/b");
    assert_eq!(kutil_http::uri::path_with_query("/", Some("")), "/?");
}

#[test]
fn bytes_response_headers() {
    let mut map = headers(&[("content-type", "text/plain"), ("content-length", "1"), ("x-a", "1"), ("x-a", "2")]);
    assert!(prepare_bytes_response_headers(&mut map, "application/json", 42).is_ok());
    assert_eq!(map.string_values(standard_name("content-type")), vec!["application/json"]);
    assert_eq!(map.content_length(), Some(42));
    assert_eq!(map.string_values(HeaderName::from_static("x-a")), vec!["1", "2"]);
    let mut map = headers(&[("content-type", "text/plain")]);
    assert!(prepare_bytes_response_headers(&mut map, "bad\ntype", 1).is_err());
    assert_eq!(map.string_value(standard_name("content-type")), None);
    assert_eq!(map.content_length(), None);
}

#[test]
fn take_into_buffer_keeps_order() {
    let mut kept = vec![1u8, 2, 3];
    let out = take_into_buffer(&mut kept, &[4, 5], 2);
    assert_eq!(out, vec![1, 2]);
    assert_eq!(kept, vec![3, 4, 5]);

    let mut kept = vec![1u8];
    let out = take_into_buffer(&mut kept, &[2, 3], 10);
    assert_eq!(out, vec![1, 2, 3]);
    assert!(kept.is_empty());

    let mut kept = Vec::new();
    let out = take_into_buffer(&mut kept, &[7, 8, 9], 0);
    assert!(out.is_empty());
    assert_eq!(kept, vec![7, 8, 9]);
}

#[test]
fn common_key_weight_sums_pieces() {
    let host = "ab".to_string();
    let path = "/x".to_string();
    let query = vec![("a".to_string(), vec!["1".to_string(), "2".to_string()])];
    let weight = common_key_weight(100, Some(&host), Some(&path), &query, None, &Vec::new(), &vec![(3, 4)]);
    assert_eq!(weight, 100 + 2 + 2 + (1 + 1 + 1) + (3 + 4));
    let short = vec![("x".to_string(), vec!["a".to_string()])];
    let long = vec![("x".to_string(), vec!["aaaa".to_string()])];
    let short_weight = common_key_weight(0, None, None, &short, None, &Vec::new(), &Vec::new());
    let long_weight = common_key_weight(0, None, None, &long, None, &Vec::new(), &Vec::new());
    assert_eq!(short_weight, 2);
    assert_eq!(long_weight, 5);
    assert_eq!(common_key_weight(100, None, None, &Vec::new(), None, &Vec::new(), &Vec::new()), 100);
    assert_eq!(common_key_weight(usize::MAX, Some(&host), None, &Vec::new(), None, &Vec::new(), &Vec::new()), usize::MAX);
}
