use kutil_http::cache::weight::CacheWeight;
use kutil_http::etag::{ETag, ETagList, ETagMatcher, ParseError};
use kutil_http::language::Language;
use kutil_http::media_type::{MediaType, MediaTypeSegment, MediaTypeSelector};
use kutil_http::selector::{IsSpecific, Selector};

#[test]
fn etag_parse_strong_and_weak() {
    assert_eq!(ETag::parse("\"abc\""), Ok(ETag::new("abc".to_string(), false)));
    assert_eq!(ETag::parse("W/\"abc\""), Ok(ETag::new("abc".to_string(), true)));
    assert_eq!(ETag::parse("  \"x y\"  "), Ok(ETag::new("x y".to_string(), false)));
    assert_eq!(ETag::parse("\"\""), Ok(ETag::new(String::new(), false)));
}

#[test]
fn etag_parse_errors() {
    assert_eq!(ETag::parse("abc"), Err(ParseError::MissingEnd));
    assert_eq!(ETag::parse(""), Err(ParseError::MissingEnd));
    assert_eq!(ETag::parse("abc\""), Err(ParseError::MissingStart));
    assert_eq!(ETag::parse("\""), Err(ParseError::MissingStart));
    assert_eq!(ETag::parse("\"a\"b\""), Err(ParseError::ContainsQuote));
    assert_eq!(ETag::parse("W/\"a\"\""), Err(ParseError::ContainsQuote));
}

#[test]
fn etag_text_round_trip() {
    for etag in [ETag::new("abc".to_string(), false), ETag::new("v1".to_string(), true)] {
        let text = etag.to_string();
        assert_eq!(ETag::parse(&text), Ok(etag));
    }
    assert_eq!(ETag::new("abc".to_string(), true).to_string(), "W/\"abc\"");
    assert_eq!(ETag::new("abc".to_string(), false).to_string(), "\"abc\"");
}

#[test]
fn etag_same_as() {
    let a = ETag::new("a".to_string(), false);
    assert!(a.same_as(&ETag::new("a".to_string(), false)));
    assert!(!a.same_as(&ETag::new("a".to_string(), true)));
    assert!(!a.same_as(&ETag::new("b".to_string(), false)));
}

#[test]
fn etag_parse_list_skips_bad_pieces() {
    let tags = ETag::parse_list("\"a\", bad, W/\"b\"").expect("tags");
    assert_eq!(tags, vec![ETag::new("a".to_string(), false), ETag::new("b".to_string(), true)]);
    assert_eq!(ETag::parse_list("bad, worse"), None);
}

#[test]
fn etag_list_parse() {
    let list = ETagList::parse("\"a\",\"b\"").expect("list");
    assert!(list.contains(&ETag::new("b".to_string(), false)));
    assert!(!list.contains(&ETag::new("b".to_string(), true)));
    assert!(matches!(ETagList::parse("nothing"), Err(ParseError::NoTags)));
}

#[test]
fn etag_matcher_any_matches_everything() {
    let matcher = ETagMatcher::parse("*").expect("matcher");
    assert!(matcher.matches(None));
    assert!(matcher.matches(Some(&ETag::new("x".to_string(), true))));
}

#[test]
fn etag_matcher_list() {
    let matcher = ETagMatcher::parse("\"a\", \"b\"").expect("matcher");
    assert!(matcher.matches(Some(&ETag::new("a".to_string(), false))));
    assert!(!matcher.matches(Some(&ETag::new("c".to_string(), false))));
    assert!(!matcher.matches(None));
}

#[test]
fn etag_matcher_weak_never_matches() {
    let matcher = ETagMatcher::parse("W/\"a\", \"a\"").expect("matcher");
    assert!(!matcher.matches(Some(&ETag::new("a".to_string(), true))));
    assert!(matcher.matches(Some(&ETag::new("a".to_string(), false))));
    assert!(matches!(ETagMatcher::parse(""), Err(ParseError::NoTags)));
}

#[test]
fn media_type_parse_and_text() {
    let media_type = MediaType::parse("text/html").expect("media type");
    assert_eq!(media_type, MediaType::new_fostered("text", "html"));
    assert_eq!(media_type.to_string(), "text/html");
    assert_eq!(MediaType::parse("application/vnd.a+json").expect("media type").to_string(), "application/vnd.a+json");
    assert_eq!(MediaType::parse("text"), Err(ParseError::MissingSlash));
    assert_eq!(
        MediaType::new(MediaTypeSegment::new_fostered("a"), MediaTypeSegment::new_owned("b".to_string())),
        MediaType::new_owned("a".to_string(), "b".to_string())
    );
}

#[test]
fn media_type_selector_parse() {
    let selector = MediaTypeSelector::parse("text/*").expect("selector");
    assert_eq!(selector.main, Selector::Specific(MediaTypeSegment::new_fostered("text")));
    assert_eq!(selector.subtype, Selector::Any);
    assert!(selector.is_valid());
    assert!(!selector.is_specific());
    assert_eq!(selector.to_string(), "text/*");
    assert_eq!(MediaTypeSelector::parse("*/*").expect("selector"), MediaTypeSelector::any());
    assert_eq!(MediaTypeSelector::parse("html"), Err(ParseError::MissingSlash));
}

#[test]
fn media_type_selector_validity() {
    assert!(!MediaTypeSelector::new(Selector::Any, Selector::Specific(MediaTypeSegment::new_fostered("html"))).is_valid());
    assert!(MediaTypeSelector::any().is_valid());
    assert!(MediaTypeSelector::new_fostered("text", "html").is_valid());
    assert!(MediaTypeSelector::new_fostered("text", "html").is_specific());
}

#[test]
fn media_type_selector_round_trip() {
    for text in ["text/html", "text/*", "*/*", "*/json"] {
        let selector = MediaTypeSelector::parse(text).expect("selector");
        assert_eq!(selector.to_string(), text);
        assert_eq!(MediaTypeSelector::parse(&selector.to_string()), Ok(selector));
    }
}

#[test]
fn media_type_selector_matches_media_type() {
    let media_type = MediaType::new_fostered("text", "html");
    let selector = MediaTypeSelector::from_media_type(media_type.clone());
    assert!(selector.eq_media_type(&media_type));
    assert!(!MediaTypeSelector::parse("text/*").expect("selector").eq_media_type(&media_type));
}

#[test]
fn language_parse_lowercases() {
    let language = Language::parse("en-US");
    assert_eq!(language.0, vec!["en".to_string(), "us".to_string()]);
    assert_eq!(language.to_string(), "en-us");
    assert!(language.same_as(&Language::parse("EN-us")));
    assert!(!language.same_as(&Language::parse("en-GB")));
}

#[test]
fn language_parse_list_skips_duplicates() {
    let list = Language::parse_list("en-US, fr, en-us,de").expect("list");
    assert_eq!(list.len(), 3);
    assert!(list.iter().any(|l| l.same_as(&Language::parse("fr"))));
    assert!(list.iter().any(|l| l.same_as(&Language::parse("de"))));
    assert!(list.iter().any(|l| l.same_as(&Language::parse("en-us"))));
}

#[test]
fn cache_weights() {
    let segment = MediaTypeSegment::new_fostered("text");
    assert_eq!(segment.cache_weight(), std::mem::size_of::<MediaTypeSegment>() + 4);
    let media_type = MediaType::new_fostered("text", "html");
    assert_eq!(
        media_type.cache_weight(),
        std::mem::size_of::<MediaType>() + 2 * std::mem::size_of::<MediaTypeSegment>() + 8
    );
    let selector = MediaTypeSelector::parse("text/*").expect("selector");
    let selector_size = std::mem::size_of::<Selector<MediaTypeSegment>>();
    assert_eq!(
        selector.cache_weight(),
        std::mem::size_of::<MediaTypeSelector>() + 2 * selector_size + std::mem::size_of::<MediaTypeSegment>() + 4
    );
    assert_eq!(ETag::new("abc".to_string(), false).cache_weight(), std::mem::size_of::<ETag>() + 3);
    assert_eq!(Language::parse("en-US").cache_weight(), std::mem::size_of::<Language>() + 4);
    assert_eq!(ETag::new("é".to_string(), false).cache_weight(), std::mem::size_of::<ETag>() + 2);
}
