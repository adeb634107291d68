//! Conditional requests: `If-None-Match` and `If-Modified-Since`.

use vstd::prelude::*;

use http::HeaderMap;
use httpdate::HttpDate;

use crate::etag::{spec_etag_matches, spec_parse_etag, ETagList};
use crate::headers::{
    first_text, header_date_seconds, header_values, http_date_le, http_date_seconds,
    HeaderValues,
};
use crate::selector::{spec_parse_selector, Selector};
use crate::text::option_view;

verus! {

/// Whether something modified at `modified` (seconds) counts as modified since `reference`:
/// only when both are known and `modified <= reference` is it not.
pub open spec fn spec_modified_since(modified: Option<int>, reference: Option<int>) -> bool {
    match (modified, reference) {
        (Some(modified), Some(reference)) => !(modified <= reference),
        _ => true,
    }
}

/// The seconds of an optional date.
pub open spec fn date_seconds(date: Option<HttpDate>) -> Option<int> {
    match date {
        Some(date) => Some(http_date_seconds(date)),
        None => None,
    }
}

/// The `If-None-Match` matcher of request headers, if there is a well-formed one.
pub open spec fn if_none_match_of(request: Map<Seq<char>, Seq<Seq<u8>>>) -> Option<
    Selector<Seq<(Seq<char>, bool)>>,
> {
    match first_text(request, "if-none-match"@) {
        Some(text) => spec_parse_selector::<ETagList>(text),
        None => None,
    }
}

/// The `ETag` of response headers, if there is a well-formed one.
pub open spec fn etag_of(response: Map<Seq<char>, Seq<Seq<u8>>>) -> Option<(Seq<char>, bool)> {
    match first_text(response, "etag"@) {
        Some(text) => spec_parse_etag(text),
        None => None,
    }
}

/// Whether a response counts as modified for a request. `If-None-Match` takes precedence: where
/// the request has one, the response is modified exactly when it does not match, and
/// `If-Modified-Since` is not consulted. Otherwise `If-Modified-Since` is checked against
/// `Last-Modified`; modified when in doubt.
pub open spec fn spec_modified(
    request: Map<Seq<char>, Seq<Seq<u8>>>,
    response: Map<Seq<char>, Seq<Seq<u8>>>,
) -> bool {
    match if_none_match_of(request) {
        Some(matcher) => !spec_etag_matches(matcher, etag_of(response)),
        None => spec_modified_since(
            header_date_seconds(response, "last-modified"@),
            header_date_seconds(request, "if-modified-since"@),
        ),
    }
}

/// Whether we have been modified since a reference date.
///
/// If there is not enough information we will assume that we have been modified and return
/// true.
pub fn modified_since(modified_date: Option<HttpDate>, reference_date: Option<HttpDate>) -> (r:
    bool)
    ensures
        r == spec_modified_since(date_seconds(modified_date), date_seconds(reference_date)),
{
    if let Some(last_modified) = modified_date {
        if let Some(reference_date) = reference_date {
            if http_date_le(&last_modified, &reference_date) {
                return false;
            }
        }
    }
    true
}

/// Conditional HTTP.
///
/// `If-None-Match` takes precedence over `If-Modified-Since`. If there is not enough
/// information we will assume that we have been modified and return true.
pub fn modified(request_headers: &HeaderMap, response_headers: &HeaderMap) -> (r: bool)
    ensures
        r == spec_modified(header_values(*request_headers), header_values(*response_headers)),
        if_none_match_of(header_values(*request_headers)) is None && header_date_seconds(
            header_values(*response_headers),
            "last-modified"@,
        ) is None ==> r,
{
    if let Some(if_none_match) = request_headers.if_none_match() {
        let etag = response_headers.etag();
        let matched = match &etag {
            Some(etag) => if_none_match.matches(Some(etag)),
            None => if_none_match.matches(None),
        };
        assert(option_view(etag) == etag_of(header_values(*response_headers)));
        return !matched;
    }
    modified_since(response_headers.last_modified(), request_headers.if_modified_since())
}

/// Without `If-None-Match` and `If-Modified-Since` (or with malformed ones) a response always
/// counts as modified.
pub proof fn lemma_modified_without_conditions(
    request: Map<Seq<char>, Seq<Seq<u8>>>,
    response: Map<Seq<char>, Seq<Seq<u8>>>,
)
    requires
        if_none_match_of(request) is None,
        header_date_seconds(request, "if-modified-since"@) is None,
    ensures
        spec_modified(request, response),
{
}

/// A response whose `Last-Modified` is later than the request's `If-Modified-Since` counts as
/// modified unless `If-None-Match` matches; one that is not later is not modified.
pub proof fn lemma_modified_since_dates(
    request: Map<Seq<char>, Seq<Seq<u8>>>,
    response: Map<Seq<char>, Seq<Seq<u8>>>,
    last_modified: int,
    if_modified_since: int,
)
    requires
        if_none_match_of(request) is None,
        header_date_seconds(response, "last-modified"@) == Some(last_modified),
        header_date_seconds(request, "if-modified-since"@) == Some(if_modified_since),
    ensures
        spec_modified(request, response) <==> last_modified > if_modified_since,
{
}

/// `If-None-Match` takes precedence over `If-Modified-Since`: a request whose `If-None-Match`
/// does not match the response's `ETag` gets a modified response, whatever the dates say.
pub proof fn lemma_if_none_match_precedes(
    request: Map<Seq<char>, Seq<Seq<u8>>>,
    response: Map<Seq<char>, Seq<Seq<u8>>>,
    matcher: Selector<Seq<(Seq<char>, bool)>>,
)
    requires
        if_none_match_of(request) == Some(matcher),
        !spec_etag_matches(matcher, etag_of(response)),
    ensures
        spec_modified(request, response),
{
}

/// Without a well-formed `If-None-Match`, a response with no valid `Last-Modified` counts as
/// modified whatever `If-Modified-Since` says: there is not enough information to answer
/// "not modified".
pub proof fn lemma_modified_without_last_modified(
    request: Map<Seq<char>, Seq<Seq<u8>>>,
    response: Map<Seq<char>, Seq<Seq<u8>>>,
)
    requires
        if_none_match_of(request) is None,
        header_date_seconds(response, "last-modified"@) is None,
    ensures
        spec_modified(request, response),
{
}

/// Without a well-formed `If-None-Match`, a request with no valid `If-Modified-Since` always
/// gets a modified response, whatever the response's dates.
pub proof fn lemma_modified_without_if_modified_since(
    request: Map<Seq<char>, Seq<Seq<u8>>>,
    response: Map<Seq<char>, Seq<Seq<u8>>>,
)
    requires
        if_none_match_of(request) is None,
        header_date_seconds(request, "if-modified-since"@) is None,
    ensures
        spec_modified(request, response),
{
}

/// A request whose `If-None-Match` matches the response's `ETag` gets a "not modified" answer,
/// whatever the dates say.
pub proof fn lemma_if_none_match_matches(
    request: Map<Seq<char>, Seq<Seq<u8>>>,
    response: Map<Seq<char>, Seq<Seq<u8>>>,
    matcher: Selector<Seq<(Seq<char>, bool)>>,
)
    requires
        if_none_match_of(request) == Some(matcher),
        spec_etag_matches(matcher, etag_of(response)),
    ensures
        !spec_modified(request, response),
{
}

/// `*` in `If-None-Match` makes every response count as not modified.
pub proof fn lemma_if_none_match_any(
    request: Map<Seq<char>, Seq<Seq<u8>>>,
    response: Map<Seq<char>, Seq<Seq<u8>>>,
)
    requires
        if_none_match_of(request) == Some(Selector::<Seq<(Seq<char>, bool)>>::Any),
    ensures
        !spec_modified(request, response),
{
}

} // verus!
