//! Decisions on an upstream response: whether to cache it and whether to encode it.

use vstd::prelude::*;

use http::HeaderMap;

use crate::cache::configuration::{CachingConfiguration, EncodingConfiguration};
use crate::encoding::Encoding;
use crate::headers::{
    first_text, header_contains, header_values, spec_bool_value, standard_name, CustomHeaderValues,
    HeaderValues,
};
use crate::text::spec_parse_usize;

verus! {

/// The `Content-Length` of headers, if there is a well-formed one.
pub open spec fn content_length_of(values: Map<Seq<char>, Seq<Seq<u8>>>) -> Option<usize> {
    match first_text(values, "content-length"@) {
        Some(text) => spec_parse_usize(text),
        None => None,
    }
}

/// Whether a status code is a success (2xx).
pub open spec fn is_success(status: u16) -> bool {
    200 <= status < 300
}

/// Whether to skip caching a response before the hook is asked, and its `Content-Length`:
/// skip when `XX-Cache` (or the default) says no, when the status is not a success, when it is
/// a range, or when its `Content-Length` is out of the configured bounds.
pub open spec fn spec_skip_cache_checks(
    status: u16,
    values: Map<Seq<char>, Seq<Seq<u8>>>,
    configuration: CachingConfiguration,
) -> (bool, Option<usize>) {
    if !spec_bool_value(first_text(values, "xx-cache"@), configuration.cacheable_by_default) {
        (true, None)
    } else if !is_success(status) {
        (true, None)
    } else if values.contains_key("content-range"@) {
        (true, None)
    } else {
        match content_length_of(values) {
            Some(length) => (
                length < configuration.min_body_size || length > configuration.max_body_size,
                Some(length),
            ),
            None => (false, None),
        }
    }
}

/// Only successful responses are cached: a response whose status is outside 200..=299 is always
/// skipped, without a `Content-Length`, whatever its headers and the configuration say.
pub proof fn lemma_non_success_skipped(
    status: u16,
    values: Map<Seq<char>, Seq<Seq<u8>>>,
    configuration: CachingConfiguration,
)
    requires
        !(200 <= status <= 299),
    ensures
        spec_skip_cache_checks(status, values, configuration) == (true, None::<usize>),
{
}

/// What decides caching a response before the hook, in terms of its status and headers: a
/// range (`Content-Range`) is never cached; `XX-Cache` that reads `false` (or, without one, a
/// configuration that does not cache by default) always skips; and a successful, cacheable,
/// non-range response is skipped exactly when its `Content-Length` is known and outside the
/// configured bounds, which it then reports.
pub proof fn lemma_skip_cache_checks(
    status: u16,
    values: Map<Seq<char>, Seq<Seq<u8>>>,
    configuration: CachingConfiguration,
)
    ensures
        ({
            let checks = spec_skip_cache_checks(status, values, configuration);
            let cacheable = spec_bool_value(
                first_text(values, "xx-cache"@),
                configuration.cacheable_by_default,
            );
            &&& values.contains_key("content-range"@) ==> checks.0
            &&& !cacheable ==> checks == (true, None::<usize>)
            &&& first_text(values, "xx-cache"@) is None && !configuration.cacheable_by_default
                ==> checks.0
            &&& cacheable && 200 <= status <= 299 && !values.contains_key("content-range"@) ==> (
            match content_length_of(values) {
                Some(length) => checks == (
                    length < configuration.min_body_size || configuration.max_body_size < length,
                    Some(length),
                ),
                None => checks == (false, None::<usize>),
            })
            &&& !checks.0 ==> cacheable && 200 <= status <= 299 && !values.contains_key(
                "content-range"@,
            )
        }),
{
}

/// Check if we should skip the cache for an upstream response; also returns the value of
/// `Content-Length` if available.
///
/// If the response passes all our checks then the `cacheable_by_response` hook, if any, gets
/// one last chance to skip the cache.
pub fn should_skip_cache<F: Fn() -> bool>(
    status: u16,
    headers: &HeaderMap,
    configuration: &CachingConfiguration,
    cacheable_by_response: Option<F>,
) -> (r: (bool, Option<usize>))
    requires
        cacheable_by_response matches Some(hook) ==> call_requires(hook, ()),
    ensures
        ({
            let checks = spec_skip_cache_checks(status, header_values(*headers), *configuration);
            &&& r.1 == checks.1
            &&& checks.0 ==> r.0
            &&& !checks.0 && cacheable_by_response is None ==> !r.0
            &&& !checks.0 && cacheable_by_response is Some ==> exists|cacheable: bool|
                call_ensures(cacheable_by_response->0, (), cacheable) && r.0 == !cacheable
        }),
        !(200 <= status < 300) ==> r == (true, None::<usize>),
{
    proof {
        reveal_strlit("content-range");
    }
    let checks = if !headers.xx_cache(configuration.cacheable_by_default) {
        (true, None)
    } else if !(200 <= status && status < 300) {
        (true, None)
    } else if header_contains(headers, &standard_name("content-range")) {
        (true, None)
    } else {
        match headers.content_length() {
            Some(content_length) => {
                if content_length < configuration.min_body_size {
                    (true, Some(content_length))
                } else if content_length > configuration.max_body_size {
                    (true, Some(content_length))
                } else {
                    (false, Some(content_length))
                }
            },
            None => (false, None),
        }
    };
    if !checks.0 {
        if let Some(cacheable) = cacheable_by_response {
            let verdict = cacheable();
            return (!verdict, checks.1);
        }
    }
    checks
}

/// Validate encoding: a non-identity encoding falls back to the identity when the
/// `Content-Length` is known and below a non-zero minimum, or when the
/// `encodable_by_response` hook says no. The second value is true when we force that skip.
pub fn validate_encoding<F: Fn(Encoding) -> bool>(
    encoding: Encoding,
    content_length: Option<usize>,
    configuration: &EncodingConfiguration,
    encodable_by_response: Option<F>,
) -> (r: (Encoding, bool))
    requires
        encodable_by_response matches Some(hook) ==> call_requires(hook, (encoding,)),
    ensures
        encoding == Encoding::Identity ==> r == (encoding, false),
        encoding != Encoding::Identity && (content_length matches Some(length)
            && configuration.min_body_size != 0 && length < configuration.min_body_size) ==> r == (
            Encoding::Identity,
            true,
        ),
        encoding != Encoding::Identity && !(content_length matches Some(length)
            && configuration.min_body_size != 0 && length < configuration.min_body_size) ==> (
        match encodable_by_response {
            Some(hook) => exists|encodable: bool|
                call_ensures(hook, (encoding,), encodable) && r == (if encodable {
                    (encoding, false)
                } else {
                    (Encoding::Identity, true)
                }),
            None => r == (encoding, false),
        }),
{
    if encoding == Encoding::Identity {
        return (encoding, false);
    }
    if let Some(content_length) = content_length {
        let min_body_size = configuration.min_body_size;
        if min_body_size != 0 && content_length < min_body_size {
            return (Encoding::Identity, true);
        }
    }
    match encodable_by_response {
        Some(encodable) => {
            if encodable(encoding) {
                (encoding, false)
            } else {
                (Encoding::Identity, true)
            }
        },
        None => (encoding, false),
    }
}

} // verus!
