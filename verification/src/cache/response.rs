//! Decisions of cached responses: the encoding to store and to answer in, the cache duration,
//! and the headers kept in the cache and sent with a cached response.

use vstd::prelude::*;

use http::HeaderMap;
use httpdate::HttpDate;

use crate::cache::configuration::EncodingConfiguration;
use crate::encoding::{encoding_token, Encoding};
use crate::headers::{
    ascii_bytes, content_digest_name, first_text, header_duration,
    header_contains, header_remove, header_values, http_date_seconds, http_date_text, now,
    spec_bool_value,
    standard_name, xx_cache_duration_name, xx_cache_name, xx_encode_name, CustomHeaderValues,
    HeaderValues, MAX_HEADER_NAMES,
};
use crate::text::decimal;

verus! {

/// Whether headers allow encoding: their `XX-Encode` value, or the default.
pub open spec fn encodable(values: Map<Seq<char>, Seq<Seq<u8>>>, encodable_by_default: bool) -> bool {
    spec_bool_value(first_text(values, "xx-encode"@), encodable_by_default)
}

/// The encoding in which to store a response body: the preferred one, unless `XX-Encode`
/// forbids encoding or the body is smaller than the minimum, in which case the identity.
pub open spec fn spec_storage_encoding(
    values: Map<Seq<char>, Seq<Seq<u8>>>,
    preferred_encoding: Encoding,
    body_size: nat,
    configuration: EncodingConfiguration,
) -> Encoding {
    if preferred_encoding != Encoding::Identity && (!encodable(
        values,
        configuration.encodable_by_default,
    ) || body_size < configuration.min_body_size) {
        Encoding::Identity
    } else {
        preferred_encoding
    }
}

/// The encoding in which to store a response body (see [spec_storage_encoding]).
pub fn storage_encoding(
    headers: &HeaderMap,
    preferred_encoding: Encoding,
    body_size: usize,
    configuration: &EncodingConfiguration,
) -> (r: Encoding)
    ensures
        r == spec_storage_encoding(
            header_values(*headers),
            preferred_encoding,
            body_size as nat,
            *configuration,
        ),
{
    if preferred_encoding != Encoding::Identity {
        if !headers.xx_encode(configuration.encodable_by_default) {
            return Encoding::Identity;
        } else if body_size < configuration.min_body_size {
            return Encoding::Identity;
        }
    }
    preferred_encoding
}

/// The encoding in which to answer from the cache: the requested one, unless the stored
/// `XX-Encode` forbids encoding, in which case the identity.
pub fn response_encoding(headers: &HeaderMap, encoding: Encoding, configuration: &EncodingConfiguration) -> (r:
    Encoding)
    ensures
        r == (if encoding != Encoding::Identity && !encodable(
            header_values(*headers),
            configuration.encodable_by_default,
        ) {
            Encoding::Identity
        } else {
            encoding
        }),
{
    if encoding != Encoding::Identity && !headers.xx_encode(configuration.encodable_by_default) {
        Encoding::Identity
    } else {
        encoding
    }
}

/// The cache duration of a response. An `XX-Cache-Duration` header always overrides the hook:
/// where the response has one, its duration is the answer ([None] if it does not parse) and the
/// hook is not called. Only where it has none does the `cache_duration` hook, if any, say.
pub fn cache_duration<F: Fn() -> Option<std::time::Duration>>(
    headers: &HeaderMap,
    cache_duration_hook: Option<F>,
) -> (r: Option<std::time::Duration>)
    requires
        cache_duration_hook matches Some(hook) ==> call_requires(hook, ()),
    ensures
        header_values(*headers).contains_key("xx-cache-duration"@) ==> r == header_duration(
            header_values(*headers),
            "xx-cache-duration"@,
        ),
        !header_values(*headers).contains_key("xx-cache-duration"@) ==> match cache_duration_hook {
            Some(hook) => call_ensures(hook, (), r),
            None => r is None,
        },
{
    if header_contains(headers, &xx_cache_duration_name()) {
        headers.xx_cache_duration()
    } else {
        match cache_duration_hook {
            Some(hook) => hook(),
            None => None,
        }
    }
}

/// The headers that are stored in the cache: without `XX-Cache`, `XX-Cache-Duration`,
/// `Content-Encoding`, `Content-Length`, `Content-Digest` and `Accept-Ranges`, with
/// `XX-Encode: true` when encoding was skipped, and the given `Last-Modified` when there was
/// none.
pub open spec fn spec_cached_headers(
    values: Map<Seq<char>, Seq<Seq<u8>>>,
    skip_encoding: bool,
    last_modified: Seq<u8>,
) -> Map<Seq<char>, Seq<Seq<u8>>> {
    let dated = if values.contains_key("last-modified"@) {
        values
    } else {
        values.insert("last-modified"@, seq![last_modified])
    };
    let stripped = dated.remove("xx-cache"@).remove("xx-cache-duration"@).remove(
        "content-encoding"@,
    ).remove("content-length"@).remove("content-digest"@);
    let marked = if skip_encoding {
        stripped.insert("xx-encode"@, seq![ascii_bytes("true"@)])
    } else {
        stripped
    };
    marked.remove("accept-ranges"@)
}

/// Whether a header name is one that storing in the cache rewrites.
pub open spec fn is_cache_controlled_name(name: Seq<char>) -> bool {
    name == "xx-cache"@ || name == "xx-cache-duration"@ || name == "content-encoding"@ || name
        == "content-length"@ || name == "content-digest"@ || name == "accept-ranges"@ || name
        == "last-modified"@ || name == "xx-encode"@
}

/// What the cached headers hold, in terms of the original headers: no `XX-Cache`,
/// `XX-Cache-Duration`, `Content-Encoding`, `Content-Length`, `Content-Digest` or
/// `Accept-Ranges`; `XX-Encode: true` when encoding was skipped, and otherwise the original
/// `XX-Encode` values, kept as they were (or none); the original `Last-Modified`, or the given
/// date when there was none; and every other header exactly as it was.
pub proof fn lemma_cached_headers_contents(
    values: Map<Seq<char>, Seq<Seq<u8>>>,
    skip_encoding: bool,
    last_modified: Seq<u8>,
)
    ensures
        ({
            let c = spec_cached_headers(values, skip_encoding, last_modified);
            &&& !c.contains_key("xx-cache"@)
            &&& !c.contains_key("xx-cache-duration"@)
            &&& !c.contains_key("content-encoding"@)
            &&& !c.contains_key("content-length"@)
            &&& !c.contains_key("content-digest"@)
            &&& !c.contains_key("accept-ranges"@)
            &&& skip_encoding ==> c.contains_key("xx-encode"@) && c["xx-encode"@] == seq![
                ascii_bytes("true"@),
            ]
            &&& !skip_encoding ==> (c.contains_key("xx-encode"@) <==> values.contains_key(
                "xx-encode"@,
            ))
            &&& !skip_encoding && values.contains_key("xx-encode"@) ==> c["xx-encode"@]
                == values["xx-encode"@]
            &&& c.contains_key("last-modified"@)
            &&& values.contains_key("last-modified"@) ==> c["last-modified"@]
                == values["last-modified"@]
            &&& !values.contains_key("last-modified"@) ==> c["last-modified"@] == seq![
                last_modified,
            ]
            &&& forall|name: Seq<char>|
                !is_cache_controlled_name(name) ==> (#[trigger] c.contains_key(name)
                    <==> values.contains_key(name)) && (values.contains_key(name) ==> c[name]
                    == values[name])
        }),
{
    reveal_strlit("last-modified");
    reveal_strlit("content-encoding");
    reveal_strlit("content-length");
    reveal_strlit("accept-ranges");
    reveal_strlit("xx-cache");
    reveal_strlit("xx-cache-duration");
    reveal_strlit("content-digest");
    reveal_strlit("xx-encode");
    assert("content-length"@[8] != "content-digest"@[8]);
    assert("last-modified"@[0] != "accept-ranges"@[0]);
    assert("xx-encode"@[3] != "xx-cache"@[3]);
    assert("xx-encode"@.len() != "xx-cache-duration"@.len());
    assert("xx-encode"@[0] != "accept-ranges"@[0]);
    assert("xx-encode"@[0] != "last-modified"@[0]);
    assert("xx-encode"@[0] != "content-encoding"@[0]);
    assert("xx-encode"@[0] != "content-length"@[0]);
    assert("xx-encode"@[0] != "content-digest"@[0]);
    assert("last-modified"@[0] != "xx-cache"@[0]);
    assert("last-modified"@[0] != "xx-cache-duration"@[0]);
    assert("last-modified"@[0] != "content-encoding"@[0]);
    assert("last-modified"@[0] != "content-length"@[0]);
    assert("last-modified"@[0] != "content-digest"@[0]);
}

/// Prepare response headers for storing in the cache (see [spec_cached_headers]); a missing
/// `Last-Modified` is set to the current time, read from the clock once
/// ([prepare_cached_headers_at] does the rest with that date).
pub fn prepare_cached_headers(headers: &mut HeaderMap, skip_encoding: bool)
    requires
        header_values(*old(headers)).dom().len() + 1 < MAX_HEADER_NAMES,
    ensures
        exists|date: HttpDate|
            header_values(*final(headers)) == spec_cached_headers(
                header_values(*old(headers)),
                skip_encoding,
                ascii_bytes(http_date_text(http_date_seconds(date))),
            ),
{
    let date = now();
    prepare_cached_headers_at(headers, skip_encoding, date);
}

/// Prepare response headers for storing in the cache (see [spec_cached_headers]); a missing
/// `Last-Modified` is set to `date`.
pub fn prepare_cached_headers_at(headers: &mut HeaderMap, skip_encoding: bool, date: HttpDate)
    requires
        header_values(*old(headers)).dom().len() + 1 < MAX_HEADER_NAMES,
    ensures
        header_values(*final(headers)) == spec_cached_headers(
            header_values(*old(headers)),
            skip_encoding,
            ascii_bytes(http_date_text(http_date_seconds(date))),
        ),
        !skip_encoding ==> (header_values(*final(headers)).contains_key("xx-encode"@)
            <==> header_values(*old(headers)).contains_key("xx-encode"@)),
        !skip_encoding && header_values(*old(headers)).contains_key("xx-encode"@) ==> header_values(
            *final(headers),
        )["xx-encode"@] == header_values(*old(headers))["xx-encode"@],
{
    proof {
        reveal_strlit("last-modified");
        reveal_strlit("content-encoding");
        reveal_strlit("content-length");
        reveal_strlit("accept-ranges");
        reveal_strlit("xx-cache");
        reveal_strlit("xx-cache-duration");
        reveal_strlit("content-digest");
        reveal_strlit("xx-encode");
    }
    let ghost original = header_values(*headers);
    let last_modified = standard_name("last-modified");
    let has_last_modified = header_contains(headers, &last_modified);
    // Removing first tells us that the map is finite.
    header_remove(headers, &xx_cache_name());
    proof {
        let rest = original.remove("xx-cache"@);
        vstd::set_lib::lemma_len_subset(original.dom(), rest.dom().insert("xx-cache"@));
    }
    header_remove(headers, &xx_cache_duration_name());
    header_remove(headers, &standard_name("content-encoding"));
    header_remove(headers, &standard_name("content-length"));
    header_remove(headers, &content_digest_name());
    header_remove(headers, &standard_name("accept-ranges"));
    let ghost stripped = header_values(*headers);
    assert(stripped.dom().len() <= original.dom().len()) by {
        vstd::set_lib::lemma_len_subset(stripped.dom(), original.dom());
    }
    let ghost date_text = ascii_bytes(http_date_text(http_date_seconds(date)));
    if !has_last_modified {
        headers.set_date_value(last_modified, date);
    }
    let ghost dated = header_values(*headers);
    assert(dated.dom().len() <= original.dom().len() + 1) by {
        if !has_last_modified {
            assert(dated.dom() =~= stripped.dom().insert("last-modified"@));
        } else {
            assert(dated.dom() =~= stripped.dom());
        }
    }
    if skip_encoding {
        headers.set_bool_value(xx_encode_name(), true);
    }
    proof {
        assert("content-length"@[8] != "content-digest"@[8]);
        assert("last-modified"@[0] != "accept-ranges"@[0]);
        assert("content-length"@ != "content-digest"@);
        assert("last-modified"@ != "accept-ranges"@);
        let expected = spec_cached_headers(original, skip_encoding, date_text);
        assert(header_values(*headers) =~= expected);
        lemma_cached_headers_contents(original, skip_encoding, date_text);
    }
}

/// The headers sent with a cached response: without `XX-Encode`, with the `Content-Encoding`
/// of a non-identity encoding, and with the `Content-Length` of the body.
pub open spec fn spec_response_headers(
    values: Map<Seq<char>, Seq<Seq<u8>>>,
    encoding: Encoding,
    body_size: nat,
) -> Map<Seq<char>, Seq<Seq<u8>>> {
    let unmarked = values.remove("xx-encode"@);
    let encoded = if encoding != Encoding::Identity {
        unmarked.insert("content-encoding"@, seq![ascii_bytes(encoding_token(encoding))])
    } else {
        unmarked
    };
    encoded.insert("content-length"@, seq![ascii_bytes(decimal(body_size))])
}

/// Prepare the headers of a response from the cache (see [spec_response_headers]).
pub fn prepare_response_headers(headers: &mut HeaderMap, encoding: Encoding, body_size: usize)
    requires
        header_values(*old(headers)).dom().len() + 1 < MAX_HEADER_NAMES,
    ensures
        header_values(*final(headers)) == spec_response_headers(
            header_values(*old(headers)),
            encoding,
            body_size as nat,
        ),
{
    proof {
        reveal_strlit("content-encoding");
        reveal_strlit("content-length");
        reveal_strlit("xx-encode");
    }
    let ghost original = header_values(*headers);
    header_remove(headers, &xx_encode_name());
    proof {
        let rest = original.remove("xx-encode"@);
        vstd::set_lib::lemma_len_subset(original.dom(), rest.dom().insert("xx-encode"@));
        vstd::set_lib::lemma_len_subset(rest.dom(), original.dom());
    }
    let ghost unmarked = header_values(*headers);
    if encoding != Encoding::Identity {
        headers.set_encoding_value(standard_name("content-encoding"), encoding);
        assert(header_values(*headers).dom() =~= unmarked.dom().insert("content-encoding"@));
    }
    headers.set_usize_value(standard_name("content-length"), body_size);
    proof {
        assert(header_values(*headers) =~= spec_response_headers(original, encoding, body_size as nat));
    }
}

} // verus!
