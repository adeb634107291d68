//! Decisions of sending a response through a transcoding body: whether to encode it, and its
//! headers.

use vstd::prelude::*;

use http::HeaderMap;

use crate::cache::response::encodable;
use crate::encoding::{encoding_token, spec_parse_encoding, Encoding};
use crate::headers::{
    ascii_bytes, content_digest_name, first_text, header_remove, header_values, standard_name,
    xx_cache_name, xx_encode_name, CustomHeaderValues, HeaderValues, MAX_HEADER_NAMES,
};

verus! {

/// The `Content-Encoding` of headers; the identity when there is none or it is malformed.
pub open spec fn content_encoding_of(values: Map<Seq<char>, Seq<Seq<u8>>>) -> Encoding {
    match first_text(values, "content-encoding"@) {
        Some(text) => match spec_parse_encoding(text) {
            Some(encoding) => encoding,
            None => Encoding::Identity,
        },
        None => Encoding::Identity,
    }
}

/// Whether a response is encoded into `encoding` on its way out: not for the identity, not
/// when `XX-Encode` (or the default) forbids it, and not when it is already encoded (in that
/// encoding or, as we never reencode, in another).
pub open spec fn spec_encodes(
    values: Map<Seq<char>, Seq<Seq<u8>>>,
    encoding: Encoding,
    encodable_by_default: bool,
) -> bool {
    encoding != Encoding::Identity && encodable(values, encodable_by_default) && content_encoding_of(
        values,
    ) == Encoding::Identity
}

/// The headers of a response on its way out: without `XX-Cache` and `XX-Encode`; when it is
/// encoded, with the new `Content-Encoding` and without `Content-Length` and `Content-Digest`,
/// which we cannot know yet.
pub open spec fn spec_transcoded_headers(
    values: Map<Seq<char>, Seq<Seq<u8>>>,
    encoding: Encoding,
    encodable_by_default: bool,
) -> Map<Seq<char>, Seq<Seq<u8>>> {
    let stripped = values.remove("xx-cache"@).remove("xx-encode"@);
    if spec_encodes(values, encoding, encodable_by_default) {
        stripped.insert("content-encoding"@, seq![ascii_bytes(encoding_token(encoding))]).remove(
            "content-length"@,
        ).remove("content-digest"@)
    } else {
        stripped
    }
}

/// Prepare the headers of a response that goes out through a transcoding body (see
/// [spec_transcoded_headers]), and say whether to encode its body: [Some] with the encoding,
/// or [None] to pass it through.
pub fn prepare_transcoding(headers: &mut HeaderMap, encoding: Encoding, encodable_by_default: bool) -> (r:
    Option<Encoding>)
    requires
        header_values(*old(headers)).dom().len() < MAX_HEADER_NAMES,
    ensures
        header_values(*final(headers)) == spec_transcoded_headers(
            header_values(*old(headers)),
            encoding,
            encodable_by_default,
        ),
        r == (if spec_encodes(header_values(*old(headers)), encoding, encodable_by_default) {
            Some(encoding)
        } else {
            None
        }),
{
    proof {
        reveal_strlit("content-encoding");
        reveal_strlit("content-length");
        reveal_strlit("xx-cache");
        reveal_strlit("xx-encode");
        reveal_strlit("content-digest");
    }
    let ghost original = header_values(*headers);
    let encode = encoding != Encoding::Identity && headers.xx_encode(encodable_by_default);
    let current_encoding = headers.content_encoding();
    assert(current_encoding == content_encoding_of(original));
    header_remove(headers, &xx_cache_name());
    header_remove(headers, &xx_encode_name());
    let ghost stripped = header_values(*headers);
    if !encode || current_encoding != Encoding::Identity {
        assert(stripped =~= spec_transcoded_headers(original, encoding, encodable_by_default));
        return None;
    }
    proof {
        let rest = original.remove("xx-cache"@);
        vstd::set_lib::lemma_len_subset(original.dom(), rest.dom().insert("xx-cache"@));
        vstd::set_lib::lemma_len_subset(stripped.dom(), original.dom());
    }
    headers.set_encoding_value(standard_name("content-encoding"), encoding);
    header_remove(headers, &standard_name("content-length"));
    header_remove(headers, &content_digest_name());
    proof {
        assert("content-length"@[8] != "content-digest"@[8]);
        assert(header_values(*headers) =~= spec_transcoded_headers(
            original,
            encoding,
            encodable_by_default,
        ));
    }
    Some(encoding)
}

/// The custom `XX-Cache` and `XX-Encode` headers never go out with a response.
pub proof fn lemma_transcoded_headers_drop_custom(
    values: Map<Seq<char>, Seq<Seq<u8>>>,
    encoding: Encoding,
    encodable_by_default: bool,
)
    ensures
        !spec_transcoded_headers(values, encoding, encodable_by_default).contains_key("xx-cache"@),
        !spec_transcoded_headers(values, encoding, encodable_by_default).contains_key("xx-encode"@),
{
    reveal_strlit("content-encoding");
    reveal_strlit("xx-encode");
    reveal_strlit("xx-cache");
    assert("content-encoding"@.len() != "xx-cache"@.len());
    assert("content-encoding"@.len() != "xx-encode"@.len());
}

/// A response that goes out is never encoded twice: once its headers are prepared, preparing
/// them again encodes nothing.
pub proof fn lemma_transcoding_once(
    values: Map<Seq<char>, Seq<Seq<u8>>>,
    encoding: Encoding,
    encodable_by_default: bool,
    again: Encoding,
)
    ensures
        !spec_encodes(
            spec_transcoded_headers(values, encoding, encodable_by_default),
            again,
            encodable_by_default,
        ) || !spec_encodes(values, encoding, encodable_by_default),
{
    reveal_strlit("content-encoding");
    reveal_strlit("xx-encode");
    reveal_strlit("xx-cache");
    reveal_strlit("content-length");
    reveal_strlit("content-digest");
    if spec_encodes(values, encoding, encodable_by_default) {
        let after = spec_transcoded_headers(values, encoding, encodable_by_default);
        assert("content-encoding"@.len() != "content-length"@.len());
        assert("content-encoding"@.len() != "content-digest"@.len());
        crate::encoding::lemma_parse_token(encoding);
        crate::headers::lemma_string_value_round_trip(
            values.remove("xx-cache"@).remove("xx-encode"@),
            "content-encoding"@,
            encoding_token(encoding),
        );
        assert(first_text(after, "content-encoding"@) == Some(encoding_token(encoding)));
        crate::encoding::lemma_parse_token(encoding);
    }
}

} // verus!
