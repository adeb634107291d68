//! Headers of responses built from bytes.

use vstd::prelude::*;

use http::header::InvalidHeaderValue;
use http::HeaderMap;
use vstd::string::StringSliceAdditionalSpecFns;

use crate::headers::{
    ascii_bytes, header_remove, header_values, is_value_byte, standard_name, HeaderValues,
    MAX_HEADER_NAMES,
};
use crate::text::decimal;

verus! {

/// The headers of a response of bytes: without other `Content-Type` and `Content-Length`
/// values, with the given content type (if it can be a header value) and the body's length.
pub open spec fn spec_bytes_response_headers(
    values: Map<Seq<char>, Seq<Seq<u8>>>,
    content_type: Seq<u8>,
    body_size: nat,
) -> (Map<Seq<char>, Seq<Seq<u8>>>, bool) {
    let stripped = values.remove("content-type"@).remove("content-length"@);
    if forall|i: int| 0 <= i < content_type.len() ==> is_value_byte(#[trigger] content_type[i]) {
        (
            stripped.insert("content-type"@, seq![content_type]).insert(
                "content-length"@,
                seq![ascii_bytes(decimal(body_size))],
            ),
            true,
        )
    } else {
        (stripped, false)
    }
}

/// Set the `Content-Type` and `Content-Length` of a response of bytes, overriding existing
/// values (see [spec_bytes_response_headers]); fails if the content type cannot be a header
/// value.
pub fn prepare_bytes_response_headers(headers: &mut HeaderMap, content_type: &str, body_size: usize) -> (r:
    Result<(), InvalidHeaderValue>)
    requires
        header_values(*old(headers)).dom().len() + 1 < MAX_HEADER_NAMES,
    ensures
        header_values(*final(headers)) == spec_bytes_response_headers(
            header_values(*old(headers)),
            content_type.spec_bytes(),
            body_size as nat,
        ).0,
        r is Ok <==> spec_bytes_response_headers(
            header_values(*old(headers)),
            content_type.spec_bytes(),
            body_size as nat,
        ).1,
{
    proof {
        reveal_strlit("content-type");
        reveal_strlit("content-length");
    }
    let ghost original = header_values(*headers);
    header_remove(headers, &standard_name("content-type"));
    proof {
        let rest = original.remove("content-type"@);
        vstd::set_lib::lemma_len_subset(original.dom(), rest.dom().insert("content-type"@));
        vstd::set_lib::lemma_len_subset(rest.dom(), original.dom());
    }
    header_remove(headers, &standard_name("content-length"));
    let ghost stripped = header_values(*headers);
    proof {
        vstd::set_lib::lemma_len_subset(stripped.dom(), original.remove("content-type"@).dom());
    }
    match headers.set_string_value(standard_name("content-type"), content_type) {
        Ok(()) => {},
        Err(error) => {
            assert(header_values(*headers) =~= stripped);
            return Err(error);
        },
    }
    assert(header_values(*headers).dom() =~= stripped.dom().insert("content-type"@));
    headers.set_usize_value(standard_name("content-length"), body_size);
    proof {
        let expected = spec_bytes_response_headers(original, content_type.spec_bytes(), body_size as nat);
        assert(header_values(*headers) =~= expected.0);
    }
    Ok(())
}

} // verus!
