//! Immutable byte buffers ([Bytes]), as the library sees them.

use vstd::prelude::*;

use bytes::Bytes;

verus! {

/// [Bytes] as Verus sees it: opaque.
#[verifier::external_type_specification]
#[verifier::external_body]
pub struct ExBytes(Bytes);

/// The bytes that a [Bytes] holds.
pub uninterp spec fn bytes_view(bytes: Bytes) -> Seq<u8>;

/// The bytes that an optional [Bytes] holds; none for [None].
pub open spec fn optional_bytes_view(bytes: Option<Bytes>) -> Seq<u8> {
    match bytes {
        Some(b) => bytes_view(b),
        None => Seq::empty(),
    }
}

/// `Bytes::len`: the number of bytes held.
#[verifier::external_body]
pub(crate) fn bytes_len(bytes: &Bytes) -> (r: usize)
    ensures
        r == bytes_view(*bytes).len(),
{
    bytes.len()
}

/// `Bytes::clone`: another handle on the same bytes.
pub assume_specification[<Bytes as Clone>::clone](bytes: &Bytes) -> (r: Bytes)
    ensures
        bytes_view(r) == bytes_view(*bytes),
;

/// `Bytes::new`: no bytes.
#[verifier::external_body]
pub(crate) fn bytes_empty() -> (r: Bytes)
    ensures
        bytes_view(r) == Seq::<u8>::empty(),
{
    Bytes::new()
}

} // verus!
