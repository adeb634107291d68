//! Pieces of a body that could not be taken whole, to rebuild it from.

use vstd::prelude::*;

use bytes::Bytes;
use http::response::Parts;
use http::Response;

use crate::immutable::bytes_view;

verus! {

/// Body pieces: the body itself and the bytes already read from it.
///
/// Can be used to reconstruct a body, starting with `first_bytes` and continuing with `body`.
#[derive(Clone, Debug)]
pub struct BodyPieces<BodyT> {
    /// Body.
    pub body: BodyT,
    /// First bytes.
    pub first_bytes: Bytes,
}

impl<BodyT> BodyPieces<BodyT> {
    /// Constructor.
    pub fn new(body: BodyT, first_bytes: Bytes) -> (r: Self)
        ensures
            r.body == body,
            bytes_view(r.first_bytes) == bytes_view(first_bytes),
    {
        BodyPieces { body, first_bytes }
    }
}

/// An error with optional [BodyPieces].
pub struct ErrorWithBodyPieces<ErrorT, BodyT> {
    /// Error.
    pub error: ErrorT,
    /// Pieces.
    pub pieces: Option<BodyPieces<BodyT>>,
}

impl<ErrorT, BodyT> ErrorWithBodyPieces<ErrorT, BodyT> {
    /// Constructor.
    pub fn new(error: ErrorT, pieces: Option<BodyPieces<BodyT>>) -> (r: Self)
        ensures
            r.error == error,
            r.pieces == pieces,
    {
        ErrorWithBodyPieces { error, pieces }
    }

    /// An error without pieces.
    pub fn from_error(error: ErrorT) -> (r: Self)
        ensures
            r.error == error,
            r.pieces is None,
    {
        ErrorWithBodyPieces { error, pieces: None }
    }
}

/// [Response] as Verus sees it: opaque.
#[verifier::external_type_specification]
#[verifier::external_body]
#[verifier::reject_recursive_types(T)]
pub struct ExResponse<T>(Response<T>);

/// [Parts] as Verus sees it: opaque.
#[verifier::external_type_specification]
#[verifier::external_body]
pub struct ExParts(Parts);

/// `Response::from_parts`: a response of head parts and a body.
#[verifier::external_body]
fn response_from_parts<BodyT>(parts: Parts, body: BodyT) -> Response<BodyT> {
    Response::from_parts(parts, body)
}

/// Response pieces: the response (head and remaining body) and the body bytes already read.
///
/// Can be used to reconstruct the response, its body starting with `first_bytes`.
#[verifier::reject_recursive_types(ResponseBodyT)]
pub struct ResponsePieces<ResponseBodyT> {
    /// Response.
    pub response: Response<ResponseBodyT>,
    /// First bytes.
    pub first_bytes: Bytes,
}

impl<ResponseBodyT> ResponsePieces<ResponseBodyT> {
    /// Constructor.
    pub fn new(parts: Parts, body: ResponseBodyT, first_bytes: Bytes) -> (r: Self)
        ensures
            bytes_view(r.first_bytes) == bytes_view(first_bytes),
    {
        ResponsePieces { response: response_from_parts(parts, body), first_bytes }
    }

    /// Constructor from body pieces.
    pub fn new_from_body_pieces(parts: Parts, body_pieces: BodyPieces<ResponseBodyT>) -> (r: Self)
        ensures
            bytes_view(r.first_bytes) == bytes_view(body_pieces.first_bytes),
    {
        ResponsePieces::new(parts, body_pieces.body, body_pieces.first_bytes)
    }
}

/// An error with optional [ResponsePieces].
#[verifier::reject_recursive_types(BodyT)]
pub struct ErrorWithResponsePieces<ErrorT, BodyT> {
    /// Error.
    pub error: ErrorT,
    /// Pieces.
    pub pieces: Option<ResponsePieces<BodyT>>,
}

impl<ErrorT, BodyT> ErrorWithResponsePieces<ErrorT, BodyT> {
    /// Constructor.
    pub fn new(error: ErrorT, pieces: Option<ResponsePieces<BodyT>>) -> (r: Self)
        ensures
            r.error == error,
            r.pieces == pieces,
    {
        ErrorWithResponsePieces { error, pieces }
    }

    /// An error without pieces.
    pub fn from_error(error: ErrorT) -> (r: Self)
        ensures
            r.error == error,
            r.pieces is None,
    {
        ErrorWithResponsePieces { error, pieces: None }
    }

    /// The error of reading a body, with the response rebuilt from the head parts and the body
    /// pieces, if there are pieces.
    pub fn new_from_body(error: ErrorWithBodyPieces<ErrorT, BodyT>, parts: Parts) -> (r: Self)
        ensures
            r.error == error.error,
            r.pieces is Some <==> error.pieces is Some,
            r.pieces matches Some(pieces) ==> bytes_view(pieces.first_bytes) == bytes_view(
                error.pieces->0.first_bytes,
            ),
    {
        let pieces = match error.pieces {
            Some(body_pieces) => Some(ResponsePieces::new_from_body_pieces(parts, body_pieces)),
            None => None,
        };
        ErrorWithResponsePieces { error: error.error, pieces }
    }
}

} // verus!
