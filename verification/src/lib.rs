//! Wire-level data model and codec for JSON-RPC 2.0 messages.
//!
//! The crate defines the request, response, identifier, error and batch
//! types of the protocol together with a verified byte-level codec: every
//! encoder is proved to emit exactly the bytes its specification describes,
//! and every decoder is proved to return exactly the value (or error) that
//! the specification-level parser assigns to its input.

pub mod batch;
pub mod emit;
pub mod id;
pub mod laws;
pub mod lex;
pub mod raw;
pub mod request;
pub mod response;
pub mod unknown_params;
pub mod utils;

pub use batch::MaybeBatchedRequests;
pub use id::Id;
pub use request::Request;
pub use response::{Error, ErrorCode, Response};
pub use unknown_params::UnknownParams;

use vstd::prelude::*;

verus! {

/// The wire fields a decode error can point at.
#[derive(Debug, Clone, Copy, PartialEq, Eq, Structural)]
pub enum Field {
    /// The `jsonrpc` version tag.
    Jsonrpc,
    /// The request `method`.
    Method,
    /// The request `params`.
    Params,
    /// The `id` of a request or response.
    Id,
    /// The response `result`.
    Result,
    /// The response `error`.
    Error,
    /// The `code` of an error object.
    Code,
    /// The `message` of an error object.
    Message,
    /// The `data` of an error object.
    Data,
}

/// Why a decode failed.  Every failure is a reported value; the codec never
/// panics on malformed input.
#[derive(Debug, Clone)]
pub enum DecodeError {
    /// The input is not one well-formed JSON document.
    Syntax,
    /// A value has the wrong JSON kind for its position (an identifier that
    /// is an object, a `code` that is not an integer, a non-object where an
    /// envelope was expected).
    Shape,
    /// The `jsonrpc` field is present but not exactly `2.0`; carries the
    /// offending bytes.
    Version(Vec<u8>),
    /// A required field is absent.
    Missing(Field),
    /// A recognized field occurs twice.
    Duplicate(Field),
    /// A response carries both `result` and `error`.
    BothResultAndError,
    /// A response carries neither `result` nor `error`.
    NeitherResultNorError,
}

/// Mathematical model of a [`DecodeError`].
pub enum DecodeErrorV {
    /// See [`DecodeError::Syntax`].
    Syntax,
    /// See [`DecodeError::Shape`].
    Shape,
    /// See [`DecodeError::Version`].
    Version(Seq<u8>),
    /// See [`DecodeError::Missing`].
    Missing(Field),
    /// See [`DecodeError::Duplicate`].
    Duplicate(Field),
    /// See [`DecodeError::BothResultAndError`].
    BothResultAndError,
    /// See [`DecodeError::NeitherResultNorError`].
    NeitherResultNorError,
}

impl View for DecodeError {
    type V = DecodeErrorV;

    open spec fn view(&self) -> DecodeErrorV {
        match self {
            DecodeError::Syntax => DecodeErrorV::Syntax,
            DecodeError::Shape => DecodeErrorV::Shape,
            DecodeError::Version(v) => DecodeErrorV::Version(v@),
            DecodeError::Missing(f) => DecodeErrorV::Missing(*f),
            DecodeError::Duplicate(f) => DecodeErrorV::Duplicate(*f),
            DecodeError::BothResultAndError => DecodeErrorV::BothResultAndError,
            DecodeError::NeitherResultNorError => DecodeErrorV::NeitherResultNorError,
        }
    }
}

impl PartialEq for DecodeError {
    fn eq(&self, other: &DecodeError) -> (r: bool) {
        match (self, other) {
            (DecodeError::Syntax, DecodeError::Syntax) => true,
            (DecodeError::Shape, DecodeError::Shape) => true,
            (DecodeError::Version(a), DecodeError::Version(b)) => lex::bytes_eq(
                a.as_slice(),
                b.as_slice(),
            ),
            (DecodeError::Missing(a), DecodeError::Missing(b)) => a == b,
            (DecodeError::Duplicate(a), DecodeError::Duplicate(b)) => a == b,
            (DecodeError::BothResultAndError, DecodeError::BothResultAndError) => true,
            (DecodeError::NeitherResultNorError, DecodeError::NeitherResultNorError) => true,
            _ => false,
        }
    }
}

impl vstd::std_specs::cmp::PartialEqSpecImpl for DecodeError {
    open spec fn obeys_eq_spec() -> bool {
        true
    }

    open spec fn eq_spec(&self, other: &DecodeError) -> bool {
        self@ == other@
    }
}

} // verus!
