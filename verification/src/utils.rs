//! Byte-buffer entry points: the convenience surface transport code calls.

use vstd::prelude::*;

use crate::id::{Id, IdV};
use crate::raw::clone_bytes;
use crate::request::{Request, RequestV, deserialize_request, deserialize_request_spec, req_bytes_of, serialize_request};
use crate::response::{
    Error, ErrorCode, ErrorV, Response, ResponseV, deserialize_response,
    deserialize_response_spec, resp_bytes_of, serialize_response,
};
use crate::unknown_params::UnknownParams;
use crate::{DecodeError, DecodeErrorV};

verus! {

/// Writes a request with the given method, params and ID to a vector of
/// bytes.  A request without an identifier is written as a notification:
/// the `id` key is omitted entirely, never written as `null`.
pub fn write_request(method: &[u8], params: &UnknownParams, id: Option<Id>) -> (out: Vec<u8>)
    ensures
        out@ == req_bytes_of(
            RequestV {
                method: method@,
                params: params@,
                id: match id {
                    Some(i) => Some(i@),
                    None => None,
                },
            },
        ),
{
    let request = Request { method: clone_bytes(method), params: params.clone_params(), id };
    serialize_request(&request)
}

/// Writes a response with the given outcome and ID to a vector of bytes.
pub fn write_response(result: Result<Vec<u8>, Error>, id: Id) -> (out: Vec<u8>)
    ensures
        out@ == resp_bytes_of(
            ResponseV {
                result: match &result {
                    Ok(r) => Ok(r@),
                    Err(e) => Err(e@),
                },
                id: id@,
            },
        ),
{
    let response = Response { result, id };
    serialize_response(&response)
}

/// Writes a successful response with the given raw result span and ID.
pub fn write_success(value: Vec<u8>, id: Id) -> (out: Vec<u8>)
    ensures
        out@ == resp_bytes_of(ResponseV { result: Ok(value@), id: id@ }),
{
    write_response(Ok(value), id)
}

/// Writes a failed response with the given error and ID.
pub fn write_failure(code: ErrorCode, message: &[u8], id: Id, data: Vec<u8>) -> (out: Vec<u8>)
    ensures
        out@ == resp_bytes_of(
            ResponseV {
                result: Err(
                    ErrorV { code: code.0 as int, message: message@, data: Some(data@) },
                ),
                id: id@,
            },
        ),
{
    let error = Error { code, message: clone_bytes(message), data: Some(data) };
    write_response(Err(error), id)
}

/// Writes a failed response that carries no error data.
pub fn write_datalass_failure(code: ErrorCode, message: &[u8], id: Id) -> (out: Vec<u8>)
    ensures
        out@ == resp_bytes_of(
            ResponseV {
                result: Err(ErrorV { code: code.0 as int, message: message@, data: None }),
                id: id@,
            },
        ),
{
    let error = Error { code, message: clone_bytes(message), data: None };
    write_response(Err(error), id)
}

/// Attempts to read a request from a slice of bytes.
pub fn read_request(bytes: &[u8]) -> (r: Result<Request, DecodeError>)
    ensures
        match r {
            Ok(req) => deserialize_request_spec(bytes@) == Ok::<RequestV, DecodeErrorV>(req@)
                && req.wf(),
            Err(e) => deserialize_request_spec(bytes@) == Err::<RequestV, DecodeErrorV>(e@),
        },
{
    deserialize_request(bytes)
}

/// Attempts to read a response from a slice of bytes.
pub fn read_response(bytes: &[u8]) -> (r: Result<Response, DecodeError>)
    ensures
        match r {
            Ok(resp) => deserialize_response_spec(bytes@) == Ok::<ResponseV, DecodeErrorV>(resp@)
                && resp.wf(),
            Err(e) => deserialize_response_spec(bytes@) == Err::<ResponseV, DecodeErrorV>(e@),
        },
{
    deserialize_response(bytes)
}

/// The same response with any error data discarded.
pub open spec fn strip_data(rv: ResponseV) -> ResponseV {
    match rv.result {
        Ok(r) => rv,
        Err(e) => ResponseV {
            result: Err(ErrorV { code: e.code, message: e.message, data: None }),
            id: rv.id,
        },
    }
}

/// Reads a response from a slice of bytes, discarding any error data
/// instead of handing it on.
pub fn read_response_ignore_error(bytes: &[u8]) -> (r: Result<Response, DecodeError>)
    ensures
        match r {
            Ok(resp) => {
                &&& deserialize_response_spec(bytes@) matches Ok(rv)
                &&& resp@ == strip_data(rv)
                &&& resp.wf()
            },
            Err(e) => deserialize_response_spec(bytes@) == Err::<ResponseV, DecodeErrorV>(e@),
        },
{
    match deserialize_response(bytes) {
        Ok(resp) => match resp.result {
            Ok(r) => Ok(Response { result: Ok(r), id: resp.id }),
            Err(e) => Ok(
                Response {
                    result: Err(Error { code: e.code, message: e.message, data: None }),
                    id: resp.id,
                },
            ),
        },
        Err(e) => Err(e),
    }
}

} // verus!
