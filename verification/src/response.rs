//! The response envelope, the error value, and their codec.

use vstd::prelude::*;

use crate::id::{Id, IdV, id_bytes_of, id_from_raw, id_wf, read_id_from_raw, serialize_id};
use crate::lex::{white_end, skip_white, LBRACE};
use crate::raw::{
    check_raw, clone_bytes, fields_view, members_first, members_first_x, num_class, read_num,
    valid_raw, NumTok, NumV,
};
use crate::emit::{int_bytes_of, obj_bytes_of, push_dec_i64, push_obj, push_str_bytes, str_bytes_of};
use crate::request::{
    count_from, find_from, key_id, key_id_x, key_jsonrpc, key_jsonrpc_x, read_str_from_raw,
    str_from_raw, ver_bytes, ver_bytes_x,
};
use crate::{DecodeError, DecodeErrorV, Field};

verus! {

/// A JSON-RPC 2.0 error code.
///
/// The newtype keeps numeric codes semantically distinct from arbitrary
/// integers; the code space itself stays an open signed-integer domain.
#[derive(Debug, Clone, Copy, PartialEq, Eq, PartialOrd, Ord, Hash, Structural)]
pub struct ErrorCode(pub i64);

impl ErrorCode {
    /// The code reporting that the server cannot parse the request.
    pub fn parse_error() -> (r: ErrorCode)
        ensures
            r.0 == -32700,
    {
        ErrorCode(-32700)
    }

    /// The code reporting that the request is not a valid envelope.
    pub fn invalid_request() -> (r: ErrorCode)
        ensures
            r.0 == -32600,
    {
        ErrorCode(-32600)
    }

    /// The code reporting that the method does not exist.
    pub fn method_not_found() -> (r: ErrorCode)
        ensures
            r.0 == -32601,
    {
        ErrorCode(-32601)
    }

    /// The code reporting invalid parameters.
    pub fn invalid_params() -> (r: ErrorCode)
        ensures
            r.0 == -32602,
    {
        ErrorCode(-32602)
    }

    /// The code reporting an internal server error.
    pub fn internal_error() -> (r: ErrorCode)
        ensures
            r.0 == -32603,
    {
        ErrorCode(-32603)
    }
}

/// A JSON-RPC 2.0 error value.
#[derive(Debug, Clone)]
pub struct Error {
    /// The error code.
    pub code: ErrorCode,
    /// The error message (unescaped bytes of the wire string).
    pub message: Vec<u8>,
    /// Additional data about the error, as a raw JSON span.
    pub data: Option<Vec<u8>>,
}

/// Mathematical model of an [`Error`].
pub struct ErrorV {
    /// The error code.
    pub code: int,
    /// The message bytes.
    pub message: Seq<u8>,
    /// The raw data span, if present.
    pub data: Option<Seq<u8>>,
}

impl View for Error {
    type V = ErrorV;

    open spec fn view(&self) -> ErrorV {
        ErrorV {
            code: self.code.0 as int,
            message: self.message@,
            data: match &self.data {
                Some(d) => Some(d@),
                None => None,
            },
        }
    }
}

/// Well-formedness of an error value.
pub open spec fn err_wf(ev: ErrorV) -> bool {
    &&& -0x8000_0000_0000_0000 <= ev.code < 0x8000_0000_0000_0000
    &&& match ev.data {
        Some(d) => valid_raw(d),
        None => true,
    }
}

/// A JSON-RPC 2.0 response.
///
/// Exactly one of `result` and `error` stands on the wire; the `id` is
/// always mandatory, even when its value is `null`.
#[derive(Debug)]
pub struct Response {
    /// The outcome of the request: a raw result span, or the error value.
    pub result: Result<Vec<u8>, Error>,
    /// The ID of the request this response replies to.
    pub id: Id,
}

/// Mathematical model of a [`Response`].
pub struct ResponseV {
    /// The outcome.
    pub result: Result<Seq<u8>, ErrorV>,
    /// The identifier.
    pub id: IdV,
}

impl View for Response {
    type V = ResponseV;

    open spec fn view(&self) -> ResponseV {
        ResponseV {
            result: match &self.result {
                Ok(r) => Ok(r@),
                Err(e) => Err(e@),
            },
            id: self.id@,
        }
    }
}

/// Well-formedness of a response value.
pub open spec fn resp_wf(rv: ResponseV) -> bool {
    &&& match rv.result {
        Ok(r) => valid_raw(r),
        Err(e) => err_wf(e),
    }
    &&& id_wf(rv.id)
}

impl Response {
    /// Well-formedness (see [`resp_wf`]).
    pub open spec fn wf(&self) -> bool {
        resp_wf(self@)
    }
}

/// Returns an identifier equal to the given one without consuming it, for
/// re-serializing into a new envelope.
pub fn id_as_ref(id: &Id) -> (r: Id)
    ensures
        r@ == id@,
{
    id.reborrow()
}

/// The bytes of the `result` key.
pub open spec fn key_result() -> Seq<u8> {
    seq![114u8, 101u8, 115u8, 117u8, 108u8, 116u8]
}

/// The bytes of the `error` key.
pub open spec fn key_error() -> Seq<u8> {
    seq![101u8, 114u8, 114u8, 111u8, 114u8]
}

/// The bytes of the `code` key.
pub open spec fn key_code() -> Seq<u8> {
    seq![99u8, 111u8, 100u8, 101u8]
}

/// The bytes of the `message` key.
pub open spec fn key_message() -> Seq<u8> {
    seq![109u8, 101u8, 115u8, 115u8, 97u8, 103u8, 101u8]
}

/// The bytes of the `data` key.
pub open spec fn key_data() -> Seq<u8> {
    seq![100u8, 97u8, 116u8, 97u8]
}

/// Builds the `result` key.
pub fn key_result_x() -> (v: Vec<u8>)
    ensures
        v@ == key_result(),
{
    let mut v: Vec<u8> = Vec::new();
    v.push(114);
    v.push(101);
    v.push(115);
    v.push(117);
    v.push(108);
    v.push(116);
    proof {
        assert(v@ =~= key_result());
    }
    v
}

/// Builds the `error` key.
pub fn key_error_x() -> (v: Vec<u8>)
    ensures
        v@ == key_error(),
{
    let mut v: Vec<u8> = Vec::new();
    v.push(101);
    v.push(114);
    v.push(114);
    v.push(111);
    v.push(114);
    proof {
        assert(v@ =~= key_error());
    }
    v
}

/// Builds the `code` key.
pub fn key_code_x() -> (v: Vec<u8>)
    ensures
        v@ == key_code(),
{
    let mut v: Vec<u8> = Vec::new();
    v.push(99);
    v.push(111);
    v.push(100);
    v.push(101);
    proof {
        assert(v@ =~= key_code());
    }
    v
}

/// Builds the `message` key.
pub fn key_message_x() -> (v: Vec<u8>)
    ensures
        v@ == key_message(),
{
    let mut v: Vec<u8> = Vec::new();
    v.push(109);
    v.push(101);
    v.push(115);
    v.push(115);
    v.push(97);
    v.push(103);
    v.push(101);
    proof {
        assert(v@ =~= key_message());
    }
    v
}

/// Builds the `data` key.
pub fn key_data_x() -> (v: Vec<u8>)
    ensures
        v@ == key_data(),
{
    let mut v: Vec<u8> = Vec::new();
    v.push(100);
    v.push(97);
    v.push(116);
    v.push(97);
    proof {
        assert(v@ =~= key_data());
    }
    v
}

// ---------------------------------------------------------------------------
// Encoding
// ---------------------------------------------------------------------------

/// The members an error object serializes to: `code`, `message`, and
/// `data` only when present.
pub open spec fn err_fields(ev: ErrorV) -> Seq<(Seq<u8>, Seq<u8>)> {
    seq![
        (key_code(), int_bytes_of(ev.code)),
        (key_message(), str_bytes_of(ev.message)),
    ] + (match ev.data {
        Some(d) => seq![(key_data(), d)],
        None => Seq::empty(),
    })
}

/// The exact bytes an error object serializes to.
pub open spec fn err_bytes_of(ev: ErrorV) -> Seq<u8> {
    obj_bytes_of(err_fields(ev))
}

/// The members a response serializes to, in wire order: `jsonrpc`, then
/// `result` on success or `error` on failure (never both), then `id`.
pub open spec fn resp_fields(rv: ResponseV) -> Seq<(Seq<u8>, Seq<u8>)> {
    seq![(key_jsonrpc(), str_bytes_of(ver_bytes()))] + (match rv.result {
        Ok(r) => seq![(key_result(), r)],
        Err(e) => seq![(key_error(), err_bytes_of(e))],
    }) + seq![(key_id(), id_bytes_of(rv.id))]
}

/// The exact bytes a response serializes to.
pub open spec fn resp_bytes_of(rv: ResponseV) -> Seq<u8> {
    obj_bytes_of(resp_fields(rv))
}

/// The wire-ready form of a response: its member list, laid out exactly
/// as it will be written.
pub struct OutogingResponse {
    /// Keys and raw value spans, in wire order.
    pub fields: Vec<(Vec<u8>, Vec<u8>)>,
}

impl OutogingResponse {
    /// Lays a response out as its wire members.
    pub fn from_response(resp: &Response) -> (r: OutogingResponse)
        ensures
            fields_view(r.fields@) == resp_fields(resp@),
    {
        let mut fields: Vec<(Vec<u8>, Vec<u8>)> = Vec::new();
        let ver = ver_bytes_x();
        let mut vspan: Vec<u8> = Vec::new();
        push_str_bytes(&mut vspan, ver.as_slice());
        proof {
            assert(vspan@ =~= str_bytes_of(ver_bytes()));
        }
        fields.push((key_jsonrpc_x(), vspan));
        match &resp.result {
            Ok(r) => {
                fields.push((key_result_x(), clone_bytes(r.as_slice())));
            },
            Err(e) => {
                let mut efields: Vec<(Vec<u8>, Vec<u8>)> = Vec::new();
                let mut cspan: Vec<u8> = Vec::new();
                push_dec_i64(&mut cspan, e.code.0);
                proof {
                    assert(cspan@ =~= int_bytes_of(e.code.0 as int));
                }
                efields.push((key_code_x(), cspan));
                let mut mspan: Vec<u8> = Vec::new();
                push_str_bytes(&mut mspan, e.message.as_slice());
                proof {
                    assert(mspan@ =~= str_bytes_of(e.message@));
                }
                efields.push((key_message_x(), mspan));
                match &e.data {
                    Some(d) => {
                        efields.push((key_data_x(), clone_bytes(d.as_slice())));
                    },
                    None => {},
                }
                proof {
                    assert(fields_view(efields@) =~= err_fields(e@));
                }
                let mut espan: Vec<u8> = Vec::new();
                push_obj(&mut espan, &efields);
                proof {
                    assert(espan@ =~= err_bytes_of(e@));
                }
                fields.push((key_error_x(), espan));
            },
        }
        fields.push((key_id_x(), serialize_id(&resp.id)));
        proof {
            assert(fields_view(fields@) =~= resp_fields(resp@));
        }
        OutogingResponse { fields }
    }
}

/// Serializes a response to its exact wire bytes.
pub fn serialize_response(resp: &Response) -> (out: Vec<u8>)
    ensures
        out@ == resp_bytes_of(resp@),
{
    let outgoing = OutogingResponse::from_response(resp);
    let mut out: Vec<u8> = Vec::new();
    push_obj(&mut out, &outgoing.fields);
    proof {
        assert(out@ =~= resp_bytes_of(resp@));
    }
    out
}

// ---------------------------------------------------------------------------
// Decoding
// ---------------------------------------------------------------------------

/// The signed integer a raw span denotes, when it is an integer literal in
/// the `i64` range.
pub open spec fn int_from_raw(v: Seq<u8>) -> Option<int> {
    match num_class(v, 0) {
        Some((nv, te)) => if te == v.len() {
            match nv {
                NumV::Int(n) => Some(n),
                NumV::Uint(n) => if n <= 0x7FFF_FFFF_FFFF_FFFF {
                    Some(n)
                } else {
                    None
                },
                NumV::Float => None,
            }
        } else {
            None
        },
        None => None,
    }
}

/// Executable twin of [`int_from_raw`].
pub fn read_int_from_raw(v: &[u8]) -> (r: Option<i64>)
    ensures
        match r {
            Some(n) => int_from_raw(v@) == Some(n as int),
            None => int_from_raw(v@) is None,
        },
{
    match read_num(v, 0) {
        Some((tok, e)) => if e == v.len() {
            match tok {
                NumTok::Int(n) => Some(n),
                NumTok::Uint(n) => if n <= 0x7FFF_FFFF_FFFF_FFFF {
                    Some(n as i64)
                } else {
                    None
                },
                NumTok::Float => None,
            }
        } else {
            None
        },
        None => None,
    }
}

/// The error value an error-object member list denotes, or the exact
/// error: `code` must be an integer in range, `message` a string, `data`
/// at most once.
pub open spec fn err_of_fields(efs: Seq<(Seq<u8>, Seq<u8>)>) -> Result<ErrorV, DecodeErrorV> {
    match find_from(efs, key_code(), 0) {
        None => Err(DecodeErrorV::Missing(Field::Code)),
        Some(cs) => {
            if count_from(efs, key_code(), 0) > 1 {
                Err(DecodeErrorV::Duplicate(Field::Code))
            } else {
                match int_from_raw(cs) {
                    None => Err(DecodeErrorV::Shape),
                    Some(c) => match find_from(efs, key_message(), 0) {
                        None => Err(DecodeErrorV::Missing(Field::Message)),
                        Some(ms) => {
                            if count_from(efs, key_message(), 0) > 1 {
                                Err(DecodeErrorV::Duplicate(Field::Message))
                            } else {
                                match str_from_raw(ms) {
                                    None => Err(DecodeErrorV::Shape),
                                    Some(msg) => err_data_of_fields(efs, c, msg),
                                }
                            }
                        },
                    },
                }
            }
        },
    }
}

/// The `data` member of an error object, once code and message are
/// settled.
pub open spec fn err_data_of_fields(efs: Seq<(Seq<u8>, Seq<u8>)>, c: int, msg: Seq<u8>) -> Result<
    ErrorV,
    DecodeErrorV,
> {
    match find_from(efs, key_data(), 0) {
        Some(d) => {
            if count_from(efs, key_data(), 0) > 1 {
                Err(DecodeErrorV::Duplicate(Field::Data))
            } else if !valid_raw(d) {
                Err(DecodeErrorV::Syntax)
            } else {
                Ok(ErrorV { code: c, message: msg, data: Some(d) })
            }
        },
        None => Ok(ErrorV { code: c, message: msg, data: None }),
    }
}

/// The error value a raw span denotes: it must be an object whose members
/// form an error value.
#[verifier::opaque]
pub open spec fn err_of_raw(v: Seq<u8>) -> Result<ErrorV, DecodeErrorV> {
    if v.len() > 0 && v[0] == LBRACE {
        match members_first(v, 1) {
            Some((efs, e)) => if e == v.len() {
                err_of_fields(efs)
            } else {
                Err(DecodeErrorV::Syntax)
            },
            None => Err(DecodeErrorV::Syntax),
        }
    } else {
        Err(DecodeErrorV::Shape)
    }
}

/// Executable twin of [`err_of_raw`].
pub fn read_err_of_raw(v: &[u8]) -> (r: Result<Error, DecodeError>)
    ensures
        match r {
            Ok(err) => err_of_raw(v@) == Ok::<ErrorV, DecodeErrorV>(err@) && err_wf(err@),
            Err(e) => err_of_raw(v@) == Err::<ErrorV, DecodeErrorV>(e@),
        },
{
    proof {
        reveal(err_of_raw);
    }
    if v.len() > 0 && v[0] == LBRACE {
        match members_first_x(v, 1) {
            Some((efields, e)) => {
                if e != v.len() {
                    return Err(DecodeError::Syntax);
                }
                let kc = key_code_x();
                let cs = match crate::request::find_field(&efields, kc.as_slice()) {
                    Some(c) => c,
                    None => {
                        return Err(DecodeError::Missing(Field::Code));
                    },
                };
                if crate::request::count_field(&efields, kc.as_slice()) > 1 {
                    return Err(DecodeError::Duplicate(Field::Code));
                }
                let code = match read_int_from_raw(cs.as_slice()) {
                    Some(c) => c,
                    None => {
                        return Err(DecodeError::Shape);
                    },
                };
                let km = key_message_x();
                let ms = match crate::request::find_field(&efields, km.as_slice()) {
                    Some(m) => m,
                    None => {
                        return Err(DecodeError::Missing(Field::Message));
                    },
                };
                if crate::request::count_field(&efields, km.as_slice()) > 1 {
                    return Err(DecodeError::Duplicate(Field::Message));
                }
                let msg = match read_str_from_raw(ms.as_slice()) {
                    Some(m) => m,
                    None => {
                        return Err(DecodeError::Shape);
                    },
                };
                let kd = key_data_x();
                let data = match crate::request::find_field(&efields, kd.as_slice()) {
                    Some(d) => {
                        if crate::request::count_field(&efields, kd.as_slice()) > 1 {
                            return Err(DecodeError::Duplicate(Field::Data));
                        }
                        if !check_raw(d.as_slice()) {
                            return Err(DecodeError::Syntax);
                        }
                        Some(d)
                    },
                    None => None,
                };
                Ok(Error { code: ErrorCode(code), message: msg, data })
            },
            None => Err(DecodeError::Syntax),
        }
    } else {
        Err(DecodeError::Shape)
    }
}

/// The response a member list denotes, or the exact error.  Exactly one of
/// `result` and `error` must be present: both is one error, neither is a
/// distinct one.  The `id` member is required here, unlike on requests.
#[verifier::opaque]
pub open spec fn resp_of_fields(fs: Seq<(Seq<u8>, Seq<u8>)>) -> Result<ResponseV, DecodeErrorV> {
    match find_from(fs, key_jsonrpc(), 0) {
        None => Err(DecodeErrorV::Missing(Field::Jsonrpc)),
        Some(vspan) => {
            if count_from(fs, key_jsonrpc(), 0) > 1 {
                Err(DecodeErrorV::Duplicate(Field::Jsonrpc))
            } else {
                match str_from_raw(vspan) {
                    None => Err(DecodeErrorV::Shape),
                    Some(ver) => {
                        if ver != ver_bytes() {
                            Err(DecodeErrorV::Version(ver))
                        } else {
                            resp_outcome_of_fields(fs)
                        }
                    },
                }
            }
        },
    }
}

/// The outcome members of a response, once the version is settled.
pub open spec fn resp_outcome_of_fields(fs: Seq<(Seq<u8>, Seq<u8>)>) -> Result<
    ResponseV,
    DecodeErrorV,
> {
    if count_from(fs, key_result(), 0) > 1 {
        Err(DecodeErrorV::Duplicate(Field::Result))
    } else if count_from(fs, key_error(), 0) > 1 {
        Err(DecodeErrorV::Duplicate(Field::Error))
    } else {
        match (find_from(fs, key_result(), 0), find_from(fs, key_error(), 0)) {
            (Some(_), Some(_)) => Err(DecodeErrorV::BothResultAndError),
            (None, None) => Err(DecodeErrorV::NeitherResultNorError),
            (Some(r), None) => {
                if !valid_raw(r) {
                    Err(DecodeErrorV::Syntax)
                } else {
                    resp_id_of_fields(fs, Ok(r))
                }
            },
            (None, Some(es)) => match err_of_raw(es) {
                Ok(ev) => resp_id_of_fields(fs, Err(ev)),
                Err(e) => Err(e),
            },
        }
    }
}

/// The `id` member of a response, once the outcome is settled.  Its
/// absence is a decode error here.
pub open spec fn resp_id_of_fields(
    fs: Seq<(Seq<u8>, Seq<u8>)>,
    outcome: Result<Seq<u8>, ErrorV>,
) -> Result<ResponseV, DecodeErrorV> {
    match find_from(fs, key_id(), 0) {
        None => Err(DecodeErrorV::Missing(Field::Id)),
        Some(ispan) => {
            if count_from(fs, key_id(), 0) > 1 {
                Err(DecodeErrorV::Duplicate(Field::Id))
            } else {
                match id_from_raw(ispan) {
                    None => Err(DecodeErrorV::Shape),
                    Some(idv) => Ok(ResponseV { result: outcome, id: idv }),
                }
            }
        },
    }
}

/// The response a whole document denotes: optional whitespace, one
/// response object, optional whitespace.
#[verifier::opaque]
pub open spec fn deserialize_response_spec(s: Seq<u8>) -> Result<ResponseV, DecodeErrorV> {
    let i = white_end(s, 0);
    if !(0 <= i < s.len()) {
        Err(DecodeErrorV::Syntax)
    } else if s[i] != LBRACE {
        Err(DecodeErrorV::Shape)
    } else {
        match members_first(s, i + 1) {
            None => Err(DecodeErrorV::Syntax),
            Some((fs, e)) => {
                if white_end(s, e) == s.len() {
                    resp_of_fields(fs)
                } else {
                    Err(DecodeErrorV::Syntax)
                }
            },
        }
    }
}

/// Executable twin of [`resp_of_fields`].
pub fn read_resp_of_fields(fields: &Vec<(Vec<u8>, Vec<u8>)>) -> (r: Result<Response, DecodeError>)
    ensures
        match r {
            Ok(resp) => resp_of_fields(fields_view(fields@)) == Ok::<ResponseV, DecodeErrorV>(
                resp@,
            ) && resp.wf(),
            Err(e) => resp_of_fields(fields_view(fields@)) == Err::<ResponseV, DecodeErrorV>(e@),
        },
{
    proof {
        reveal(resp_of_fields);
    }
    let kj = key_jsonrpc_x();
    let vspan = match crate::request::find_field(fields, kj.as_slice()) {
        Some(v) => v,
        None => {
            return Err(DecodeError::Missing(Field::Jsonrpc));
        },
    };
    if crate::request::count_field(fields, kj.as_slice()) > 1 {
        return Err(DecodeError::Duplicate(Field::Jsonrpc));
    }
    let ver = match read_str_from_raw(vspan.as_slice()) {
        Some(c) => c,
        None => {
            return Err(DecodeError::Shape);
        },
    };
    let vb = ver_bytes_x();
    if !crate::lex::bytes_eq(ver.as_slice(), vb.as_slice()) {
        return Err(DecodeError::Version(ver));
    }
    let kr = key_result_x();
    let ke = key_error_x();
    if crate::request::count_field(fields, kr.as_slice()) > 1 {
        return Err(DecodeError::Duplicate(Field::Result));
    }
    if crate::request::count_field(fields, ke.as_slice()) > 1 {
        return Err(DecodeError::Duplicate(Field::Error));
    }
    let ro = crate::request::find_field(fields, kr.as_slice());
    let eo = crate::request::find_field(fields, ke.as_slice());
    let outcome: Result<Vec<u8>, Error> = match (ro, eo) {
        (Some(_), Some(_)) => {
            return Err(DecodeError::BothResultAndError);
        },
        (None, None) => {
            return Err(DecodeError::NeitherResultNorError);
        },
        (Some(r), None) => {
            if !check_raw(r.as_slice()) {
                return Err(DecodeError::Syntax);
            }
            Ok(r)
        },
        (None, Some(es)) => match read_err_of_raw(es.as_slice()) {
            Ok(err) => Err(err),
            Err(e) => {
                return Err(e);
            },
        },
    };
    let ki = key_id_x();
    let id = match crate::request::find_field(fields, ki.as_slice()) {
        None => {
            return Err(DecodeError::Missing(Field::Id));
        },
        Some(ispan) => {
            if crate::request::count_field(fields, ki.as_slice()) > 1 {
                return Err(DecodeError::Duplicate(Field::Id));
            }
            match read_id_from_raw(ispan.as_slice()) {
                Some(id) => id,
                None => {
                    return Err(DecodeError::Shape);
                },
            }
        },
    };
    Ok(Response { result: outcome, id })
}

/// Deserializes a response from its wire bytes.
///
/// Requires `jsonrpc` to be exactly `"2.0"`, the `id` key to be present,
/// and exactly one of `result` and `error` to stand on the wire.
pub fn deserialize_response(bytes: &[u8]) -> (r: Result<Response, DecodeError>)
    ensures
        match r {
            Ok(resp) => deserialize_response_spec(bytes@) == Ok::<ResponseV, DecodeErrorV>(resp@)
                && resp.wf(),
            Err(e) => deserialize_response_spec(bytes@) == Err::<ResponseV, DecodeErrorV>(e@),
        },
{
    proof {
        reveal(deserialize_response_spec);
    }
    let i = skip_white(bytes, 0);
    if i >= bytes.len() {
        return Err(DecodeError::Syntax);
    }
    if bytes[i] != LBRACE {
        return Err(DecodeError::Shape);
    }
    match members_first_x(bytes, i + 1) {
        None => Err(DecodeError::Syntax),
        Some((fields, e)) => {
            let t = skip_white(bytes, e);
            if t == bytes.len() {
                read_resp_of_fields(&fields)
            } else {
                Err(DecodeError::Syntax)
            }
        },
    }
}

} // verus!
