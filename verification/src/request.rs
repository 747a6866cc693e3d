//! The request envelope and its codec.

use vstd::prelude::*;

use crate::id::{Id, IdV, id_bytes_of, id_from_raw, id_wf, read_id_from_raw, serialize_id};
use crate::lex::{white_end, str_content, skip_white, QUOTE, LBRACE};
use crate::raw::{
    check_raw, clone_bytes, fields_view, members_first, members_first_x, valid_raw,
};
use crate::emit::{obj_bytes_of, push_obj, str_bytes_of, push_str_bytes};
use crate::unknown_params::{UnknownParams, params_wf};
use crate::{DecodeError, DecodeErrorV, Field};

verus! {

/// A JSON-RPC 2.0 request.
///
/// A request without an identifier is a notification: it serializes with
/// the `id` key entirely omitted.  A request whose wire `id` was the
/// explicit `null` decodes to `Some(Id::Null)`, which is distinct from no
/// identifier at all.
#[derive(Debug, Clone)]
pub struct Request {
    /// The method to be invoked (unescaped bytes of the wire string).
    pub method: Vec<u8>,
    /// The parameters to be passed to the method.
    pub params: UnknownParams,
    /// The identifier associated with the request.
    pub id: Option<Id>,
}

/// Mathematical model of a [`Request`].
pub struct RequestV {
    /// The method name bytes.
    pub method: Seq<u8>,
    /// The raw parameter span, if the field was present.
    pub params: Option<Seq<u8>>,
    /// The identifier, if the field was present (`null` included).
    pub id: Option<IdV>,
}

impl View for Request {
    type V = RequestV;

    open spec fn view(&self) -> RequestV {
        RequestV {
            method: self.method@,
            params: self.params@,
            id: match &self.id {
                Some(id) => Some(id@),
                None => None,
            },
        }
    }
}

/// Well-formedness of a request value.
pub open spec fn req_wf(rv: RequestV) -> bool {
    &&& params_wf(rv.params)
    &&& match rv.id {
        Some(idv) => id_wf(idv),
        None => true,
    }
}

impl Request {
    /// Well-formedness (see [`req_wf`]).
    pub open spec fn wf(&self) -> bool {
        req_wf(self@)
    }
}

/// The bytes of the `jsonrpc` key.
pub open spec fn key_jsonrpc() -> Seq<u8> {
    seq![106u8, 115u8, 111u8, 110u8, 114u8, 112u8, 99u8]
}

/// The bytes of the `method` key.
pub open spec fn key_method() -> Seq<u8> {
    seq![109u8, 101u8, 116u8, 104u8, 111u8, 100u8]
}

/// The bytes of the `params` key.
pub open spec fn key_params() -> Seq<u8> {
    seq![112u8, 97u8, 114u8, 97u8, 109u8, 115u8]
}

/// The bytes of the `id` key.
pub open spec fn key_id() -> Seq<u8> {
    seq![105u8, 100u8]
}

/// The bytes of the protocol version string, `2.0`.
pub open spec fn ver_bytes() -> Seq<u8> {
    seq![50u8, 46u8, 48u8]
}

/// Builds the `jsonrpc` key.
pub fn key_jsonrpc_x() -> (v: Vec<u8>)
    ensures
        v@ == key_jsonrpc(),
{
    let mut v: Vec<u8> = Vec::new();
    v.push(106);
    v.push(115);
    v.push(111);
    v.push(110);
    v.push(114);
    v.push(112);
    v.push(99);
    proof {
        assert(v@ =~= key_jsonrpc());
    }
    v
}

/// Builds the `method` key.
pub fn key_method_x() -> (v: Vec<u8>)
    ensures
        v@ == key_method(),
{
    let mut v: Vec<u8> = Vec::new();
    v.push(109);
    v.push(101);
    v.push(116);
    v.push(104);
    v.push(111);
    v.push(100);
    proof {
        assert(v@ =~= key_method());
    }
    v
}

/// Builds the `params` key.
pub fn key_params_x() -> (v: Vec<u8>)
    ensures
        v@ == key_params(),
{
    let mut v: Vec<u8> = Vec::new();
    v.push(112);
    v.push(97);
    v.push(114);
    v.push(97);
    v.push(109);
    v.push(115);
    proof {
        assert(v@ =~= key_params());
    }
    v
}

/// Builds the `id` key.
pub fn key_id_x() -> (v: Vec<u8>)
    ensures
        v@ == key_id(),
{
    let mut v: Vec<u8> = Vec::new();
    v.push(105);
    v.push(100);
    proof {
        assert(v@ =~= key_id());
    }
    v
}

/// Builds the version string bytes.
pub fn ver_bytes_x() -> (v: Vec<u8>)
    ensures
        v@ == ver_bytes(),
{
    let mut v: Vec<u8> = Vec::new();
    v.push(50);
    v.push(46);
    v.push(48);
    proof {
        assert(v@ =~= ver_bytes());
    }
    v
}

// ---------------------------------------------------------------------------
// Field lookup
// ---------------------------------------------------------------------------

/// The raw span of the first member named `key`, searching from index `k`.
pub open spec fn find_from(fs: Seq<(Seq<u8>, Seq<u8>)>, key: Seq<u8>, k: int) -> Option<Seq<u8>>
    decreases fs.len() - k,
{
    if 0 <= k < fs.len() {
        if fs[k].0 == key {
            Some(fs[k].1)
        } else {
            find_from(fs, key, k + 1)
        }
    } else {
        None
    }
}

/// How many members are named `key`, from index `k` on.
pub open spec fn count_from(fs: Seq<(Seq<u8>, Seq<u8>)>, key: Seq<u8>, k: int) -> int
    decreases fs.len() - k,
{
    if 0 <= k < fs.len() {
        (if fs[k].0 == key {
            1int
        } else {
            0int
        }) + count_from(fs, key, k + 1)
    } else {
        0
    }
}

/// Executable twin of [`find_from`] at index 0, copying the found span.
pub fn find_field(fields: &Vec<(Vec<u8>, Vec<u8>)>, key: &[u8]) -> (r: Option<Vec<u8>>)
    ensures
        match r {
            Some(v) => find_from(fields_view(fields@), key@, 0) == Some(v@),
            None => find_from(fields_view(fields@), key@, 0) is None,
        },
{
    find_field_from(fields, key, 0)
}

fn find_field_from(fields: &Vec<(Vec<u8>, Vec<u8>)>, key: &[u8], k: usize) -> (r: Option<Vec<u8>>)
    requires
        k <= fields@.len(),
    ensures
        match r {
            Some(v) => find_from(fields_view(fields@), key@, k as int) == Some(v@),
            None => find_from(fields_view(fields@), key@, k as int) is None,
        },
    decreases fields@.len() - k,
{
    if k < fields.len() {
        if crate::lex::bytes_eq(fields[k].0.as_slice(), key) {
            Some(clone_bytes(fields[k].1.as_slice()))
        } else {
            find_field_from(fields, key, k + 1)
        }
    } else {
        None
    }
}

/// Executable twin of [`count_from`] at index 0, capped at 2.
pub fn count_field(fields: &Vec<(Vec<u8>, Vec<u8>)>, key: &[u8]) -> (r: usize)
    ensures
        r as int == count_from(fields_view(fields@), key@, 0) || (r == 2 && count_from(
            fields_view(fields@),
            key@,
            0,
        ) >= 2),
{
    count_field_from(fields, key, 0)
}

fn count_field_from(fields: &Vec<(Vec<u8>, Vec<u8>)>, key: &[u8], k: usize) -> (r: usize)
    requires
        k <= fields@.len(),
    ensures
        r as int == count_from(fields_view(fields@), key@, k as int) || (r == 2 && count_from(
            fields_view(fields@),
            key@,
            k as int,
        ) >= 2),
    decreases fields@.len() - k,
{
    if k < fields.len() {
        let rest = count_field_from(fields, key, k + 1);
        if crate::lex::bytes_eq(fields[k].0.as_slice(), key) {
            if rest >= 2 {
                2
            } else {
                rest + 1
            }
        } else {
            rest
        }
    } else {
        0
    }
}

/// The string content a raw span denotes, when it is a string literal.
pub open spec fn str_from_raw(v: Seq<u8>) -> Option<Seq<u8>> {
    if v.len() > 0 && v[0] == QUOTE {
        match str_content(v, 1) {
            Some((c, e)) => if e == v.len() {
                Some(c)
            } else {
                None
            },
            None => None,
        }
    } else {
        None
    }
}

/// Executable twin of [`str_from_raw`].
pub fn read_str_from_raw(v: &[u8]) -> (r: Option<Vec<u8>>)
    ensures
        match r {
            Some(c) => str_from_raw(v@) == Some(c@),
            None => str_from_raw(v@) is None,
        },
{
    if v.len() > 0 && v[0] == QUOTE {
        let mut content: Vec<u8> = Vec::new();
        match crate::lex::read_str_content(v, 1, &mut content) {
            Some(e) => if e == v.len() {
                Some(content)
            } else {
                None
            },
            None => None,
        }
    } else {
        None
    }
}

// ---------------------------------------------------------------------------
// Encoding
// ---------------------------------------------------------------------------

/// The members a request serializes to, in wire order: `jsonrpc`,
/// `method`, then `params` and `id` when present.  A notification omits
/// the `id` key entirely.
pub open spec fn req_fields(rv: RequestV) -> Seq<(Seq<u8>, Seq<u8>)> {
    seq![
        (key_jsonrpc(), str_bytes_of(ver_bytes())),
        (key_method(), str_bytes_of(rv.method)),
    ] + (match rv.params {
        Some(p) => seq![(key_params(), p)],
        None => Seq::empty(),
    }) + (match rv.id {
        Some(idv) => seq![(key_id(), id_bytes_of(idv))],
        None => Seq::empty(),
    })
}

/// The exact bytes a request serializes to.
pub open spec fn req_bytes_of(rv: RequestV) -> Seq<u8> {
    obj_bytes_of(req_fields(rv))
}

/// The wire-ready form of a request: its member list, laid out exactly as
/// it will be written.
pub struct OutgoingRequest {
    /// Keys and raw value spans, in wire order.
    pub fields: Vec<(Vec<u8>, Vec<u8>)>,
}

impl OutgoingRequest {
    /// Lays a request out as its wire members.
    pub fn from_request(req: &Request) -> (r: OutgoingRequest)
        ensures
            fields_view(r.fields@) == req_fields(req@),
    {
        let mut fields: Vec<(Vec<u8>, Vec<u8>)> = Vec::new();
        let ver = ver_bytes_x();
        let mut vspan: Vec<u8> = Vec::new();
        push_str_bytes(&mut vspan, ver.as_slice());
        proof {
            assert(vspan@ =~= str_bytes_of(ver_bytes()));
        }
        fields.push((key_jsonrpc_x(), vspan));
        let mut mspan: Vec<u8> = Vec::new();
        push_str_bytes(&mut mspan, req.method.as_slice());
        proof {
            assert(mspan@ =~= str_bytes_of(req.method@));
        }
        fields.push((key_method_x(), mspan));
        match &req.params.raw {
            Some(p) => {
                fields.push((key_params_x(), clone_bytes(p.as_slice())));
            },
            None => {},
        }
        match &req.id {
            Some(id) => {
                fields.push((key_id_x(), serialize_id(id)));
            },
            None => {},
        }
        proof {
            assert(fields_view(fields@) =~= req_fields(req@));
        }
        OutgoingRequest { fields }
    }
}

/// Serializes a request to its exact wire bytes.
pub fn serialize_request(req: &Request) -> (out: Vec<u8>)
    ensures
        out@ == req_bytes_of(req@),
{
    let outgoing = OutgoingRequest::from_request(req);
    let mut out: Vec<u8> = Vec::new();
    push_obj(&mut out, &outgoing.fields);
    proof {
        assert(out@ =~= req_bytes_of(req@));
    }
    out
}

// ---------------------------------------------------------------------------
// Decoding
// ---------------------------------------------------------------------------

/// The request a member list denotes, or the exact error: a missing or
/// duplicated field, a version tag other than `2.0` (carrying the
/// offending bytes), a wrong JSON kind for `jsonrpc`, `method` or `id`.
/// The `id` member may hold `null`: that decodes to a present null
/// identifier, distinct from an absent `id` key.
#[verifier::opaque]
pub open spec fn req_of_fields(fs: Seq<(Seq<u8>, Seq<u8>)>) -> Result<RequestV, DecodeErrorV> {
    match find_from(fs, key_jsonrpc(), 0) {
        None => Err(DecodeErrorV::Missing(Field::Jsonrpc)),
        Some(vspan) => {
            if count_from(fs, key_jsonrpc(), 0) > 1 {
                Err(DecodeErrorV::Duplicate(Field::Jsonrpc))
            } else {
                match str_from_raw(vspan) {
                    None => Err(DecodeErrorV::Shape),
                    Some(ver) => {
                        if ver != ver_bytes() {
                            Err(DecodeErrorV::Version(ver))
                        } else {
                            match find_from(fs, key_method(), 0) {
                                None => Err(DecodeErrorV::Missing(Field::Method)),
                                Some(mspan) => {
                                    if count_from(fs, key_method(), 0) > 1 {
                                        Err(DecodeErrorV::Duplicate(Field::Method))
                                    } else {
                                        match str_from_raw(mspan) {
                                            None => Err(DecodeErrorV::Shape),
                                            Some(m) => req_tail_of_fields(fs, m),
                                        }
                                    }
                                },
                            }
                        }
                    },
                }
            }
        },
    }
}

/// The `params` and `id` members of a request, once version and method
/// are settled.
pub open spec fn req_tail_of_fields(fs: Seq<(Seq<u8>, Seq<u8>)>, m: Seq<u8>) -> Result<
    RequestV,
    DecodeErrorV,
> {
    match find_from(fs, key_params(), 0) {
        Some(p) => {
            if count_from(fs, key_params(), 0) > 1 {
                Err(DecodeErrorV::Duplicate(Field::Params))
            } else if !valid_raw(p) {
                Err(DecodeErrorV::Syntax)
            } else {
                req_id_of_fields(fs, m, Some(p))
            }
        },
        None => req_id_of_fields(fs, m, None),
    }
}

/// The `id` member of a request, once everything else is settled.
pub open spec fn req_id_of_fields(
    fs: Seq<(Seq<u8>, Seq<u8>)>,
    m: Seq<u8>,
    params: Option<Seq<u8>>,
) -> Result<RequestV, DecodeErrorV> {
    match find_from(fs, key_id(), 0) {
        Some(ispan) => {
            if count_from(fs, key_id(), 0) > 1 {
                Err(DecodeErrorV::Duplicate(Field::Id))
            } else {
                match id_from_raw(ispan) {
                    None => Err(DecodeErrorV::Shape),
                    Some(idv) => Ok(RequestV { method: m, params, id: Some(idv) }),
                }
            }
        },
        None => Ok(RequestV { method: m, params, id: None }),
    }
}

/// The request a whole document denotes: optional whitespace, one request
/// object, optional whitespace.  A non-object document is the `Shape`
/// error; text that is not one well-formed JSON document is `Syntax`.
#[verifier::opaque]
pub open spec fn deserialize_request_spec(s: Seq<u8>) -> Result<RequestV, DecodeErrorV> {
    let i = white_end(s, 0);
    if !(0 <= i < s.len()) {
        Err(DecodeErrorV::Syntax)
    } else if s[i] != LBRACE {
        Err(DecodeErrorV::Shape)
    } else {
        match members_first(s, i + 1) {
            None => Err(DecodeErrorV::Syntax),
            Some((fs, e)) => {
                if white_end(s, e) == s.len() {
                    req_of_fields(fs)
                } else {
                    Err(DecodeErrorV::Syntax)
                }
            },
        }
    }
}

/// Executable twin of [`req_of_fields`].
pub fn read_req_of_fields(fields: &Vec<(Vec<u8>, Vec<u8>)>) -> (r: Result<Request, DecodeError>)
    ensures
        match r {
            Ok(req) => req_of_fields(fields_view(fields@)) == Ok::<RequestV, DecodeErrorV>(req@)
                && req.wf(),
            Err(e) => req_of_fields(fields_view(fields@)) == Err::<RequestV, DecodeErrorV>(e@),
        },
{
    proof {
        reveal(req_of_fields);
    }
    let kj = key_jsonrpc_x();
    let vspan = match find_field(fields, kj.as_slice()) {
        Some(v) => v,
        None => {
            return Err(DecodeError::Missing(Field::Jsonrpc));
        },
    };
    if count_field(fields, kj.as_slice()) > 1 {
        return Err(DecodeError::Duplicate(Field::Jsonrpc));
    }
    let ver = match read_str_from_raw(vspan.as_slice()) {
        Some(c) => c,
        None => {
            return Err(DecodeError::Shape);
        },
    };
    let vb = ver_bytes_x();
    if !crate::lex::bytes_eq(ver.as_slice(), vb.as_slice()) {
        return Err(DecodeError::Version(ver));
    }
    let km = key_method_x();
    let mspan = match find_field(fields, km.as_slice()) {
        Some(v) => v,
        None => {
            return Err(DecodeError::Missing(Field::Method));
        },
    };
    if count_field(fields, km.as_slice()) > 1 {
        return Err(DecodeError::Duplicate(Field::Method));
    }
    let m = match read_str_from_raw(mspan.as_slice()) {
        Some(c) => c,
        None => {
            return Err(DecodeError::Shape);
        },
    };
    let kp = key_params_x();
    let params = match find_field(fields, kp.as_slice()) {
        Some(p) => {
            if count_field(fields, kp.as_slice()) > 1 {
                return Err(DecodeError::Duplicate(Field::Params));
            }
            if !check_raw(p.as_slice()) {
                return Err(DecodeError::Syntax);
            }
            UnknownParams { raw: Some(p) }
        },
        None => UnknownParams { raw: None },
    };
    let ki = key_id_x();
    let id = match find_field(fields, ki.as_slice()) {
        Some(ispan) => {
            if count_field(fields, ki.as_slice()) > 1 {
                return Err(DecodeError::Duplicate(Field::Id));
            }
            match read_id_from_raw(ispan.as_slice()) {
                Some(id) => Some(id),
                None => {
                    return Err(DecodeError::Shape);
                },
            }
        },
        None => None,
    };
    Ok(Request { method: m, params, id })
}

/// Deserializes a request from its wire bytes.
///
/// Requires `jsonrpc` to be exactly `"2.0"` and `method` to be a string;
/// an absent `id` key decodes to no identifier, an explicit `null` to a
/// present null identifier.
pub fn deserialize_request(bytes: &[u8]) -> (r: Result<Request, DecodeError>)
    ensures
        match r {
            Ok(req) => deserialize_request_spec(bytes@) == Ok::<RequestV, DecodeErrorV>(req@)
                && req.wf(),
            Err(e) => deserialize_request_spec(bytes@) == Err::<RequestV, DecodeErrorV>(e@),
        },
{
    proof {
        reveal(deserialize_request_spec);
    }
    let i = skip_white(bytes, 0);
    if i >= bytes.len() {
        return Err(DecodeError::Syntax);
    }
    if bytes[i] != LBRACE {
        return Err(DecodeError::Shape);
    }
    match members_first_x(bytes, i + 1) {
        None => Err(DecodeError::Syntax),
        Some((fields, e)) => {
            let t = skip_white(bytes, e);
            if t == bytes.len() {
                read_req_of_fields(&fields)
            } else {
                Err(DecodeError::Syntax)
            }
        },
    }
}

} // verus!
