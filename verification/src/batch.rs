//! Single-or-batch request documents, dispatched on the top-level JSON
//! shape.

use vstd::prelude::*;

use crate::lex::{white_end, skip_white, LBRACE, LBRACK, COMMA, RBRACK};
use crate::raw::{elems_first, elems_first_x, members_first, members_first_x, spans_view};
use crate::request::{
    Request, RequestV, deserialize_request, deserialize_request_spec, req_bytes_of, req_of_fields,
    serialize_request,
};
use crate::emit::push_span;
use crate::{DecodeError, DecodeErrorV};

verus! {

/// Either one request or a batch of requests.
///
/// Decoding dispatches purely on the document's top-level shape: an object
/// is a single request, an array is a batch.  Serializing mirrors whichever
/// variant is held, with no added wrapping.
#[derive(Debug, Clone)]
pub enum MaybeBatchedRequests {
    /// A single request.
    Single(Request),
    /// A batch of requests.
    Batch(Vec<Request>),
}

/// Mathematical model of a [`MaybeBatchedRequests`].
pub enum MaybeBatchedV {
    /// A single request.
    Single(RequestV),
    /// A batch of requests.
    Batch(Seq<RequestV>),
}

/// The models of a sequence of requests.
pub open spec fn reqs_view(v: Seq<Request>) -> Seq<RequestV> {
    Seq::new(v.len(), |k: int| v[k]@)
}

impl View for MaybeBatchedRequests {
    type V = MaybeBatchedV;

    open spec fn view(&self) -> MaybeBatchedV {
        match self {
            MaybeBatchedRequests::Single(req) => MaybeBatchedV::Single(req@),
            MaybeBatchedRequests::Batch(reqs) => MaybeBatchedV::Batch(reqs_view(reqs@)),
        }
    }
}

/// Well-formedness of a single-or-batch value.
pub open spec fn batch_wf(mv: MaybeBatchedV) -> bool {
    match mv {
        MaybeBatchedV::Single(rv) => crate::request::req_wf(rv),
        MaybeBatchedV::Batch(rs) => forall|k: int|
            0 <= k < rs.len() ==> crate::request::req_wf(rs[k]),
    }
}

/// The requests from index `k` on, with separating commas, and the closing
/// bracket.
pub open spec fn batch_tail_bytes(rs: Seq<RequestV>, k: int) -> Seq<u8>
    decreases rs.len() - k,
{
    if 0 <= k < rs.len() {
        (if k > 0 {
            seq![COMMA]
        } else {
            Seq::empty()
        }) + req_bytes_of(rs[k]) + batch_tail_bytes(rs, k + 1)
    } else {
        seq![RBRACK]
    }
}

/// The exact bytes a single-or-batch value serializes to.
pub open spec fn batch_bytes_of(mv: MaybeBatchedV) -> Seq<u8> {
    match mv {
        MaybeBatchedV::Single(rv) => req_bytes_of(rv),
        MaybeBatchedV::Batch(rs) => seq![LBRACK] + batch_tail_bytes(rs, 0),
    }
}

/// The request one batch element denotes: each element must itself be a
/// request object.
#[verifier::opaque]
pub open spec fn req_of_span(v: Seq<u8>) -> Result<RequestV, DecodeErrorV> {
    if v.len() > 0 && v[0] == LBRACE {
        match members_first(v, 1) {
            Some((fs, e)) => if e == v.len() {
                req_of_fields(fs)
            } else {
                Err(DecodeErrorV::Syntax)
            },
            None => Err(DecodeErrorV::Syntax),
        }
    } else {
        Err(DecodeErrorV::Shape)
    }
}

/// The requests a list of element spans denotes, from index `k` on;
/// the first failing element's error is reported.
pub open spec fn reqs_of_spans(items: Seq<Seq<u8>>, k: int) -> Result<Seq<RequestV>, DecodeErrorV>
    decreases items.len() - k,
{
    if 0 <= k < items.len() {
        match req_of_span(items[k]) {
            Ok(rv) => match reqs_of_spans(items, k + 1) {
                Ok(rest) => Ok(seq![rv] + rest),
                Err(e) => Err(e),
            },
            Err(e) => Err(e),
        }
    } else {
        Ok(Seq::empty())
    }
}

/// The single-or-batch value a whole document denotes: an object decodes
/// as one request, an array element-wise as a batch, any other top-level
/// shape is the `Shape` error.
#[verifier::opaque]
pub open spec fn deserialize_batch_spec(s: Seq<u8>) -> Result<MaybeBatchedV, DecodeErrorV> {
    let i = white_end(s, 0);
    if !(0 <= i < s.len()) {
        Err(DecodeErrorV::Syntax)
    } else if s[i] == LBRACE {
        match deserialize_request_spec(s) {
            Ok(rv) => Ok(MaybeBatchedV::Single(rv)),
            Err(e) => Err(e),
        }
    } else if s[i] == LBRACK {
        match elems_first(s, i + 1) {
            None => Err(DecodeErrorV::Syntax),
            Some((items, e)) => {
                if white_end(s, e) == s.len() {
                    match reqs_of_spans(items, 0) {
                        Ok(rs) => Ok(MaybeBatchedV::Batch(rs)),
                        Err(err) => Err(err),
                    }
                } else {
                    Err(DecodeErrorV::Syntax)
                }
            },
        }
    } else {
        Err(DecodeErrorV::Shape)
    }
}

/// Executable twin of [`req_of_span`].
fn read_req_of_span(v: &[u8]) -> (r: Result<Request, DecodeError>)
    ensures
        match r {
            Ok(req) => req_of_span(v@) == Ok::<RequestV, DecodeErrorV>(req@) && req.wf(),
            Err(e) => req_of_span(v@) == Err::<RequestV, DecodeErrorV>(e@),
        },
{
    proof {
        reveal(req_of_span);
    }
    if v.len() > 0 && v[0] == LBRACE {
        match members_first_x(v, 1) {
            Some((fields, e)) => if e == v.len() {
                crate::request::read_req_of_fields(&fields)
            } else {
                Err(DecodeError::Syntax)
            },
            None => Err(DecodeError::Syntax),
        }
    } else {
        Err(DecodeError::Shape)
    }
}

/// Executable twin of [`reqs_of_spans`].
fn read_reqs_of_spans(items: &Vec<Vec<u8>>, k: usize) -> (r: Result<Vec<Request>, DecodeError>)
    requires
        k <= items@.len(),
    ensures
        match r {
            Ok(reqs) => {
                &&& reqs_of_spans(spans_view(items@), k as int) == Ok::<Seq<RequestV>,
                    DecodeErrorV>(reqs_view(reqs@))
                &&& forall|j: int| 0 <= j < reqs@.len() ==> #[trigger] reqs@[j].wf()
            },
            Err(e) => reqs_of_spans(spans_view(items@), k as int) == Err::<Seq<RequestV>,
                DecodeErrorV>(e@),
        },
    decreases items@.len() - k,
{
    if k < items.len() {
        match read_req_of_span(items[k].as_slice()) {
            Ok(req) => match read_reqs_of_spans(items, k + 1) {
                Ok(mut rest) => {
                    let ghost rest0 = rest@;
                    rest.insert(0, req);
                    proof {
                        assert(reqs_view(rest@) =~= seq![req@] + reqs_view(rest0));
                    }
                    Ok(rest)
                },
                Err(e) => Err(e),
            },
            Err(e) => Err(e),
        }
    } else {
        let reqs: Vec<Request> = Vec::new();
        proof {
            assert(reqs_view(reqs@) =~= Seq::<RequestV>::empty());
        }
        Ok(reqs)
    }
}

/// Appends the requests of a batch from index `k` on, plus the closing
/// bracket.
fn push_batch_tail(out: &mut Vec<u8>, reqs: &Vec<Request>, k: usize)
    requires
        k <= reqs@.len(),
    ensures
        final(out)@ == old(out)@ + batch_tail_bytes(reqs_view(reqs@), k as int),
    decreases reqs@.len() - k,
{
    let ghost rs = reqs_view(reqs@);
    if k < reqs.len() {
        if k > 0 {
            out.push(COMMA);
        }
        let bytes = serialize_request(&reqs[k]);
        push_span(out, bytes.as_slice());
        push_batch_tail(out, reqs, k + 1);
        proof {
            let sep: Seq<u8> = if k > 0 {
                seq![COMMA]
            } else {
                Seq::empty()
            };
            assert(out@ =~= old(out)@ + (sep + req_bytes_of(rs[k as int]) + batch_tail_bytes(
                rs,
                k as int + 1,
            )));
        }
    } else {
        out.push(RBRACK);
        assert(out@ =~= old(out)@ + seq![RBRACK]);
    }
}

impl MaybeBatchedRequests {
    /// Well-formedness (see [`batch_wf`]).
    pub open spec fn wf(&self) -> bool {
        batch_wf(self@)
    }

    /// Serializes the held variant with no added wrapping: a single
    /// request as the bare object, a batch as a JSON array.
    pub fn serialize(&self) -> (out: Vec<u8>)
        ensures
            out@ == batch_bytes_of(self@),
    {
        match self {
            MaybeBatchedRequests::Single(req) => serialize_request(req),
            MaybeBatchedRequests::Batch(reqs) => {
                let mut out: Vec<u8> = Vec::new();
                out.push(LBRACK);
                push_batch_tail(&mut out, reqs, 0);
                proof {
                    assert(out@ =~= seq![LBRACK] + batch_tail_bytes(reqs_view(reqs@), 0));
                }
                out
            },
        }
    }

    /// Deserializes a document that holds either one request object or an
    /// array of request objects, dispatching on the top-level shape.
    pub fn deserialize(bytes: &[u8]) -> (r: Result<MaybeBatchedRequests, DecodeError>)
        ensures
            match r {
                Ok(mb) => deserialize_batch_spec(bytes@) == Ok::<MaybeBatchedV, DecodeErrorV>(mb@)
                    && mb.wf(),
                Err(e) => deserialize_batch_spec(bytes@) == Err::<MaybeBatchedV, DecodeErrorV>(
                    e@,
                ),
            },
    {
        proof {
            reveal(deserialize_batch_spec);
        }
        let i = skip_white(bytes, 0);
        if i >= bytes.len() {
            return Err(DecodeError::Syntax);
        }
        if bytes[i] == LBRACE {
            deserialize_single(bytes)
        } else if bytes[i] == LBRACK {
            deserialize_array(bytes)
        } else {
            Err(DecodeError::Shape)
        }
    }
}

/// The object branch of [`MaybeBatchedRequests::deserialize`].
fn deserialize_single(bytes: &[u8]) -> (r: Result<MaybeBatchedRequests, DecodeError>)
    requires
        ({
            let i = white_end(bytes@, 0);
            &&& 0 <= i < bytes@.len()
            &&& bytes@[i] == LBRACE
        }),
    ensures
        match r {
            Ok(mb) => deserialize_batch_spec(bytes@) == Ok::<MaybeBatchedV, DecodeErrorV>(mb@)
                && mb.wf(),
            Err(e) => deserialize_batch_spec(bytes@) == Err::<MaybeBatchedV, DecodeErrorV>(e@),
        },
{
    proof {
        reveal(deserialize_batch_spec);
    }
    match deserialize_request(bytes) {
        Ok(req) => Ok(MaybeBatchedRequests::Single(req)),
        Err(e) => Err(e),
    }
}

/// The array branch of [`MaybeBatchedRequests::deserialize`].
#[verifier::rlimit(100)]
fn deserialize_array(bytes: &[u8]) -> (r: Result<MaybeBatchedRequests, DecodeError>)
    requires
        ({
            let i = white_end(bytes@, 0);
            &&& 0 <= i < bytes@.len()
            &&& bytes@[i] == LBRACK
        }),
    ensures
        match r {
            Ok(mb) => deserialize_batch_spec(bytes@) == Ok::<MaybeBatchedV, DecodeErrorV>(mb@)
                && mb.wf(),
            Err(e) => deserialize_batch_spec(bytes@) == Err::<MaybeBatchedV, DecodeErrorV>(e@),
        },
{
    proof {
        reveal(deserialize_batch_spec);
    }
    let i = skip_white(bytes, 0);
    if i >= bytes.len() {
        proof {
            assert(false);
        }
        return Err(DecodeError::Syntax);
    }
    match elems_first_x(bytes, i + 1) {
        None => Err(DecodeError::Syntax),
        Some((items, e)) => {
            let t = skip_white(bytes, e);
            if t != bytes.len() {
                return Err(DecodeError::Syntax);
            }
            match read_reqs_of_spans(&items, 0) {
                Ok(reqs) => {
                    proof {
                        let rs = reqs_view(reqs@);
                        assert forall|k: int| 0 <= k < rs.len() implies crate::request::req_wf(
                            rs[k],
                        ) by {
                            assert(rs[k] == reqs@[k]@);
                            assert(reqs@[k].wf());
                        }
                    }
                    Ok(MaybeBatchedRequests::Batch(reqs))
                },
                Err(err) => Err(err),
            }
        },
    }
}

} // verus!
