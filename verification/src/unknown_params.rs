//! Deferred-parse parameters: the raw, unparsed bytes of a request's
//! `params` value, or nothing when the field was absent.

use vstd::prelude::*;

use crate::lex::{LBRACK, RBRACK};
use crate::raw::{check_raw, clone_bytes, elems_first, elems_first_x, spans_view, valid_raw};

verus! {

/// The parameters passed to a request, kept as raw bytes.
///
/// Servers can accept arbitrary parameters, look at the method name first,
/// and only then parse the parameters.  A value built from no raw bytes
/// stands for the canonical empty-array default.
#[derive(Debug, Clone)]
pub struct UnknownParams {
    /// The raw bytes of the `params` value, or nothing when the field was
    /// absent from the wire.
    pub raw: Option<Vec<u8>>,
}

impl View for UnknownParams {
    type V = Option<Seq<u8>>;

    open spec fn view(&self) -> Option<Seq<u8>> {
        match &self.raw {
            Some(v) => Some(v@),
            None => None,
        }
    }
}

/// Well-formedness of a parameter value: held bytes are one JSON value.
pub open spec fn params_wf(p: Option<Seq<u8>>) -> bool {
    match p {
        Some(v) => valid_raw(v),
        None => true,
    }
}

/// The raw text the parameters stand for: the held bytes, or `[]` when
/// none were held.
pub open spec fn params_text(p: Option<Seq<u8>>) -> Seq<u8> {
    match p {
        Some(v) => v,
        None => seq![LBRACK, RBRACK],
    }
}

/// The element spans the parameters parse to when read as a sequence:
/// an absent value parses as the empty sequence; held bytes must form a
/// JSON array (`Shape` otherwise, `Syntax` when they do not scan).
pub open spec fn parse_params_spec(p: Option<Seq<u8>>) -> Result<
    Seq<Seq<u8>>,
    crate::DecodeErrorV,
> {
    match p {
        None => Ok(Seq::empty()),
        Some(v) => {
            if v.len() > 0 && v[0] == LBRACK {
                match elems_first(v, 1) {
                    Some((items, e)) => if e == v.len() {
                        Ok(items)
                    } else {
                        Err(crate::DecodeErrorV::Syntax)
                    },
                    None => Err(crate::DecodeErrorV::Syntax),
                }
            } else {
                Err(crate::DecodeErrorV::Shape)
            }
        },
    }
}

impl UnknownParams {
    /// Well-formedness (see [`params_wf`]).
    pub open spec fn wf(&self) -> bool {
        params_wf(self@)
    }

    /// Parameters that were absent from the wire: the empty-array default.
    pub fn absent() -> (r: UnknownParams)
        ensures
            r@ is None,
            r.wf(),
    {
        UnknownParams { raw: None }
    }

    /// Parameters holding the given raw bytes, which must be one JSON
    /// value; returns the `Syntax` error exactly when they are not.
    pub fn from_bytes(v: Vec<u8>) -> (r: Result<UnknownParams, crate::DecodeError>)
        ensures
            match r {
                Ok(p) => p@ == Some(v@) && p.wf(),
                Err(e) => !valid_raw(v@) && e@ == crate::DecodeErrorV::Syntax,
            },
    {
        if check_raw(v.as_slice()) {
            Ok(UnknownParams { raw: Some(v) })
        } else {
            Err(crate::DecodeError::Syntax)
        }
    }

    /// A copy of these parameters, proved equal.
    pub fn clone_params(&self) -> (r: UnknownParams)
        ensures
            r@ == self@,
    {
        match &self.raw {
            Some(v) => UnknownParams { raw: Some(clone_bytes(v.as_slice())) },
            None => UnknownParams { raw: None },
        }
    }

    /// True when no raw bytes are held.
    pub fn is_absent(&self) -> (b: bool)
        ensures
            b == (self@ is None),
    {
        match &self.raw {
            Some(_) => false,
            None => true,
        }
    }

    /// The raw text of the parameters: the held bytes, or `[]`.
    pub fn raw_text(&self) -> (r: Vec<u8>)
        ensures
            r@ == params_text(self@),
    {
        match &self.raw {
            Some(v) => clone_bytes(v.as_slice()),
            None => {
                let mut out: Vec<u8> = Vec::new();
                out.push(LBRACK);
                out.push(RBRACK);
                proof {
                    assert(out@ =~= seq![LBRACK, RBRACK]);
                }
                out
            },
        }
    }

    /// Parses the parameters as a sequence, returning the raw span of each
    /// element.  Typed decoding of an element is the caller's to do on its
    /// span; a value built from no raw bytes parses as the empty sequence.
    pub fn parse(&self) -> (r: Result<Vec<Vec<u8>>, crate::DecodeError>)
        ensures
            match r {
                Ok(items) => parse_params_spec(self@) == Ok::<_, crate::DecodeErrorV>(
                    spans_view(items@),
                ),
                Err(e) => parse_params_spec(self@) == Err::<Seq<Seq<u8>>, _>(e@),
            },
    {
        match &self.raw {
            None => {
                let items: Vec<Vec<u8>> = Vec::new();
                proof {
                    assert(spans_view(items@) =~= Seq::<Seq<u8>>::empty());
                }
                Ok(items)
            },
            Some(v) => {
                if v.len() > 0 && v[0] == LBRACK {
                    match elems_first_x(v.as_slice(), 1) {
                        Some((items, e)) => if e == v.len() {
                            Ok(items)
                        } else {
                            Err(crate::DecodeError::Syntax)
                        },
                        None => Err(crate::DecodeError::Syntax),
                    }
                } else {
                    Err(crate::DecodeError::Shape)
                }
            },
        }
    }
}

} // verus!
