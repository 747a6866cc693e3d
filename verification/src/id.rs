//! The polymorphic JSON-RPC request identifier.

use vstd::prelude::*;

use crate::lex::{bytes_eq, white_end, str_content, QUOTE, MINUS, DIGIT0, DIGIT9};
use crate::raw::{num_class, value_end, NumV, clone_bytes, copy_range, value_end_x, read_num, NumTok};
use crate::emit::{str_bytes_of, dec_of, int_bytes_of, push_str_bytes, push_dec_u64, push_dec_i64, push_span};

verus! {

/// A request identifier.
///
/// Clients use it to match responses sent back by a complying server with
/// the requests they sent.  Equality is value-based and variant-sensitive:
/// `Int(1)`, `Uint(1)`, `Float` of `1.0` and `Str` of `"1"` are four
/// distinct identifiers.
#[derive(Debug, Clone)]
pub enum Id {
    /// The ID was `null`.
    Null,
    /// The ID was a string (unescaped bytes of its content).
    Str(Vec<u8>),
    /// The ID was a signed integer.
    Int(i64),
    /// The ID was an unsigned integer.
    Uint(u64),
    /// The ID was a floating-point number, kept as its literal token bytes.
    ///
    /// The protocol discourages floating-point identifiers but admits them,
    /// so the codec must account for them.  Holding the token text keeps
    /// the value exact across a round trip.
    Float(Vec<u8>),
}

/// Mathematical model of an [`Id`].
pub enum IdV {
    /// `null`.
    Null,
    /// A string.
    Str(Seq<u8>),
    /// A signed integer.
    Int(int),
    /// An unsigned integer.
    Uint(int),
    /// A floating literal, by its token bytes.
    Float(Seq<u8>),
}

impl View for Id {
    type V = IdV;

    open spec fn view(&self) -> IdV {
        match self {
            Id::Null => IdV::Null,
            Id::Str(s) => IdV::Str(s@),
            Id::Int(n) => IdV::Int(*n as int),
            Id::Uint(n) => IdV::Uint(*n as int),
            Id::Float(l) => IdV::Float(l@),
        }
    }
}

/// Well-formedness of an identifier value: integers stay inside the 64-bit
/// range of their variant, and a `Float` holds a complete number token that
/// the decoder classifies as floating.
pub open spec fn id_wf(v: IdV) -> bool {
    match v {
        IdV::Null => true,
        IdV::Str(_) => true,
        IdV::Int(n) => -0x8000_0000_0000_0000 <= n < 0x8000_0000_0000_0000,
        IdV::Uint(n) => 0 <= n <= 0xFFFF_FFFF_FFFF_FFFF,
        IdV::Float(l) => num_class(l, 0) == Some((NumV::Float, l.len() as int)),
    }
}

impl Id {
    /// Well-formedness of this identifier (see [`id_wf`]).
    pub open spec fn wf(&self) -> bool {
        id_wf(self@)
    }

    /// Returns an identifier equal to this one, without consuming it, for
    /// re-serializing it into a new envelope.  String and floating storage
    /// is copied, and the result is proved equal.
    pub fn reborrow(&self) -> (r: Id)
        ensures
            r@ == self@,
    {
        match self {
            Id::Null => Id::Null,
            Id::Str(s) => Id::Str(clone_bytes(s.as_slice())),
            Id::Int(n) => Id::Int(*n),
            Id::Uint(n) => Id::Uint(*n),
            Id::Float(l) => Id::Float(clone_bytes(l.as_slice())),
        }
    }
}

impl PartialEq for Id {
    fn eq(&self, other: &Id) -> (r: bool) {
        match (self, other) {
            (Id::Null, Id::Null) => true,
            (Id::Str(a), Id::Str(b)) => bytes_eq(a.as_slice(), b.as_slice()),
            (Id::Int(a), Id::Int(b)) => a == b,
            (Id::Uint(a), Id::Uint(b)) => a == b,
            (Id::Float(a), Id::Float(b)) => bytes_eq(a.as_slice(), b.as_slice()),
            _ => false,
        }
    }
}

impl vstd::std_specs::cmp::PartialEqSpecImpl for Id {
    open spec fn obeys_eq_spec() -> bool {
        true
    }

    open spec fn eq_spec(&self, other: &Id) -> bool {
        self@ == other@
    }
}

/// The bytes an identifier serializes to.
pub open spec fn id_bytes_of(v: IdV) -> Seq<u8> {
    match v {
        IdV::Null => seq![110u8, 117u8, 108u8, 108u8],  // null
        IdV::Str(s) => str_bytes_of(s),
        IdV::Int(n) => int_bytes_of(n),
        IdV::Uint(n) => dec_of(n),
        IdV::Float(l) => l,
    }
}

/// The identifier a raw span denotes: `null`, a string, or a number typed
/// by its literal form.  Any other JSON shape is not an identifier.
pub open spec fn id_from_raw(v: Seq<u8>) -> Option<IdV> {
    if v.len() == 0 {
        None
    } else if v[0] == 110 {
        if v.len() == 4 && v[1] == 117 && v[2] == 108 && v[3] == 108 {
            Some(IdV::Null)
        } else {
            None
        }
    } else if v[0] == QUOTE {
        match str_content(v, 1) {
            Some((c, e)) => if e == v.len() {
                Some(IdV::Str(c))
            } else {
                None
            },
            None => None,
        }
    } else if v[0] == MINUS || crate::lex::is_digit(v[0]) {
        match num_class(v, 0) {
            Some((nv, te)) => if te == v.len() {
                match nv {
                    NumV::Int(n) => Some(IdV::Int(n)),
                    NumV::Uint(n) => Some(IdV::Uint(n)),
                    NumV::Float => Some(IdV::Float(v)),
                }
            } else {
                None
            },
            None => None,
        }
    } else {
        None
    }
}

/// Executable twin of [`id_from_raw`].
pub fn read_id_from_raw(v: &[u8]) -> (r: Option<Id>)
    ensures
        match r {
            Some(id) => id_from_raw(v@) == Some(id@) && id.wf(),
            None => id_from_raw(v@) is None,
        },
{
    if v.len() == 0 {
        return None;
    }
    let b = v[0];
    if b == 110 {
        if v.len() == 4 && v[1] == 117 && v[2] == 108 && v[3] == 108 {
            Some(Id::Null)
        } else {
            None
        }
    } else if b == QUOTE {
        let mut content: Vec<u8> = Vec::new();
        match crate::lex::read_str_content(v, 1, &mut content) {
            Some(e) => if e == v.len() {
                proof {
                    let (c, _e) = crate::lex::str_content(v@, 1)->Some_0;
                    assert(content@ =~= c);
                }
                Some(Id::Str(content))
            } else {
                None
            },
            None => None,
        }
    } else if b == MINUS || (DIGIT0 <= b && b <= DIGIT9) {
        match read_num(v, 0) {
            Some((tok, e)) => if e == v.len() {
                match tok {
                    NumTok::Int(n) => Some(Id::Int(n)),
                    NumTok::Uint(n) => Some(Id::Uint(n)),
                    NumTok::Float => Some(Id::Float(clone_bytes(v))),
                }
            } else {
                None
            },
            None => None,
        }
    } else {
        None
    }
}

/// The identifier a whole document denotes — optional whitespace, one
/// identifier value, optional whitespace — or the exact error reported:
/// `Syntax` when the input is not one JSON value, `Shape` when the value is
/// not an identifier.
pub open spec fn deserialize_id_spec(s: Seq<u8>) -> Result<IdV, crate::DecodeErrorV> {
    let i = white_end(s, 0);
    if 0 <= i <= s.len() {
        match value_end(s, i) {
            Some(e) => if white_end(s, e) == s.len() {
                match id_from_raw(s.subrange(i, e)) {
                    Some(idv) => Ok(idv),
                    None => Err(crate::DecodeErrorV::Shape),
                }
            } else {
                Err(crate::DecodeErrorV::Syntax)
            },
            None => Err(crate::DecodeErrorV::Syntax),
        }
    } else {
        Err(crate::DecodeErrorV::Syntax)
    }
}

/// Serializes an identifier to bytes.
///
/// `Null` becomes `null`, strings are quoted and escaped, integers are
/// written in exact decimal form, floating identifiers emit their literal
/// token.
pub fn serialize_id(id: &Id) -> (out: Vec<u8>)
    ensures
        out@ == id_bytes_of(id@),
{
    let mut out: Vec<u8> = Vec::new();
    match id {
        Id::Null => {
            out.push(110);
            out.push(117);
            out.push(108);
            out.push(108);
            proof {
                assert(out@ =~= seq![110u8, 117u8, 108u8, 108u8]);
            }
        },
        Id::Str(s) => {
            push_str_bytes(&mut out, s.as_slice());
            proof {
                assert(out@ =~= str_bytes_of(s@));
            }
        },
        Id::Int(n) => {
            push_dec_i64(&mut out, *n);
            proof {
                assert(out@ =~= int_bytes_of(*n as int));
            }
        },
        Id::Uint(n) => {
            push_dec_u64(&mut out, *n);
            proof {
                assert(out@ =~= dec_of(*n as int));
            }
        },
        Id::Float(l) => {
            push_span(&mut out, l.as_slice());
            proof {
                assert(out@ =~= l@);
            }
        },
    }
    out
}

/// Deserializes an identifier from a whole document.
///
/// Returns the `Shape` error when the document's value is not `null`, a
/// string or a number, and the `Syntax` error when it is not one JSON
/// value.
pub fn deserialize_id(bytes: &[u8]) -> (r: Result<Id, crate::DecodeError>)
    ensures
        match r {
            Ok(id) => deserialize_id_spec(bytes@) == Ok::<IdV, crate::DecodeErrorV>(id@)
                && id.wf(),
            Err(e) => deserialize_id_spec(bytes@) == Err::<IdV, crate::DecodeErrorV>(e@),
        },
{
    let i = crate::lex::skip_white(bytes, 0);
    match value_end_x(bytes, i) {
        Some(e) => {
            let t = crate::lex::skip_white(bytes, e);
            if t != bytes.len() {
                return Err(crate::DecodeError::Syntax);
            }
            let span = copy_range(bytes, i, e);
            match read_id_from_raw(span.as_slice()) {
                Some(id) => Ok(id),
                None => Err(crate::DecodeError::Shape),
            }
        },
        None => Err(crate::DecodeError::Syntax),
    }
}

} // verus!
