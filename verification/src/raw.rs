//! Structural layer of the codec: JSON number tokens, whole-value scanning,
//! and the capture of object members and array elements as raw byte spans.
//!
//! A *raw span* is the exact byte range of one JSON value inside a larger
//! document.  Envelope decoding captures `params`, `result` and `error.data`
//! as raw spans and re-emits them verbatim on encoding, so deferred-parse
//! payloads survive a round trip untouched.

use vstd::prelude::*;

use crate::lex::{
    COLON, COMMA, DIGIT0, DIGIT9, DOT, LBRACE, LBRACK, LOWER_E, MINUS, PLUS, QUOTE, RBRACE,
    RBRACK, UPPER_E, digits_end, is_digit, lemma_digits_end_bounds, read_str_content, skip_digits,
    skip_white, str_content, white_end,
};

verus! {

// ---------------------------------------------------------------------------
// Number tokens
// ---------------------------------------------------------------------------

/// Classification of a JSON number token: a signed integer, an unsigned
/// integer, or a floating literal (fraction, exponent, or out of integer
/// range).
pub enum NumV {
    /// A negative integer that fits `i64`.
    Int(int),
    /// A non-negative integer that fits `u64`.
    Uint(int),
    /// Any other numeric literal; the token text stands for it.
    Float,
}

/// End of an optional fraction part starting at `i`.
pub open spec fn frac_end(s: Seq<u8>, i: int) -> Option<int> {
    if 0 <= i < s.len() && s[i] == DOT {
        let fe = digits_end(s, i + 1);
        if fe > i + 1 {
            Some(fe)
        } else {
            None
        }
    } else {
        Some(i)
    }
}

/// End of an optional exponent part starting at `i`.
pub open spec fn exp_end(s: Seq<u8>, i: int) -> Option<int> {
    if 0 <= i < s.len() && (s[i] == LOWER_E || s[i] == UPPER_E) {
        let j = if i + 1 < s.len() && (s[i + 1] == PLUS || s[i + 1] == MINUS) {
            i + 2
        } else {
            i + 1
        };
        let ee = digits_end(s, j);
        if ee > j {
            Some(ee)
        } else {
            None
        }
    } else {
        Some(i)
    }
}

/// Shape of a number token starting at `i`: whether it is negative, the span
/// of its integer digits, and the end of the whole token.
pub open spec fn num_token(s: Seq<u8>, i: int) -> Option<(bool, int, int, int)> {
    if 0 <= i < s.len() {
        let neg = s[i] == MINUS;
        let ds = if neg {
            i + 1
        } else {
            i
        };
        if ds < s.len() && is_digit(s[ds]) {
            let de = if s[ds] == DIGIT0 {
                ds + 1
            } else {
                digits_end(s, ds)
            };
            match frac_end(s, de) {
                Some(fe) => match exp_end(s, fe) {
                    Some(te) => Some((neg, ds, de, te)),
                    None => None,
                },
                None => None,
            }
        } else {
            None
        }
    } else {
        None
    }
}

/// Numeric value of a digit string.
pub open spec fn dec_val(s: Seq<u8>) -> int
    decreases s.len(),
{
    if s.len() == 0 {
        0
    } else {
        dec_val(s.drop_last()) * 10 + (s.last() - DIGIT0)
    }
}

/// Ten to the `n`.
pub open spec fn pow10(n: nat) -> int
    decreases n,
{
    if n == 0 {
        1
    } else {
        10 * pow10((n - 1) as nat)
    }
}

pub proof fn lemma_dec_val_upper(s: Seq<u8>)
    requires
        forall|k: int| 0 <= k < s.len() ==> is_digit(s[k]),
    ensures
        0 <= dec_val(s) < pow10(s.len()),
    decreases s.len(),
{
    if s.len() > 0 {
        lemma_dec_val_upper(s.drop_last());
    }
}

pub proof fn lemma_dec_val_lower(s: Seq<u8>)
    requires
        s.len() >= 1,
        forall|k: int| 0 <= k < s.len() ==> is_digit(s[k]),
        s[0] != DIGIT0,
    ensures
        dec_val(s) >= pow10((s.len() - 1) as nat),
    decreases s.len(),
{
    if s.len() == 1 {
        assert(s.last() == s[0]);
        assert(s.drop_last().len() == 0);
        assert(dec_val(s) == dec_val(s.drop_last()) * 10 + (s.last() - DIGIT0));
        assert(dec_val(s.drop_last()) == 0);
        assert(pow10(0) == 1);
    } else {
        let d = s.drop_last();
        assert(d[0] == s[0]);
        lemma_dec_val_lower(d);
        lemma_pow10_pos((s.len() - 2) as nat);
        assert(pow10((s.len() - 1) as nat) == 10 * pow10((s.len() - 2) as nat));
        assert(is_digit(s.last()));
        assert(dec_val(s) == dec_val(d) * 10 + (s.last() - DIGIT0));
        let p = pow10((s.len() - 2) as nat);
        assert(dec_val(d) * 10 >= p * 10) by (nonlinear_arith)
            requires
                dec_val(d) >= p,
        ;
    }
}

/// Number token classification: how the decoder types a numeric literal.
/// Integer literals become `Uint` (no sign) or `Int` (sign) when they fit
/// the 64-bit range; everything else is a floating literal.
pub open spec fn num_class(s: Seq<u8>, i: int) -> Option<(NumV, int)> {
    match num_token(s, i) {
        Some((neg, ds, de, te)) => {
            if te > de {
                Some((NumV::Float, te))
            } else {
                let v = dec_val(s.subrange(ds, de));
                if neg {
                    if v <= 0x8000_0000_0000_0000 {
                        Some((NumV::Int(-v), te))
                    } else {
                        Some((NumV::Float, te))
                    }
                } else {
                    if v <= 0xFFFF_FFFF_FFFF_FFFF {
                        Some((NumV::Uint(v), te))
                    } else {
                        Some((NumV::Float, te))
                    }
                }
            }
        },
        None => None,
    }
}

/// Executable classification of a number token.
pub enum NumTok {
    /// A negative integer.
    Int(i64),
    /// A non-negative integer.
    Uint(u64),
    /// A floating literal.
    Float,
}

/// Reads the digit string `s[ds..de]` as an unsigned value; `None` on
/// overflow past `u64::MAX`.
fn read_digits_val(s: &[u8], ds: usize, de: usize) -> (r: Option<u64>)
    requires
        0 <= ds <= de <= s@.len(),
        forall|k: int| ds <= k < de ==> is_digit(s@[k]),
        de > ds ==> (s@[ds as int] != DIGIT0 || de == ds + 1),
    ensures
        match r {
            Some(v) => v as int == dec_val(s@.subrange(ds as int, de as int)),
            None => dec_val(s@.subrange(ds as int, de as int)) > u64::MAX,
        },
{
    let n = de - ds;
    if n >= 21 {
        proof {
            let d = s@.subrange(ds as int, de as int);
            lemma_dec_val_lower(d);
            lemma_pow10_20();
            lemma_pow10_le(20, (d.len() - 1) as nat);
        }
        return None;
    }
    let mut acc: u128 = 0;
    let mut k: usize = ds;
    while k < de
        invariant
            ds <= k <= de <= s@.len(),
            forall|j: int| ds <= j < de ==> is_digit(s@[j]),
            acc as int == dec_val(s@.subrange(ds as int, k as int)),
            acc < 0x100000000000000000000,  // 10^20 bound keeps u128 wide enough
            de - ds <= 20,
        decreases de - k,
    {
        proof {
            let part = s@.subrange(ds as int, k as int);
            let next = s@.subrange(ds as int, k as int + 1);
            assert(next.drop_last() =~= part);
            lemma_dec_val_upper(next);
            assert(next.len() <= 20);
            lemma_pow10_20();
            lemma_pow10_le(next.len(), 20);
        }
        acc = acc * 10 + (s[k] - DIGIT0) as u128;
        k = k + 1;
    }
    proof {
        assert(s@.subrange(ds as int, de as int) =~= s@.subrange(ds as int, k as int));
    }
    if acc <= u64::MAX as u128 {
        Some(acc as u64)
    } else {
        None
    }
}

pub proof fn lemma_pow10_20()
    ensures
        pow10(20) == 0x56bc75e2d63100000,
{
    reveal_with_fuel(pow10, 21);
}

pub proof fn lemma_pow10_pos(n: nat)
    ensures
        pow10(n) >= 1,
    decreases n,
{
    if n > 0 {
        lemma_pow10_pos((n - 1) as nat);
    }
}

pub proof fn lemma_pow10_le(a: nat, b: nat)
    requires
        a <= b,
    ensures
        pow10(a) <= pow10(b),
        pow10(a) >= 1,
    decreases b,
{
    lemma_pow10_pos(a);
    if a < b {
        lemma_pow10_le(a, (b - 1) as nat);
    }
}

/// Executable twin of [`num_class`].
pub fn read_num(s: &[u8], i: usize) -> (r: Option<(NumTok, usize)>)
    requires
        i <= s@.len(),
    ensures
        match r {
            Some((tok, e)) => {
                &&& num_class(s@, i as int) matches Some((nv, se))
                &&& e as int == se
                &&& i < e <= s@.len()
                &&& match tok {
                    NumTok::Int(v) => nv == NumV::Int(v as int),
                    NumTok::Uint(v) => nv == NumV::Uint(v as int),
                    NumTok::Float => nv == NumV::Float,
                }
            },
            None => num_class(s@, i as int) is None,
        },
{
    if i >= s.len() {
        return None;
    }
    let neg = s[i] == MINUS;
    let ds = if neg {
        i + 1
    } else {
        i
    };
    if !(ds < s.len() && DIGIT0 <= s[ds] && s[ds] <= DIGIT9) {
        return None;
    }
    let de = if s[ds] == DIGIT0 {
        ds + 1
    } else {
        skip_digits(s, ds)
    };
    proof {
        lemma_digits_end_bounds(s@, ds as int);
    }
    // fraction
    let fe = if de < s.len() && s[de] == DOT {
        let fd = skip_digits(s, de + 1);
        if fd > de + 1 {
            fd
        } else {
            return None;
        }
    } else {
        de
    };
    // exponent
    let te = if fe < s.len() && (s[fe] == LOWER_E || s[fe] == UPPER_E) {
        let j = if fe + 1 < s.len() && (s[fe + 1] == PLUS || s[fe + 1] == MINUS) {
            fe + 2
        } else {
            fe + 1
        };
        let ed = skip_digits(s, j);
        if ed > j {
            ed
        } else {
            return None;
        }
    } else {
        fe
    };
    if te > de {
        return Some((NumTok::Float, te));
    }
    proof {
        lemma_digits_end_bounds(s@, ds as int);
    }
    match read_digits_val(s, ds, de) {
        Some(v) => {
            if neg {
                if v < 0x8000_0000_0000_0000 {
                    Some((NumTok::Int(-(v as i64)), te))
                } else if v == 0x8000_0000_0000_0000 {
                    Some((NumTok::Int(i64::MIN), te))
                } else {
                    Some((NumTok::Float, te))
                }
            } else {
                Some((NumTok::Uint(v), te))
            }
        },
        None => Some((NumTok::Float, te)),
    }
}

// ---------------------------------------------------------------------------
// Whole-value scanning with member/element capture
// ---------------------------------------------------------------------------

/// End of the JSON value starting exactly at `i` (no leading whitespace).
pub open spec fn value_end(s: Seq<u8>, i: int) -> Option<int>
    decreases s.len() - i, 0int,
{
    if 0 <= i < s.len() {
        let b = s[i];
        if b == LBRACE {
            match members_first(s, i + 1) {
                Some((_fields, e)) => Some(e),
                None => None,
            }
        } else if b == LBRACK {
            match elems_first(s, i + 1) {
                Some((_items, e)) => Some(e),
                None => None,
            }
        } else if b == QUOTE {
            match str_content(s, i + 1) {
                Some((_c, e)) => Some(e),
                None => None,
            }
        } else if b == 110 {  // 'n'
            if i + 4 <= s.len() && s[i + 1] == 117 && s[i + 2] == 108 && s[i + 3] == 108 {
                Some(i + 4)
            } else {
                None
            }
        } else if b == 116 {  // 't'
            if i + 4 <= s.len() && s[i + 1] == 114 && s[i + 2] == 117 && s[i + 3] == 101 {
                Some(i + 4)
            } else {
                None
            }
        } else if b == 102 {  // 'f'
            if i + 5 <= s.len() && s[i + 1] == 97 && s[i + 2] == 108 && s[i + 3] == 115 && s[i + 4]
                == 101 {
                Some(i + 5)
            } else {
                None
            }
        } else if b == MINUS || is_digit(b) {
            match num_token(s, i) {
                Some((_neg, _ds, _de, te)) => Some(te),
                None => None,
            }
        } else {
            None
        }
    } else {
        None
    }
}

/// Members of an object whose opening brace stands just before `i`:
/// the (key, raw value span) pairs and the index after the closing brace.
pub open spec fn members_first(s: Seq<u8>, i: int) -> Option<(Seq<(Seq<u8>, Seq<u8>)>, int)>
    decreases s.len() - i, 3int,
{
    let j = white_end(s, i);
    if i <= j < s.len() {
        if s[j] == RBRACE {
            Some((Seq::empty(), j + 1))
        } else {
            member_kv(s, j)
        }
    } else {
        None
    }
}

/// One `"key": value` pair starting exactly at `i`, then the rest of the
/// object.
pub open spec fn member_kv(s: Seq<u8>, i: int) -> Option<(Seq<(Seq<u8>, Seq<u8>)>, int)>
    decreases s.len() - i, 1int,
{
    if 0 <= i < s.len() && s[i] == QUOTE {
        match str_content(s, i + 1) {
            Some((key, e)) => {
                if i < e <= s.len() {
                    member_colon(s, e, key)
                } else {
                    None
                }
            },
            None => None,
        }
    } else {
        None
    }
}

/// The colon and value of a member whose key ended just before `i`.
pub open spec fn member_colon(s: Seq<u8>, i: int, key: Seq<u8>) -> Option<
    (Seq<(Seq<u8>, Seq<u8>)>, int),
>
    decreases s.len() - i, 1int,
{
    let j = white_end(s, i);
    if i <= j < s.len() && s[j] == COLON {
        member_val(s, j + 1, key)
    } else {
        None
    }
}

/// The value of a member, captured as a raw span, then the rest of the
/// object.
pub open spec fn member_val(s: Seq<u8>, i: int, key: Seq<u8>) -> Option<
    (Seq<(Seq<u8>, Seq<u8>)>, int),
>
    decreases s.len() - i, 1int,
{
    let j = white_end(s, i);
    if i <= j <= s.len() {
        match value_end(s, j) {
            Some(e) => {
                if j < e <= s.len() {
                    match members_rest(s, e) {
                        Some((rest, oe)) => Some(
                            (seq![(key, s.subrange(j, e))] + rest, oe),
                        ),
                        None => None,
                    }
                } else {
                    None
                }
            },
            None => None,
        }
    } else {
        None
    }
}

/// After a member's value: either the closing brace or a comma and the next
/// member.
pub open spec fn members_rest(s: Seq<u8>, i: int) -> Option<(Seq<(Seq<u8>, Seq<u8>)>, int)>
    decreases s.len() - i, 1int,
{
    let j = white_end(s, i);
    if i <= j < s.len() {
        if s[j] == RBRACE {
            Some((Seq::empty(), j + 1))
        } else if s[j] == COMMA {
            member_key(s, j + 1)
        } else {
            None
        }
    } else {
        None
    }
}

/// After a comma inside an object: whitespace, then the next member.
pub open spec fn member_key(s: Seq<u8>, i: int) -> Option<(Seq<(Seq<u8>, Seq<u8>)>, int)>
    decreases s.len() - i, 2int,
{
    let j = white_end(s, i);
    if i <= j <= s.len() {
        member_kv(s, j)
    } else {
        None
    }
}

/// Elements of an array whose opening bracket stands just before `i`:
/// the raw spans and the index after the closing bracket.
pub open spec fn elems_first(s: Seq<u8>, i: int) -> Option<(Seq<Seq<u8>>, int)>
    decreases s.len() - i, 3int,
{
    let j = white_end(s, i);
    if i <= j < s.len() {
        if s[j] == RBRACK {
            Some((Seq::empty(), j + 1))
        } else {
            elem_val(s, j)
        }
    } else {
        None
    }
}

/// One array element starting exactly at `i`, captured as a raw span, then
/// the rest of the array.
pub open spec fn elem_val(s: Seq<u8>, i: int) -> Option<(Seq<Seq<u8>>, int)>
    decreases s.len() - i, 1int,
{
    if 0 <= i <= s.len() {
        match value_end(s, i) {
            Some(e) => {
                if i < e <= s.len() {
                    match elems_rest(s, e) {
                        Some((rest, oe)) => Some((seq![s.subrange(i, e)] + rest, oe)),
                        None => None,
                    }
                } else {
                    None
                }
            },
            None => None,
        }
    } else {
        None
    }
}

/// After an array element: either the closing bracket or a comma and the
/// next element.
pub open spec fn elems_rest(s: Seq<u8>, i: int) -> Option<(Seq<Seq<u8>>, int)>
    decreases s.len() - i, 2int,
{
    let j = white_end(s, i);
    if i <= j < s.len() {
        if s[j] == RBRACK {
            Some((Seq::empty(), j + 1))
        } else if s[j] == COMMA {
            let k = white_end(s, j + 1);
            if j + 1 <= k <= s.len() {
                elem_val(s, k)
            } else {
                None
            }
        } else {
            None
        }
    } else {
        None
    }
}

/// A raw span: one complete JSON value, no surrounding whitespace.
pub open spec fn valid_raw(v: Seq<u8>) -> bool {
    value_end(v, 0) == Some(v.len() as int)
}

// ---------------------------------------------------------------------------
// Executable twins
// ---------------------------------------------------------------------------

/// The unescaped keys and raw value spans of a captured member list.
pub open spec fn fields_view(v: Seq<(Vec<u8>, Vec<u8>)>) -> Seq<(Seq<u8>, Seq<u8>)> {
    Seq::new(v.len(), |k: int| (v[k].0@, v[k].1@))
}

/// The raw spans of a captured element list.
pub open spec fn spans_view(v: Seq<Vec<u8>>) -> Seq<Seq<u8>> {
    Seq::new(v.len(), |k: int| v[k]@)
}

/// Copy of the byte range `[a, b)` of `s`.
pub fn copy_range(s: &[u8], a: usize, b: usize) -> (r: Vec<u8>)
    requires
        a <= b <= s@.len(),
    ensures
        r@ == s@.subrange(a as int, b as int),
{
    let mut out: Vec<u8> = Vec::new();
    let mut k: usize = a;
    while k < b
        invariant
            a <= k <= b <= s@.len(),
            out@ == s@.subrange(a as int, k as int),
        decreases b - k,
    {
        out.push(s[k]);
        proof {
            assert(out@ =~= s@.subrange(a as int, k as int + 1));
        }
        k = k + 1;
    }
    proof {
        assert(out@ =~= s@.subrange(a as int, b as int));
    }
    out
}

/// Copy of a whole slice, proved equal.
pub fn clone_bytes(v: &[u8]) -> (r: Vec<u8>)
    ensures
        r@ == v@,
{
    let r = copy_range(v, 0, v.len());
    proof {
        assert(v@.subrange(0, v@.len() as int) =~= v@);
    }
    r
}

/// Executable twin of [`value_end`].
pub fn value_end_x(s: &[u8], i: usize) -> (r: Option<usize>)
    requires
        i <= s@.len(),
    ensures
        match r {
            Some(e) => value_end(s@, i as int) == Some(e as int) && i < e <= s@.len(),
            None => value_end(s@, i as int) is None,
        },
    decreases s@.len() - i, 0int,
{
    if i >= s.len() {
        return None;
    }
    let b = s[i];
    if b == LBRACE {
        match members_first_x(s, i + 1) {
            Some((_fields, e)) => Some(e),
            None => None,
        }
    } else if b == LBRACK {
        match elems_first_x(s, i + 1) {
            Some((_items, e)) => Some(e),
            None => None,
        }
    } else if b == QUOTE {
        let mut scratch: Vec<u8> = Vec::new();
        match read_str_content(s, i + 1, &mut scratch) {
            Some(e) => Some(e),
            None => None,
        }
    } else if b == 110 {
        if s.len() >= 4 && i <= s.len() - 4 && s[i + 1] == 117 && s[i + 2] == 108 && s[i + 3]
            == 108 {
            Some(i + 4)
        } else {
            None
        }
    } else if b == 116 {
        if s.len() >= 4 && i <= s.len() - 4 && s[i + 1] == 114 && s[i + 2] == 117 && s[i + 3]
            == 101 {
            Some(i + 4)
        } else {
            None
        }
    } else if b == 102 {
        if s.len() >= 5 && i <= s.len() - 5 && s[i + 1] == 97 && s[i + 2] == 108 && s[i + 3] == 115
            && s[i + 4] == 101 {
            Some(i + 5)
        } else {
            None
        }
    } else if b == MINUS || (DIGIT0 <= b && b <= DIGIT9) {
        match read_num(s, i) {
            Some((_tok, e)) => Some(e),
            None => None,
        }
    } else {
        None
    }
}

/// Executable twin of [`members_first`].
pub fn members_first_x(s: &[u8], i: usize) -> (r: Option<(Vec<(Vec<u8>, Vec<u8>)>, usize)>)
    requires
        i <= s@.len(),
    ensures
        match r {
            Some((fields, e)) => {
                &&& members_first(s@, i as int) == Some((fields_view(fields@), e as int))
                &&& i < e <= s@.len()
            },
            None => members_first(s@, i as int) is None,
        },
    decreases s@.len() - i, 3int,
{
    let j = skip_white(s, i);
    if j < s.len() {
        if s[j] == RBRACE {
            let fields: Vec<(Vec<u8>, Vec<u8>)> = Vec::new();
            proof {
                assert(fields_view(fields@) =~= Seq::<(Seq<u8>, Seq<u8>)>::empty());
            }
            Some((fields, j + 1))
        } else {
            member_kv_x(s, j)
        }
    } else {
        None
    }
}

/// Executable twin of [`member_kv`].
pub fn member_kv_x(s: &[u8], i: usize) -> (r: Option<(Vec<(Vec<u8>, Vec<u8>)>, usize)>)
    requires
        i <= s@.len(),
    ensures
        match r {
            Some((fields, e)) => {
                &&& member_kv(s@, i as int) == Some((fields_view(fields@), e as int))
                &&& i < e <= s@.len()
            },
            None => member_kv(s@, i as int) is None,
        },
    decreases s@.len() - i, 1int,
{
    if i < s.len() && s[i] == QUOTE {
        let mut key: Vec<u8> = Vec::new();
        match read_str_content(s, i + 1, &mut key) {
            Some(e) => member_colon_x(s, e, key),
            None => None,
        }
    } else {
        None
    }
}

/// Executable twin of [`member_colon`].
pub fn member_colon_x(s: &[u8], i: usize, key: Vec<u8>) -> (r: Option<
    (Vec<(Vec<u8>, Vec<u8>)>, usize),
>)
    requires
        i <= s@.len(),
    ensures
        match r {
            Some((fields, e)) => {
                &&& member_colon(s@, i as int, key@) == Some((fields_view(fields@), e as int))
                &&& i < e <= s@.len()
            },
            None => member_colon(s@, i as int, key@) is None,
        },
    decreases s@.len() - i, 1int,
{
    let j = skip_white(s, i);
    if j < s.len() && s[j] == COLON {
        member_val_x(s, j + 1, key)
    } else {
        None
    }
}

/// Executable twin of [`member_val`].
pub fn member_val_x(s: &[u8], i: usize, key: Vec<u8>) -> (r: Option<
    (Vec<(Vec<u8>, Vec<u8>)>, usize),
>)
    requires
        i <= s@.len(),
    ensures
        match r {
            Some((fields, e)) => {
                &&& member_val(s@, i as int, key@) == Some((fields_view(fields@), e as int))
                &&& i < e <= s@.len()
            },
            None => member_val(s@, i as int, key@) is None,
        },
    decreases s@.len() - i, 1int,
{
    let j = skip_white(s, i);
    match value_end_x(s, j) {
        Some(e) => {
            let span = copy_range(s, j, e);
            match members_rest_x(s, e) {
                Some((mut rest, oe)) => {
                    let ghost rest0 = rest@;
                    rest.insert(0, (key, span));
                    proof {
                        assert(fields_view(rest@) =~= seq![(key@, s@.subrange(j as int, e as int))]
                            + fields_view(rest0));
                    }
                    Some((rest, oe))
                },
                None => None,
            }
        },
        None => None,
    }
}

/// Executable twin of [`members_rest`].
pub fn members_rest_x(s: &[u8], i: usize) -> (r: Option<(Vec<(Vec<u8>, Vec<u8>)>, usize)>)
    requires
        i <= s@.len(),
    ensures
        match r {
            Some((fields, e)) => {
                &&& members_rest(s@, i as int) == Some((fields_view(fields@), e as int))
                &&& i < e <= s@.len()
            },
            None => members_rest(s@, i as int) is None,
        },
    decreases s@.len() - i, 1int,
{
    let j = skip_white(s, i);
    if j < s.len() {
        if s[j] == RBRACE {
            let fields: Vec<(Vec<u8>, Vec<u8>)> = Vec::new();
            proof {
                assert(fields_view(fields@) =~= Seq::<(Seq<u8>, Seq<u8>)>::empty());
            }
            Some((fields, j + 1))
        } else if s[j] == COMMA {
            member_key_x(s, j + 1)
        } else {
            None
        }
    } else {
        None
    }
}

/// Executable twin of [`member_key`].
pub fn member_key_x(s: &[u8], i: usize) -> (r: Option<(Vec<(Vec<u8>, Vec<u8>)>, usize)>)
    requires
        i <= s@.len(),
    ensures
        match r {
            Some((fields, e)) => {
                &&& member_key(s@, i as int) == Some((fields_view(fields@), e as int))
                &&& i < e <= s@.len()
            },
            None => member_key(s@, i as int) is None,
        },
    decreases s@.len() - i, 2int,
{
    let j = skip_white(s, i);
    member_kv_x(s, j)
}

/// Executable twin of [`elems_first`].
pub fn elems_first_x(s: &[u8], i: usize) -> (r: Option<(Vec<Vec<u8>>, usize)>)
    requires
        i <= s@.len(),
    ensures
        match r {
            Some((items, e)) => {
                &&& elems_first(s@, i as int) == Some((spans_view(items@), e as int))
                &&& i < e <= s@.len()
            },
            None => elems_first(s@, i as int) is None,
        },
    decreases s@.len() - i, 3int,
{
    let j = skip_white(s, i);
    if j < s.len() {
        if s[j] == RBRACK {
            let items: Vec<Vec<u8>> = Vec::new();
            proof {
                assert(spans_view(items@) =~= Seq::<Seq<u8>>::empty());
            }
            Some((items, j + 1))
        } else {
            elem_val_x(s, j)
        }
    } else {
        None
    }
}

/// Executable twin of [`elem_val`].
pub fn elem_val_x(s: &[u8], i: usize) -> (r: Option<(Vec<Vec<u8>>, usize)>)
    requires
        i <= s@.len(),
    ensures
        match r {
            Some((items, e)) => {
                &&& elem_val(s@, i as int) == Some((spans_view(items@), e as int))
                &&& i < e <= s@.len()
            },
            None => elem_val(s@, i as int) is None,
        },
    decreases s@.len() - i, 1int,
{
    match value_end_x(s, i) {
        Some(e) => {
            let span = copy_range(s, i, e);
            match elems_rest_x(s, e) {
                Some((mut rest, oe)) => {
                    let ghost rest0 = rest@;
                    rest.insert(0, span);
                    proof {
                        assert(spans_view(rest@) =~= seq![s@.subrange(i as int, e as int)]
                            + spans_view(rest0));
                    }
                    Some((rest, oe))
                },
                None => None,
            }
        },
        None => None,
    }
}

/// Executable twin of [`elems_rest`].
pub fn elems_rest_x(s: &[u8], i: usize) -> (r: Option<(Vec<Vec<u8>>, usize)>)
    requires
        i <= s@.len(),
    ensures
        match r {
            Some((items, e)) => {
                &&& elems_rest(s@, i as int) == Some((spans_view(items@), e as int))
                &&& i < e <= s@.len()
            },
            None => elems_rest(s@, i as int) is None,
        },
    decreases s@.len() - i, 2int,
{
    let j = skip_white(s, i);
    if j < s.len() {
        if s[j] == RBRACK {
            let items: Vec<Vec<u8>> = Vec::new();
            proof {
                assert(spans_view(items@) =~= Seq::<Seq<u8>>::empty());
            }
            Some((items, j + 1))
        } else if s[j] == COMMA {
            let k = skip_white(s, j + 1);
            elem_val_x(s, k)
        } else {
            None
        }
    } else {
        None
    }
}

/// Executable check of [`valid_raw`].
pub fn check_raw(v: &[u8]) -> (r: bool)
    ensures
        r == valid_raw(v@),
{
    match value_end_x(v, 0) {
        Some(e) => e == v.len(),
        None => false,
    }
}

} // verus!
