//! Round-trip laws of the codec: encoding a value and decoding the result
//! yields the value back.  The lemmas here are stated over the
//! specification functions that the executable codec is proved to follow,
//! so they carry over to the executable functions through their contracts.

use vstd::prelude::*;

use crate::lex::{
    esc_decode, hex4, hex_val, is_digit, is_ws, str_content, utf8_enc, white_end, digits_end,
    lemma_digits_end_bounds, lemma_str_content_bounds, lemma_white_end_bounds, BACKSLASH, COLON,
    COMMA, DIGIT0, DOT, LBRACE, LBRACK, LOWER_E, MINUS, PLUS, QUOTE, RBRACE, RBRACK,
    UPPER_E,
};
use crate::raw::{
    elem_val, elems_first, elems_rest, exp_end, frac_end, member_colon, member_key, member_kv,
    member_val, members_first, members_rest, num_class, num_token, dec_val, valid_raw, value_end,
    NumV,
};
use crate::emit::{dec_of, esc_byte, esc_from, hex_digit_of, int_bytes_of, obj_bytes_of, obj_tail_bytes, str_bytes_of};
use crate::id::{id_bytes_of, id_from_raw, id_wf, IdV};
use crate::request::{
    count_from, deserialize_request_spec, find_from, key_id, key_jsonrpc, key_method, key_params,
    req_bytes_of, req_fields, req_of_fields, req_wf, str_from_raw, ver_bytes, RequestV,
};
use crate::response::{
    deserialize_response_spec, err_bytes_of, err_fields, err_of_fields, err_of_raw, err_wf,
    int_from_raw, key_code, key_data, key_error, key_message, key_result, resp_bytes_of,
    resp_fields, resp_of_fields, resp_wf, ErrorV, ResponseV,
};
use crate::DecodeErrorV;

verus! {

/// A byte that cannot extend a complete number token.
pub open spec fn num_stopper(b: u8) -> bool {
    &&& !is_digit(b)
    &&& b != DOT
    &&& b != LOWER_E
    &&& b != UPPER_E
}

/// The decimal digits of `n` are digits, start without a leading zero
/// (unless `n` itself is below ten), and read back as `n`.
pub proof fn lemma_dec_of_digits(n: int)
    requires
        n >= 0,
    ensures
        dec_of(n).len() >= 1,
        forall|k: int| 0 <= k < dec_of(n).len() ==> is_digit(#[trigger] dec_of(n)[k]),
        dec_of(n)[0] == DIGIT0 ==> n == 0,
        n == 0 ==> dec_of(n) == seq![DIGIT0],
        dec_val(dec_of(n)) == n,
    decreases n,
{
    if n < 10 {
        assert(dec_of(n) == seq![(DIGIT0 + n) as u8]);
        assert(dec_val(dec_of(n)) == dec_val(dec_of(n).drop_last()) * 10 + (dec_of(n).last()
            - DIGIT0));
        assert(dec_of(n).drop_last().len() == 0);
    } else {
        lemma_dec_of_digits(n / 10);
        let d = dec_of(n);
        assert(d == dec_of(n / 10) + seq![(DIGIT0 + n % 10) as u8]);
        assert(d.drop_last() =~= dec_of(n / 10));
        assert(d.last() == (DIGIT0 + n % 10) as u8);
        assert(dec_val(d) == dec_val(dec_of(n / 10)) * 10 + (n % 10));
        assert(d[0] == dec_of(n / 10)[0]);
        assert(n / 10 > 0);
    }
}

/// Converse characterization of [`digits_end`]: a run of digits followed by
/// the end of input or a non-digit ends exactly there.
pub proof fn lemma_digits_end_exact(s: Seq<u8>, i: int, e: int)
    requires
        0 <= i <= e <= s.len(),
        forall|k: int| i <= k < e ==> is_digit(s[k]),
        e == s.len() || !is_digit(s[e]),
    ensures
        digits_end(s, i) == e,
    decreases e - i,
{
    if i < e {
        lemma_digits_end_exact(s, i + 1, e);
    }
}

/// Converse characterization of [`white_end`].
pub proof fn lemma_white_end_exact(s: Seq<u8>, i: int, e: int)
    requires
        0 <= i <= e <= s.len(),
        forall|k: int| i <= k < e ==> is_ws(s[k]),
        e == s.len() || !is_ws(s[e]),
    ensures
        white_end(s, i) == e,
    decreases e - i,
{
    if i < e {
        lemma_white_end_exact(s, i + 1, e);
    }
}

/// Reading an embedded unsigned decimal: where the buffer holds
/// `dec_of(n)` followed by the end of input or a stopper byte, the number
/// classifier finds exactly `Uint(n)`.
pub proof fn lemma_num_uint_rt(n: int, s: Seq<u8>, i: int)
    requires
        0 <= n <= 0xFFFF_FFFF_FFFF_FFFF,
        0 <= i,
        i + dec_of(n).len() <= s.len(),
        s.subrange(i, i + dec_of(n).len() as int) == dec_of(n),
        i + dec_of(n).len() == s.len() || num_stopper(s[i + dec_of(n).len()]),
    ensures
        num_class(s, i) == Some((NumV::Uint(n), i + dec_of(n).len())),
{
    let d = dec_of(n);
    let e = i + d.len();
    lemma_dec_of_digits(n);
    assert forall|k: int| i <= k < e implies is_digit(s[k]) by {
        assert(s[k] == s.subrange(i, e)[k - i]);
    }
    assert(s[i] == d[0]);
    assert(is_digit(s[i]));
    assert(s[i] != MINUS);
    lemma_digits_end_exact(s, i, e);
    if s[i] == DIGIT0 {
        // then n == 0 and the token is the single digit `0`
        assert(n == 0);
        assert(d.len() == 1);
    }
    let de = if s[i] == DIGIT0 {
        i + 1
    } else {
        digits_end(s, i)
    };
    assert(de == e);
    assert(frac_end(s, de) == Some(de));
    assert(exp_end(s, de) == Some(de));
    assert(num_token(s, i) == Some((false, i, e, e)));
    assert(s.subrange(i, e) =~= d);
    assert(dec_val(s.subrange(i, e)) == n);
}

/// Reading an embedded signed decimal: where the buffer holds a minus sign
/// and `dec_of(-n)` followed by the end of input or a stopper byte, the
/// number classifier finds exactly `Int(n)`.
pub proof fn lemma_num_int_rt(n: int, s: Seq<u8>, i: int)
    requires
        -0x8000_0000_0000_0000 <= n < 0,
        0 <= i,
        i + int_bytes_of(n).len() <= s.len(),
        s.subrange(i, i + int_bytes_of(n).len() as int) == int_bytes_of(n),
        i + int_bytes_of(n).len() == s.len() || num_stopper(s[i + int_bytes_of(n).len()]),
    ensures
        num_class(s, i) == Some((NumV::Int(n), i + int_bytes_of(n).len())),
{
    let d = dec_of(-n);
    let w = int_bytes_of(n);
    assert(w == seq![MINUS] + d);
    let e = i + w.len();
    lemma_dec_of_digits(-n);
    assert(s[i] == w[0]);
    assert(s[i] == MINUS);
    let ds = i + 1;
    assert forall|k: int| ds <= k < e implies is_digit(s[k]) by {
        assert(s[k] == s.subrange(i, e)[k - i]);
        assert(w[k - i] == d[k - i - 1]);
    }
    assert(s[ds] == w[1]);
    assert(s[ds] == d[0]);
    assert(is_digit(s[ds]));
    lemma_digits_end_exact(s, ds, e);
    if s[ds] == DIGIT0 {
        assert(-n == 0);
    }
    let de = if s[ds] == DIGIT0 {
        ds + 1
    } else {
        digits_end(s, ds)
    };
    assert(de == e);
    assert(frac_end(s, de) == Some(de));
    assert(exp_end(s, de) == Some(de));
    assert(num_token(s, i) == Some((true, ds, e, e)));
    assert forall|k: int| 0 <= k < d.len() implies s.subrange(ds, e)[k] == d[k] by {
        assert(s[ds + k] == s.subrange(i, e)[ds + k - i]);
        assert(w[k + 1] == d[k]);
    }
    assert(s.subrange(ds, e) =~= d);
    assert(dec_val(s.subrange(ds, e)) == -n);
}

/// Agreement of two buffers on a window: `s` holds at offset `d` the same
/// bytes that `t` holds between `i` and `e`.
pub open spec fn agree(t: Seq<u8>, s: Seq<u8>, d: int, i: int, e: int) -> bool {
    &&& 0 <= d
    &&& 0 <= i <= e <= t.len()
    &&& d + e <= s.len()
    &&& forall|j: int| i <= j < e ==> t[j] == s[d + j]
}

/// What must hold just past a shifted window: within `t` the next byte is
/// carried over too; at `t`'s end the larger buffer ends as well or goes on
/// with a byte that cannot extend a number token.
pub open spec fn tail_ok(t: Seq<u8>, s: Seq<u8>, d: int, e: int) -> bool {
    if e == t.len() {
        d + e == s.len() || num_stopper(s[d + e])
    } else {
        d + e < s.len() && s[d + e] == t[e]
    }
}

/// An escape sequence read in one buffer reads the same way at its shifted
/// position in another buffer holding the same bytes.
pub proof fn lemma_esc_decode_shift(t: Seq<u8>, s: Seq<u8>, d: int, i: int)
    requires
        esc_decode(t, i) is Some,
        esc_decode(t, i)->Some_0.1 <= t.len(),
        agree(t, s, d, i, esc_decode(t, i)->Some_0.1),
    ensures
        esc_decode(s, d + i) == Some(
            (esc_decode(t, i)->Some_0.0, d + esc_decode(t, i)->Some_0.1),
        ),
{
    let (bs, e) = esc_decode(t, i)->Some_0;
    assert forall|j: int| d + i <= j < d + e implies s[j] == t[j - d] by {
        assert(t[j - d] == s[d + (j - d)]);
    }
    assert(t[i] == s[d + i]);
    if t[i] == 117 {
        let cp = hex4(t, i + 1)->Some_0;
        assert forall|j: int| i <= j < e implies s[d + j] == t[j] by {}
        if 0xD800 <= cp < 0xDC00 {
            assert(hex4(s, d + i + 1) == hex4(t, i + 1));
            assert(hex4(s, d + i + 7) == hex4(t, i + 7));
        } else {
            assert(hex4(s, d + i + 1) == hex4(t, i + 1));
            // a non-surrogate escape never reaches the paired lookahead
            assert(esc_decode(s, d + i) == Some((bs, d + e)));
        }
    }
}

/// A string literal scanned in one buffer scans the same way at its shifted
/// position in another buffer holding the same bytes.
pub proof fn lemma_str_content_shift(t: Seq<u8>, s: Seq<u8>, d: int, i: int)
    requires
        str_content(t, i) is Some,
        agree(t, s, d, i, str_content(t, i)->Some_0.1),
    ensures
        str_content(s, d + i) == Some(
            (str_content(t, i)->Some_0.0, d + str_content(t, i)->Some_0.1),
        ),
    decreases t.len() - i,
{
    let (c, e) = str_content(t, i)->Some_0;
    crate::lex::lemma_str_content_bounds(t, i);
    assert forall|j: int| d + i <= j < d + e implies s[j] == t[j - d] by {
        assert(t[j - d] == s[d + (j - d)]);
    }
    assert(t[i] == s[d + i]);
    if t[i] == QUOTE {
    } else if t[i] == BACKSLASH {
        let (bs, e1) = esc_decode(t, i + 1)->Some_0;
        crate::lex::lemma_str_content_bounds(t, e1);
        lemma_esc_decode_shift(t, s, d, i + 1);
        lemma_str_content_shift(t, s, d, e1);
    } else {
        lemma_str_content_shift(t, s, d, i + 1);
    }
}

/// A number token read in one buffer reads the same way, with the same
/// classification, at its shifted position in another buffer holding the
/// same bytes.
#[verifier::rlimit(100)]
pub proof fn lemma_num_shift(t: Seq<u8>, s: Seq<u8>, d: int, i: int)
    requires
        num_class(t, i) is Some,
        agree(t, s, d, i, num_class(t, i)->Some_0.1),
        tail_ok(t, s, d, num_class(t, i)->Some_0.1),
    ensures
        num_class(s, d + i) == Some((num_class(t, i)->Some_0.0, d + num_class(t, i)->Some_0.1)),
{
    let (nv, te) = num_class(t, i)->Some_0;
    let (neg, ds, de, _te) = num_token(t, i)->Some_0;
    assert forall|j: int| d + i <= j < d + te implies s[j] == t[j - d] by {
        assert(t[j - d] == s[d + (j - d)]);
    }
    assert(t[i] == s[d + i]);
    lemma_digits_end_bounds(t, ds);
    lemma_digits_end_bounds(t, i);
    // The integer digits carry over.
    assert forall|k: int| ds <= k < de implies is_digit(#[trigger] s[d + k]) by {
        if t[ds] == DIGIT0 {
        } else {
            assert(is_digit(t[k]));
        }
    }
    assert(ds < te ==> t[ds] == s[d + ds]);
    if t[ds] == DIGIT0 {
        // integer part is the single digit `0`
        assert(de == ds + 1);
        if de < t.len() {
            if de < te {
                assert(t[de] == s[d + de]);
            }
        }
    } else {
        // boundary of the digit run carries over
        if de == te {
            if te == t.len() {
                if d + te < s.len() {
                    assert(num_stopper(s[d + te]));
                }
            } else {
                assert(s[d + te] == t[te]);
                assert(!is_digit(t[te]));
            }
        } else {
            assert(t[de] == s[d + de]);
            assert(!is_digit(t[de]));
        }
        lemma_digits_end_exact(s, d + ds, d + de);
    }
    let fe = frac_end(t, de)->Some_0;
    // fraction part
    if de < t.len() && t[de] == DOT {
        assert(fe == digits_end(t, de + 1));
        lemma_digits_end_bounds(t, de + 1);
        assert forall|k: int| de + 1 <= k < fe implies is_digit(#[trigger] s[d + k]) by {
            assert(is_digit(t[k]));
        }
        if fe == te {
            if te == t.len() {
                if d + te < s.len() {
                    assert(num_stopper(s[d + te]));
                }
            } else {
                assert(s[d + te] == t[te]);
                assert(!is_digit(t[te]));
            }
        } else {
            assert(t[fe] == s[d + fe]);
            assert(!is_digit(t[fe]));
        }
        lemma_digits_end_exact(s, d + de + 1, d + fe);
        assert(t[de] == s[d + de]);
        assert(frac_end(s, d + de) == Some(d + fe));
    } else {
        assert(fe == de);
        if de == t.len() {
            if d + de < s.len() {
                assert(num_stopper(s[d + de]));
                assert(s[d + de] != DOT);
            }
        } else {
            if de < te {
                assert(s[d + de] == t[de]);
            } else {
                assert(s[d + de] == t[de]) by {
                    assert(tail_ok(t, s, d, te));
                }
            }
            assert(t[de] != DOT || !(de < t.len() && t[de] == DOT));
        }
        assert(frac_end(s, d + de) == Some(d + de));
    }
    // exponent part
    if fe < t.len() && (t[fe] == LOWER_E || t[fe] == UPPER_E) {
        let j = if fe + 1 < t.len() && (t[fe + 1] == PLUS || t[fe + 1] == MINUS) {
            fe + 2
        } else {
            fe + 1
        };
        assert(te == digits_end(t, j));
        lemma_digits_end_bounds(t, j);
        assert(t[fe] == s[d + fe]);
        assert(j <= te);
        assert(fe + 1 < t.len() ==> fe + 1 < te || fe + 1 == te);
        if fe + 1 < te {
            assert(t[fe + 1] == s[d + fe + 1]);
        }
        assert forall|k: int| j <= k < te implies is_digit(#[trigger] s[d + k]) by {
            assert(is_digit(t[k]));
        }
        if te == t.len() {
            if d + te < s.len() {
                assert(num_stopper(s[d + te]));
            }
        } else {
            assert(s[d + te] == t[te]);
            assert(!is_digit(t[te]));
        }
        lemma_digits_end_exact(s, d + j, d + te);
        assert(exp_end(s, d + fe) == Some(d + te));
    } else {
        assert(te == fe);
        if fe == t.len() {
            if d + fe < s.len() {
                assert(num_stopper(s[d + fe]));
            }
        } else {
            assert(s[d + fe] == t[fe]);
        }
        assert(exp_end(s, d + fe) == Some(d + fe));
    }
    assert(num_token(s, d + i) == Some((neg, d + ds, d + de, d + te)));
    assert(s.subrange(d + ds, d + de) =~= t.subrange(ds, de));
}

/// Reading an embedded escaped string: where the buffer holds the escaped
/// form of `content` from index `k` on, followed by the closing quote, the
/// string scanner returns exactly the remaining content and stops after
/// the quote.
#[verifier::rlimit(100)]
pub proof fn lemma_str_rt(content: Seq<u8>, k: int, s: Seq<u8>, i: int)
    requires
        0 <= k <= content.len(),
        0 <= i,
        i + esc_from(content, k).len() + 1 <= s.len(),
        s.subrange(i, i + esc_from(content, k).len() + 1) == esc_from(content, k) + seq![QUOTE],
    ensures
        str_content(s, i) == Some((content.skip(k), i + esc_from(content, k).len() + 1)),
    decreases content.len() - k,
{
    let w = esc_from(content, k) + seq![QUOTE];
    let e = i + w.len();
    assert forall|j: int| i <= j < e implies s[j] == w[j - i] by {
        assert(s.subrange(i, e)[j - i] == s[j]);
    }
    if k == content.len() {
        assert(esc_from(content, k).len() == 0);
        assert(s[i] == QUOTE);
        assert(content.skip(k) =~= Seq::<u8>::empty());
    } else {
        let b = content[k];
        let p = esc_byte(b);
        let tail = esc_from(content, k + 1);
        assert(esc_from(content, k) == p + tail);
        let l1 = p.len() as int;
        // The window from i + l1 on matches the tail followed by the quote.
        assert forall|j: int| 0 <= j < tail.len() + 1 implies s.subrange(
            i + l1,
            i + l1 + tail.len() + 1,
        )[j] == (tail + seq![QUOTE])[j] by {
            assert(s.subrange(i + l1, i + l1 + tail.len() + 1)[j] == s[i + l1 + j]);
            assert(s[i + l1 + j] == w[l1 + j]);
            if j < tail.len() {
                assert(w[l1 + j] == (p + tail)[l1 + j]);
            }
        }
        assert(s.subrange(i + l1, i + l1 + tail.len() + 1) =~= tail + seq![QUOTE]);
        assert forall|j: int| 0 <= j < l1 implies s[i + j] == p[j] by {
            assert(s[i + j] == w[i + j - i]);
        }
        lemma_str_rt(content, k + 1, s, i + l1);
        let rest = content.skip(k + 1);
        if b == QUOTE || b == BACKSLASH {
            assert(s[i] == BACKSLASH);
            assert(esc_decode(s, i + 1) == Some((seq![b], i + 2)));
            assert(str_content(s, i) == Some((seq![b] + rest, e)));
        } else if b == 8 || b == 9 || b == 10 || b == 12 || b == 13 {
            assert(s[i] == BACKSLASH);
            assert(esc_decode(s, i + 1) == Some((seq![b], i + 2)));
            assert(str_content(s, i) == Some((seq![b] + rest, e)));
        } else if b < 0x20 {
            assert(s[i] == BACKSLASH);
            assert(s[i + 1] == 117);
            assert(s[i + 2] == DIGIT0);
            assert(s[i + 3] == DIGIT0);
            assert(s[i + 4] == hex_digit_of(b as int / 16));
            assert(s[i + 5] == hex_digit_of(b as int % 16));
            assert(hex_val(hex_digit_of(b as int / 16)) == Some(b as int / 16));
            assert(hex_val(hex_digit_of(b as int % 16)) == Some(b as int % 16));
            assert(hex4(s, i + 2) == Some(
                0 * 0x1000 + 0 * 0x100 + (b as int / 16) * 0x10 + (b as int % 16),
            ));
            assert(hex4(s, i + 2) == Some(b as int));
            assert(utf8_enc(b as int) == seq![b]);
            assert(esc_decode(s, i + 1) == Some((seq![b], i + 6)));
            assert(str_content(s, i) == Some((seq![b] + rest, e)));
        } else {
            assert(s[i] == b);
            assert(b != QUOTE && b != BACKSLASH && b >= 0x20);
            assert(str_content(s, i) == Some((seq![b] + rest, e)));
        }
        assert(seq![b] + rest =~= content.skip(k));
    }
}

/// Encoding then decoding an identifier returns the same variant and
/// value.  A non-negative `Int` is the one identifier this does not hold
/// of: its encoded form is an unsigned literal, so it re-reads as `Uint`;
/// the premise therefore asks for a negative `Int`, which is exactly what
/// decoding ever produces for that variant.
pub proof fn lemma_id_round_trip(v: IdV)
    requires
        id_wf(v),
        v matches IdV::Int(n) ==> n < 0,
    ensures
        id_from_raw(id_bytes_of(v)) == Some(v),
{
    let w = id_bytes_of(v);
    match v {
        IdV::Null => {
            assert(w == seq![110u8, 117u8, 108u8, 108u8]);
        },
        IdV::Str(c) => {
            assert(w == seq![QUOTE] + esc_from(c, 0) + seq![QUOTE]);
            assert(w[0] == QUOTE);
            assert forall|j: int| 0 <= j < esc_from(c, 0).len() + 1 implies w.subrange(
                1,
                w.len() as int,
            )[j] == (esc_from(c, 0) + seq![QUOTE])[j] by {
                assert(w.subrange(1, w.len() as int)[j] == w[1 + j]);
            }
            assert(w.subrange(1, w.len() as int) =~= esc_from(c, 0) + seq![QUOTE]);
            lemma_str_rt(c, 0, w, 1);
            assert(c.skip(0) =~= c);
        },
        IdV::Int(n) => {
            assert(w == int_bytes_of(n));
            assert(w.subrange(0, w.len() as int) =~= w);
            lemma_num_int_rt(n, w, 0);
            lemma_dec_of_digits(-n);
            assert(w[0] == MINUS);
        },
        IdV::Uint(n) => {
            assert(w == dec_of(n));
            assert(w.subrange(0, w.len() as int) =~= w);
            lemma_num_uint_rt(n, w, 0);
            lemma_dec_of_digits(n);
            assert(is_digit(w[0]));
            assert(w[0] != 110 && w[0] != QUOTE && w[0] != MINUS);
        },
        IdV::Float(l) => {
            assert(num_class(l, 0) == Some((NumV::Float, l.len() as int)));
            assert(num_token(l, 0) is Some);
            let (neg, ds, de, te) = num_token(l, 0)->Some_0;
            assert(l.len() > 0);
            assert(l[0] == MINUS || is_digit(l[0]));
            assert(l[0] != 110 && l[0] != QUOTE);
        },
    }
}


/// Bounds of a complete number token.
pub proof fn lemma_num_token_bounds(t: Seq<u8>, i: int)
    requires
        num_token(t, i) is Some,
    ensures
        ({
            let (neg, ds, de, te) = num_token(t, i)->Some_0;
            &&& i <= ds < de <= te <= t.len()
            &&& i < te
        }),
{
    let (neg, ds, de, te) = num_token(t, i)->Some_0;
    lemma_digits_end_bounds(t, ds);
    if de < t.len() && t[de] == DOT {
        lemma_digits_end_bounds(t, de + 1);
    }
    let fe = frac_end(t, de)->Some_0;
    if fe < t.len() && (t[fe] == LOWER_E || t[fe] == UPPER_E) {
        if fe + 1 < t.len() && (t[fe + 1] == PLUS || t[fe + 1] == MINUS) {
            lemma_digits_end_bounds(t, fe + 2);
        } else {
            lemma_digits_end_bounds(t, fe + 1);
        }
    }
}

/// Bounds of a scanned value: it covers at least one byte and stays inside
/// the buffer.
pub proof fn lemma_value_end_bounds(t: Seq<u8>, i: int)
    requires
        value_end(t, i) is Some,
    ensures
        i < value_end(t, i)->Some_0 <= t.len(),
    decreases t.len() - i, 0int,
{
    let b = t[i];
    if b == LBRACE {
        lemma_members_first_bounds(t, i + 1);
    } else if b == LBRACK {
        lemma_elems_first_bounds(t, i + 1);
    } else if b == QUOTE {
        lemma_str_content_bounds(t, i + 1);
    } else if b == MINUS || is_digit(b) {
        lemma_num_token_bounds(t, i);
    }
}

/// Bounds of a scanned member list.
pub proof fn lemma_members_first_bounds(t: Seq<u8>, i: int)
    requires
        members_first(t, i) is Some,
    ensures
        i < members_first(t, i)->Some_0.1 <= t.len(),
    decreases t.len() - i, 3int,
{
    let j = white_end(t, i);
    if !(i <= j < t.len() && t[j] == RBRACE) {
        lemma_member_kv_bounds(t, j);
    }
}

/// Bounds of a scanned member.
pub proof fn lemma_member_kv_bounds(t: Seq<u8>, i: int)
    requires
        member_kv(t, i) is Some,
    ensures
        i < member_kv(t, i)->Some_0.1 <= t.len(),
    decreases t.len() - i, 1int,
{
    let (key, e) = str_content(t, i + 1)->Some_0;
    lemma_member_colon_bounds(t, e, key);
}

/// Bounds of a scanned member past its key.
pub proof fn lemma_member_colon_bounds(t: Seq<u8>, i: int, key: Seq<u8>)
    requires
        member_colon(t, i, key) is Some,
    ensures
        i < member_colon(t, i, key)->Some_0.1 <= t.len(),
    decreases t.len() - i, 1int,
{
    let j = white_end(t, i);
    lemma_member_val_bounds(t, j + 1, key);
}

/// Bounds of a scanned member past its colon.
pub proof fn lemma_member_val_bounds(t: Seq<u8>, i: int, key: Seq<u8>)
    requires
        member_val(t, i, key) is Some,
    ensures
        i < member_val(t, i, key)->Some_0.1 <= t.len(),
    decreases t.len() - i, 1int,
{
    let j = white_end(t, i);
    let e = value_end(t, j)->Some_0;
    lemma_members_rest_bounds(t, e);
}

/// Bounds of the rest of an object past one member.
pub proof fn lemma_members_rest_bounds(t: Seq<u8>, i: int)
    requires
        members_rest(t, i) is Some,
    ensures
        i < members_rest(t, i)->Some_0.1 <= t.len(),
    decreases t.len() - i, 1int,
{
    let j = white_end(t, i);
    if i <= j < t.len() && t[j] == COMMA {
        lemma_member_key_bounds(t, j + 1);
    }
}

/// Bounds of a member that follows a comma.
pub proof fn lemma_member_key_bounds(t: Seq<u8>, i: int)
    requires
        member_key(t, i) is Some,
    ensures
        i < member_key(t, i)->Some_0.1 <= t.len(),
    decreases t.len() - i, 2int,
{
    let j = white_end(t, i);
    lemma_member_kv_bounds(t, j);
}

/// Bounds of a scanned element list.
pub proof fn lemma_elems_first_bounds(t: Seq<u8>, i: int)
    requires
        elems_first(t, i) is Some,
    ensures
        i < elems_first(t, i)->Some_0.1 <= t.len(),
    decreases t.len() - i, 3int,
{
    let j = white_end(t, i);
    if !(i <= j < t.len() && t[j] == RBRACK) {
        lemma_elem_val_bounds(t, j);
    }
}

/// Bounds of a scanned element.
pub proof fn lemma_elem_val_bounds(t: Seq<u8>, i: int)
    requires
        elem_val(t, i) is Some,
    ensures
        i < elem_val(t, i)->Some_0.1 <= t.len(),
    decreases t.len() - i, 1int,
{
    let e = value_end(t, i)->Some_0;
    lemma_elems_rest_bounds(t, e);
}

/// Bounds of the rest of an array past one element.
pub proof fn lemma_elems_rest_bounds(t: Seq<u8>, i: int)
    requires
        elems_rest(t, i) is Some,
    ensures
        i < elems_rest(t, i)->Some_0.1 <= t.len(),
    decreases t.len() - i, 2int,
{
    let j = white_end(t, i);
    if i <= j < t.len() && t[j] == COMMA {
        let k = white_end(t, j + 1);
        if j + 1 <= k <= t.len() {
            lemma_elem_val_bounds(t, k);
        }
    }
}


/// A value scanned in one buffer scans to the same end at its shifted
/// position in another buffer that holds the same bytes and continues
/// compatibly.
#[verifier::rlimit(100)]
pub proof fn lemma_value_end_shift(t: Seq<u8>, s: Seq<u8>, d: int, i: int)
    requires
        value_end(t, i) is Some,
        agree(t, s, d, i, value_end(t, i)->Some_0),
        tail_ok(t, s, d, value_end(t, i)->Some_0),
    ensures
        value_end(s, d + i) == Some(d + value_end(t, i)->Some_0),
    decreases t.len() - i, 0int,
{
    let e = value_end(t, i)->Some_0;
    lemma_value_end_bounds(t, i);
    assert forall|j: int| d + i <= j < d + e implies s[j] == t[j - d] by {
        assert(t[j - d] == s[d + (j - d)]);
    }
    assert(s[d + i] == t[i]);
    let b = t[i];
    if b == LBRACE {
        lemma_members_first_bounds(t, i + 1);
        lemma_members_first_shift(t, s, d, i + 1);
    } else if b == LBRACK {
        lemma_elems_first_bounds(t, i + 1);
        lemma_elems_first_shift(t, s, d, i + 1);
    } else if b == QUOTE {
        lemma_str_content_bounds(t, i + 1);
        lemma_str_content_shift(t, s, d, i + 1);
    } else if b == 110 || b == 116 {
        assert(s[d + i + 1] == t[i + 1]);
        assert(s[d + i + 2] == t[i + 2]);
        assert(s[d + i + 3] == t[i + 3]);
    } else if b == 102 {
        assert(s[d + i + 1] == t[i + 1]);
        assert(s[d + i + 2] == t[i + 2]);
        assert(s[d + i + 3] == t[i + 3]);
        assert(s[d + i + 4] == t[i + 4]);
    } else if b == MINUS || is_digit(b) {
        assert(num_class(t, i) is Some);
        lemma_num_shift(t, s, d, i);
        assert(num_token(s, d + i) is Some);
    }
}

/// Object members scanned in one buffer scan to the same members at their
/// shifted position in another buffer holding the same bytes.
#[verifier::rlimit(100)]
pub proof fn lemma_members_first_shift(t: Seq<u8>, s: Seq<u8>, d: int, i: int)
    requires
        members_first(t, i) is Some,
        agree(t, s, d, i, members_first(t, i)->Some_0.1),
        tail_ok(t, s, d, members_first(t, i)->Some_0.1),
    ensures
        members_first(s, d + i) == Some(
            (members_first(t, i)->Some_0.0, d + members_first(t, i)->Some_0.1),
        ),
    decreases t.len() - i, 3int,
{
    let (fs, e) = members_first(t, i)->Some_0;
    lemma_members_first_bounds(t, i);
    assert forall|j: int| d + i <= j < d + e implies s[j] == t[j - d] by {
        assert(t[j - d] == s[d + (j - d)]);
    }
    let j = white_end(t, i);
    lemma_white_end_bounds(t, i);
    if t[j] == RBRACE {
    } else {
        lemma_member_kv_bounds(t, j);
    }
    assert(j < e);
    assert forall|k: int| d + i <= k < d + j implies is_ws(s[k]) by {
        assert(s[k] == t[k - d]);
    }
    assert(s[d + j] == t[j]);
    lemma_white_end_exact(s, d + i, d + j);
    if t[j] == RBRACE {
    } else {
        lemma_member_kv_shift(t, s, d, j);
    }
}

/// One member scanned in one buffer scans the same way shifted.
#[verifier::rlimit(100)]
pub proof fn lemma_member_kv_shift(t: Seq<u8>, s: Seq<u8>, d: int, i: int)
    requires
        member_kv(t, i) is Some,
        agree(t, s, d, i, member_kv(t, i)->Some_0.1),
        tail_ok(t, s, d, member_kv(t, i)->Some_0.1),
    ensures
        member_kv(s, d + i) == Some((member_kv(t, i)->Some_0.0, d + member_kv(t, i)->Some_0.1)),
    decreases t.len() - i, 1int,
{
    let (fs, e) = member_kv(t, i)->Some_0;
    lemma_member_kv_bounds(t, i);
    assert forall|j: int| d + i <= j < d + e implies s[j] == t[j - d] by {
        assert(t[j - d] == s[d + (j - d)]);
    }
    assert(s[d + i] == t[i]);
    let (key, e1) = str_content(t, i + 1)->Some_0;
    lemma_str_content_bounds(t, i + 1);
    lemma_member_colon_bounds(t, e1, key);
    lemma_str_content_shift(t, s, d, i + 1);
    lemma_member_colon_shift(t, s, d, e1, key);
}

/// The colon and remainder of a member scan the same way shifted.
#[verifier::rlimit(100)]
pub proof fn lemma_member_colon_shift(t: Seq<u8>, s: Seq<u8>, d: int, i: int, key: Seq<u8>)
    requires
        member_colon(t, i, key) is Some,
        agree(t, s, d, i, member_colon(t, i, key)->Some_0.1),
        tail_ok(t, s, d, member_colon(t, i, key)->Some_0.1),
    ensures
        member_colon(s, d + i, key) == Some(
            (member_colon(t, i, key)->Some_0.0, d + member_colon(t, i, key)->Some_0.1),
        ),
    decreases t.len() - i, 1int,
{
    let (fs, e) = member_colon(t, i, key)->Some_0;
    lemma_member_colon_bounds(t, i, key);
    assert forall|j: int| d + i <= j < d + e implies s[j] == t[j - d] by {
        assert(t[j - d] == s[d + (j - d)]);
    }
    let j = white_end(t, i);
    lemma_white_end_bounds(t, i);
    lemma_member_val_bounds(t, j + 1, key);
    assert(j < e);
    assert forall|k: int| d + i <= k < d + j implies is_ws(s[k]) by {
        assert(s[k] == t[k - d]);
    }
    assert(s[d + j] == t[j]);
    lemma_white_end_exact(s, d + i, d + j);
    lemma_member_val_shift(t, s, d, j + 1, key);
}

/// The value and remainder of a member scan the same way shifted; the
/// captured raw span is byte-for-byte the same.
#[verifier::rlimit(100)]
#[verifier::spinoff_prover]
pub proof fn lemma_member_val_shift(t: Seq<u8>, s: Seq<u8>, d: int, i: int, key: Seq<u8>)
    requires
        member_val(t, i, key) is Some,
        agree(t, s, d, i, member_val(t, i, key)->Some_0.1),
        tail_ok(t, s, d, member_val(t, i, key)->Some_0.1),
    ensures
        member_val(s, d + i, key) == Some(
            (member_val(t, i, key)->Some_0.0, d + member_val(t, i, key)->Some_0.1),
        ),
    decreases t.len() - i, 1int,
{
    let (fs, oe) = member_val(t, i, key)->Some_0;
    lemma_member_val_bounds(t, i, key);
    assert forall|j: int| d + i <= j < d + oe implies s[j] == t[j - d] by {
        assert(t[j - d] == s[d + (j - d)]);
    }
    let j = white_end(t, i);
    lemma_white_end_bounds(t, i);
    let ve = value_end(t, j)->Some_0;
    lemma_value_end_bounds(t, j);
    lemma_members_rest_bounds(t, ve);
    assert(ve < oe);
    assert(j < ve);
    assert(white_end(s, d + i) == d + j) by {
        assert forall|k: int| d + i <= k < d + j implies is_ws(s[k]) by {
            assert(s[k] == t[k - d]);
            assert(is_ws(t[k - d]));
        }
        assert(s[d + j] == t[j]);
        lemma_white_end_exact(s, d + i, d + j);
    }
    assert(value_end(s, d + j) == Some(d + ve)) by {
        assert(tail_ok(t, s, d, ve)) by {
            assert(s[d + ve] == t[ve]);
        }
        assert(agree(t, s, d, j, ve));
        lemma_value_end_shift(t, s, d, j);
    }
    let rest = members_rest(t, ve)->Some_0.0;
    assert(members_rest(s, d + ve) == Some((rest, d + oe))) by {
        assert(agree(t, s, d, ve, oe));
        lemma_members_rest_shift(t, s, d, ve);
    }
    assert(s.subrange(d + j, d + ve) =~= t.subrange(j, ve));
    assert(fs == seq![(key, t.subrange(j, ve))] + rest);
    assert(member_val(s, d + i, key) == Some(
        (seq![(key, s.subrange(d + j, d + ve))] + rest, d + oe),
    ));
}

/// The remainder of an object past one member scans the same way shifted.
#[verifier::rlimit(100)]
pub proof fn lemma_members_rest_shift(t: Seq<u8>, s: Seq<u8>, d: int, i: int)
    requires
        members_rest(t, i) is Some,
        agree(t, s, d, i, members_rest(t, i)->Some_0.1),
        tail_ok(t, s, d, members_rest(t, i)->Some_0.1),
    ensures
        members_rest(s, d + i) == Some(
            (members_rest(t, i)->Some_0.0, d + members_rest(t, i)->Some_0.1),
        ),
    decreases t.len() - i, 1int,
{
    let (fs, e) = members_rest(t, i)->Some_0;
    lemma_members_rest_bounds(t, i);
    assert forall|j: int| d + i <= j < d + e implies s[j] == t[j - d] by {
        assert(t[j - d] == s[d + (j - d)]);
    }
    let j = white_end(t, i);
    lemma_white_end_bounds(t, i);
    if t[j] == RBRACE {
    } else {
        lemma_member_key_bounds(t, j + 1);
    }
    assert(j < e);
    assert forall|k: int| d + i <= k < d + j implies is_ws(s[k]) by {
        assert(s[k] == t[k - d]);
    }
    assert(s[d + j] == t[j]);
    lemma_white_end_exact(s, d + i, d + j);
    if t[j] == RBRACE {
    } else {
        lemma_member_key_shift(t, s, d, j + 1);
    }
}

/// A member that follows a comma scans the same way shifted.
#[verifier::rlimit(100)]
pub proof fn lemma_member_key_shift(t: Seq<u8>, s: Seq<u8>, d: int, i: int)
    requires
        member_key(t, i) is Some,
        agree(t, s, d, i, member_key(t, i)->Some_0.1),
        tail_ok(t, s, d, member_key(t, i)->Some_0.1),
    ensures
        member_key(s, d + i) == Some(
            (member_key(t, i)->Some_0.0, d + member_key(t, i)->Some_0.1),
        ),
    decreases t.len() - i, 2int,
{
    let (fs, e) = member_key(t, i)->Some_0;
    lemma_member_key_bounds(t, i);
    assert forall|j: int| d + i <= j < d + e implies s[j] == t[j - d] by {
        assert(t[j - d] == s[d + (j - d)]);
    }
    let j = white_end(t, i);
    lemma_white_end_bounds(t, i);
    lemma_member_kv_bounds(t, j);
    assert(j < e);
    assert forall|k: int| d + i <= k < d + j implies is_ws(s[k]) by {
        assert(s[k] == t[k - d]);
    }
    assert(s[d + j] == t[j]);
    lemma_white_end_exact(s, d + i, d + j);
    lemma_member_kv_shift(t, s, d, j);
}

/// Array elements scanned in one buffer scan to the same spans at their
/// shifted position in another buffer holding the same bytes.
#[verifier::rlimit(100)]
pub proof fn lemma_elems_first_shift(t: Seq<u8>, s: Seq<u8>, d: int, i: int)
    requires
        elems_first(t, i) is Some,
        agree(t, s, d, i, elems_first(t, i)->Some_0.1),
        tail_ok(t, s, d, elems_first(t, i)->Some_0.1),
    ensures
        elems_first(s, d + i) == Some(
            (elems_first(t, i)->Some_0.0, d + elems_first(t, i)->Some_0.1),
        ),
    decreases t.len() - i, 3int,
{
    let (items, e) = elems_first(t, i)->Some_0;
    lemma_elems_first_bounds(t, i);
    assert forall|j: int| d + i <= j < d + e implies s[j] == t[j - d] by {
        assert(t[j - d] == s[d + (j - d)]);
    }
    let j = white_end(t, i);
    lemma_white_end_bounds(t, i);
    if t[j] == RBRACK {
    } else {
        lemma_elem_val_bounds(t, j);
    }
    assert(j < e);
    assert forall|k: int| d + i <= k < d + j implies is_ws(s[k]) by {
        assert(s[k] == t[k - d]);
    }
    assert(s[d + j] == t[j]);
    lemma_white_end_exact(s, d + i, d + j);
    if t[j] == RBRACK {
    } else {
        lemma_elem_val_shift(t, s, d, j);
    }
}

/// One array element scans the same way shifted; the captured raw span is
/// byte-for-byte the same.
#[verifier::rlimit(100)]
pub proof fn lemma_elem_val_shift(t: Seq<u8>, s: Seq<u8>, d: int, i: int)
    requires
        elem_val(t, i) is Some,
        agree(t, s, d, i, elem_val(t, i)->Some_0.1),
        tail_ok(t, s, d, elem_val(t, i)->Some_0.1),
    ensures
        elem_val(s, d + i) == Some((elem_val(t, i)->Some_0.0, d + elem_val(t, i)->Some_0.1)),
    decreases t.len() - i, 1int,
{
    let (items, oe) = elem_val(t, i)->Some_0;
    lemma_elem_val_bounds(t, i);
    assert forall|j: int| d + i <= j < d + oe implies s[j] == t[j - d] by {
        assert(t[j - d] == s[d + (j - d)]);
    }
    let ve = value_end(t, i)->Some_0;
    lemma_value_end_bounds(t, i);
    lemma_elems_rest_bounds(t, ve);
    assert(ve < oe);
    assert(tail_ok(t, s, d, ve)) by {
        assert(s[d + ve] == t[ve]);
    }
    lemma_value_end_shift(t, s, d, i);
    lemma_elems_rest_shift(t, s, d, ve);
    assert(s.subrange(d + i, d + ve) =~= t.subrange(i, ve));
}

/// The remainder of an array past one element scans the same way shifted.
#[verifier::rlimit(100)]
pub proof fn lemma_elems_rest_shift(t: Seq<u8>, s: Seq<u8>, d: int, i: int)
    requires
        elems_rest(t, i) is Some,
        agree(t, s, d, i, elems_rest(t, i)->Some_0.1),
        tail_ok(t, s, d, elems_rest(t, i)->Some_0.1),
    ensures
        elems_rest(s, d + i) == Some(
            (elems_rest(t, i)->Some_0.0, d + elems_rest(t, i)->Some_0.1),
        ),
    decreases t.len() - i, 2int,
{
    let (items, e) = elems_rest(t, i)->Some_0;
    lemma_elems_rest_bounds(t, i);
    assert forall|j: int| d + i <= j < d + e implies s[j] == t[j - d] by {
        assert(t[j - d] == s[d + (j - d)]);
    }
    let j = white_end(t, i);
    lemma_white_end_bounds(t, i);
    if t[j] == RBRACK {
    } else {
        lemma_white_end_bounds(t, j + 1);
        lemma_elem_val_bounds(t, white_end(t, j + 1));
    }
    assert(j < e);
    assert forall|k: int| d + i <= k < d + j implies is_ws(s[k]) by {
        assert(s[k] == t[k - d]);
    }
    assert(s[d + j] == t[j]);
    lemma_white_end_exact(s, d + i, d + j);
    if t[j] == RBRACK {
    } else {
        let k = white_end(t, j + 1);
        assert(k < e);
        assert forall|m: int| d + j + 1 <= m < d + k implies is_ws(s[m]) by {
            assert(s[m] == t[m - d]);
        }
        assert(s[d + k] == t[k]);
        lemma_white_end_exact(s, d + j + 1, d + k);
        lemma_elem_val_shift(t, s, d, k);
    }
}

/// Embedding a raw span: a complete value placed in a larger buffer,
/// followed by the end of that buffer or a byte that cannot extend a
/// number token, scans to exactly its own length.
pub proof fn lemma_raw_embed(v: Seq<u8>, s: Seq<u8>, p: int)
    requires
        valid_raw(v),
        0 <= p,
        p + v.len() <= s.len(),
        s.subrange(p, p + v.len() as int) == v,
        p + v.len() == s.len() || num_stopper(s[p + v.len()]),
    ensures
        value_end(s, p) == Some(p + v.len()),
{
    assert forall|j: int| 0 <= j < v.len() implies v[j] == s[p + j] by {
        assert(s.subrange(p, p + v.len() as int)[j] == s[p + j]);
    }
    assert(agree(v, s, p, 0, v.len() as int));
    assert(tail_ok(v, s, p, v.len() as int));
    lemma_value_end_shift(v, s, p, 0);
}


/// A raw span neither is empty nor starts with whitespace.
pub proof fn lemma_valid_raw_first(v: Seq<u8>)
    requires
        valid_raw(v),
    ensures
        v.len() > 0,
        !is_ws(v[0]),
{
    if v.len() == 0 {
        assert(value_end(v, 0) is None);
    }
    if is_ws(v[0]) {
        assert(value_end(v, 0) is None);
    }
}

/// Scanning an emitted raw value and the rest of the emitted object
/// returns the member made of that value and the remaining members.
#[verifier::rlimit(100)]
#[verifier::spinoff_prover]
pub proof fn lemma_obj_val(fields: Seq<(Seq<u8>, Seq<u8>)>, k: int, s: Seq<u8>, m: int, key: Seq<u8>)
    requires
        0 <= k < fields.len(),
        forall|j: int| k <= j < fields.len() ==> valid_raw(#[trigger] fields[j].1),
        0 <= m,
        m + fields[k].1.len() + obj_tail_bytes(fields, k + 1).len() <= s.len(),
        s.subrange(
            m,
            m + fields[k].1.len() + obj_tail_bytes(fields, k + 1).len(),
        ) == fields[k].1 + obj_tail_bytes(fields, k + 1),
    ensures
        member_val(s, m, key) == Some(
            (
                seq![(key, fields[k].1)] + fields.skip(k + 1),
                m + fields[k].1.len() + obj_tail_bytes(fields, k + 1).len(),
            ),
        ),
    decreases fields.len() - k, 0int,
{
    let v = fields[k].1;
    let vl = v.len() as int;
    let w2 = obj_tail_bytes(fields, k + 1);
    let w = v + w2;
    let oe = m + w.len();
    assert forall|j: int| m <= j < oe implies s[j] == w[j - m] by {
        assert(s.subrange(m, oe)[j - m] == s[j]);
    }
    lemma_valid_raw_first(v);
    assert(s[m] == v[0]);
    assert(white_end(s, m) == m);
    assert forall|j: int| 0 <= j < vl implies s.subrange(m, m + vl)[j] == v[j] by {
        assert(s.subrange(m, m + vl)[j] == s[m + j]);
        assert(s[m + j] == w[j]);
    }
    assert(s.subrange(m, m + vl) =~= v);
    let ve = m + vl;
    assert(s[ve] == w2[0]) by {
        assert(w[vl] == w2[0]);
    }
    assert(w2[0] == COMMA || w2[0] == RBRACE);
    lemma_raw_embed(v, s, m);
    assert(value_end(s, m) == Some(ve));
    assert forall|j: int| 0 <= j < w2.len() implies s.subrange(ve, oe)[j] == w2[j] by {
        assert(s.subrange(ve, oe)[j] == s[ve + j]);
        assert(s[ve + j] == w[vl + j]);
    }
    assert(s.subrange(ve, oe) =~= w2);
    lemma_obj_tail(fields, k + 1, s, ve);
    assert(members_rest(s, ve) == Some((fields.skip(k + 1), oe)));
    assert(member_val(s, m, key) == Some(
        (seq![(key, s.subrange(m, ve))] + fields.skip(k + 1), oe),
    ));
}

/// Scanning one emitted `"key": value` member and the rest of the emitted
/// object returns exactly the remaining members.
#[verifier::rlimit(100)]
#[verifier::spinoff_prover]
pub proof fn lemma_obj_kv(fields: Seq<(Seq<u8>, Seq<u8>)>, k: int, s: Seq<u8>, q: int)
    requires
        0 <= k < fields.len(),
        forall|j: int| k <= j < fields.len() ==> valid_raw(#[trigger] fields[j].1),
        0 <= q,
        q + crate::emit::kv_bytes(fields[k].0, fields[k].1).len() + obj_tail_bytes(
            fields,
            k + 1,
        ).len() <= s.len(),
        s.subrange(
            q,
            q + crate::emit::kv_bytes(fields[k].0, fields[k].1).len() + obj_tail_bytes(
                fields,
                k + 1,
            ).len(),
        ) == crate::emit::kv_bytes(fields[k].0, fields[k].1) + obj_tail_bytes(fields, k + 1),
    ensures
        member_kv(s, q) == Some(
            (
                fields.skip(k),
                q + crate::emit::kv_bytes(fields[k].0, fields[k].1).len() + obj_tail_bytes(
                    fields,
                    k + 1,
                ).len(),
            ),
        ),
    decreases fields.len() - k, 1int,
{
    let key = fields[k].0;
    let v = fields[k].1;
    let el = esc_from(key, 0).len() as int;
    let vl = v.len() as int;
    let w2 = obj_tail_bytes(fields, k + 1);
    let w = crate::emit::kv_bytes(key, v) + w2;
    let wl = w.len() as int;
    let oe = q + wl;
    assert(crate::emit::kv_bytes(key, v) == str_bytes_of(key) + seq![COLON] + v);
    assert(str_bytes_of(key) == seq![QUOTE] + esc_from(key, 0) + seq![QUOTE]);
    assert forall|m: int| q <= m < oe implies s[m] == w[m - q] by {
        assert(s.subrange(q, oe)[m - q] == s[m]);
    }
    assert(s[q] == QUOTE);
    // the escaped key and its closing quote
    assert forall|j: int| 0 <= j < el + 1 implies s.subrange(q + 1, q + 2 + el)[j] == (esc_from(
        key,
        0,
    ) + seq![QUOTE])[j] by {
        assert(s.subrange(q + 1, q + 2 + el)[j] == s[q + 1 + j]);
        assert(s[q + 1 + j] == w[1 + j]);
    }
    assert(s.subrange(q + 1, q + 2 + el) =~= esc_from(key, 0) + seq![QUOTE]);
    lemma_str_rt(key, 0, s, q + 1);
    assert(key.skip(0) =~= key);
    assert(str_content(s, q + 1) == Some((key, q + 2 + el)));
    // the colon
    assert(s[q + 2 + el] == COLON);
    assert(white_end(s, q + 2 + el) == q + 2 + el);
    // the raw value span and the rest, handed to the value lemma
    assert forall|j: int| 0 <= j < vl + w2.len() implies s.subrange(q + 3 + el, oe)[j] == (v
        + w2)[j] by {
        assert(s.subrange(q + 3 + el, oe)[j] == s[q + 3 + el + j]);
        assert(s[q + 3 + el + j] == w[3 + el + j]);
    }
    assert(s.subrange(q + 3 + el, oe) =~= v + w2);
    lemma_obj_val(fields, k, s, q + 3 + el, key);
    assert(member_colon(s, q + 2 + el, key) == Some(
        (seq![(key, v)] + fields.skip(k + 1), oe),
    ));
    assert(seq![(fields[k].0, fields[k].1)] + fields.skip(k + 1) =~= fields.skip(k));
}

/// Scanning the emitted members of an object from index `k` on, at the
/// position where they were emitted, returns exactly those members.
#[verifier::rlimit(100)]
#[verifier::spinoff_prover]
pub proof fn lemma_obj_tail(fields: Seq<(Seq<u8>, Seq<u8>)>, k: int, s: Seq<u8>, p: int)
    requires
        0 <= k <= fields.len(),
        forall|j: int| k <= j < fields.len() ==> valid_raw(#[trigger] fields[j].1),
        0 <= p,
        p + obj_tail_bytes(fields, k).len() <= s.len(),
        s.subrange(p, p + obj_tail_bytes(fields, k).len()) == obj_tail_bytes(fields, k),
    ensures
        k == 0 ==> members_first(s, p) == Some((fields, p + obj_tail_bytes(fields, k).len())),
        k > 0 ==> members_rest(s, p) == Some(
            (fields.skip(k), p + obj_tail_bytes(fields, k).len()),
        ),
    decreases fields.len() - k, 2int,
{
    let w = obj_tail_bytes(fields, k);
    let e = p + w.len();
    assert forall|m: int| p <= m < e implies s[m] == w[m - p] by {
        assert(s.subrange(p, e)[m - p] == s[m]);
    }
    if k == fields.len() {
        assert(w == seq![RBRACE]);
        assert(s[p] == RBRACE);
        assert(white_end(s, p) == p);
        if k == 0 {
            assert(fields =~= Seq::<(Seq<u8>, Seq<u8>)>::empty());
        } else {
            assert(fields.skip(k) =~= Seq::<(Seq<u8>, Seq<u8>)>::empty());
        }
    } else {
        let kv = crate::emit::kv_bytes(fields[k].0, fields[k].1);
        let w2 = obj_tail_bytes(fields, k + 1);
        if k == 0 {
            assert(w == kv + w2);
            assert(s[p] == QUOTE) by {
                assert(w[0] == kv[0]);
            }
            assert(white_end(s, p) == p);
            assert forall|j: int| 0 <= j < w.len() implies s.subrange(p, e)[j] == (kv + w2)[j]
                by {}
            lemma_obj_kv(fields, k, s, p);
            assert(fields.skip(0) =~= fields);
        } else {
            assert(w == seq![COMMA] + kv + w2);
            assert(s[p] == COMMA);
            assert(white_end(s, p) == p);
            assert(s[p + 1] == QUOTE) by {
                assert(w[1] == kv[0]);
            }
            assert(white_end(s, p + 1) == p + 1);
            assert forall|j: int| 0 <= j < kv.len() + w2.len() implies s.subrange(p + 1, e)[j]
                == (kv + w2)[j] by {
                assert(s.subrange(p + 1, e)[j] == s[p + 1 + j]);
                assert(s[p + 1 + j] == w[1 + j]);
            }
            assert(s.subrange(p + 1, e) =~= kv + w2);
            lemma_obj_kv(fields, k, s, p + 1);
            assert(member_key(s, p + 1) == Some((fields.skip(k), e)));
        }
    }
}

/// An emitted object is one complete raw span, and scanning its members
/// returns exactly the list it was emitted from.
pub proof fn lemma_obj_bytes_rt(fields: Seq<(Seq<u8>, Seq<u8>)>)
    requires
        forall|j: int| 0 <= j < fields.len() ==> valid_raw(#[trigger] fields[j].1),
    ensures
        valid_raw(obj_bytes_of(fields)),
        members_first(obj_bytes_of(fields), 1) == Some((fields, obj_bytes_of(fields).len() as int)),
{
    let w = obj_bytes_of(fields);
    assert(w == seq![LBRACE] + obj_tail_bytes(fields, 0));
    assert(w[0] == LBRACE);
    assert forall|j: int| 0 <= j < obj_tail_bytes(fields, 0).len() implies w.subrange(
        1,
        w.len() as int,
    )[j] == obj_tail_bytes(fields, 0)[j] by {
        assert(w.subrange(1, w.len() as int)[j] == w[1 + j]);
    }
    assert(w.subrange(1, w.len() as int) =~= obj_tail_bytes(fields, 0));
    lemma_obj_tail(fields, 0, w, 1);
}


/// An emitted string value is one complete raw span and reads back as the
/// same string.
pub proof fn lemma_str_bytes_rt(x: Seq<u8>)
    ensures
        valid_raw(str_bytes_of(x)),
        crate::request::str_from_raw(str_bytes_of(x)) == Some(x),
{
    let w = str_bytes_of(x);
    assert(w == seq![QUOTE] + esc_from(x, 0) + seq![QUOTE]);
    assert(w[0] == QUOTE);
    assert forall|j: int| 0 <= j < esc_from(x, 0).len() + 1 implies w.subrange(
        1,
        w.len() as int,
    )[j] == (esc_from(x, 0) + seq![QUOTE])[j] by {
        assert(w.subrange(1, w.len() as int)[j] == w[1 + j]);
    }
    assert(w.subrange(1, w.len() as int) =~= esc_from(x, 0) + seq![QUOTE]);
    lemma_str_rt(x, 0, w, 1);
    assert(x.skip(0) =~= x);
}

/// An emitted identifier is one complete raw span.
pub proof fn lemma_id_bytes_valid(v: IdV)
    requires
        id_wf(v),
    ensures
        valid_raw(id_bytes_of(v)),
{
    let w = id_bytes_of(v);
    match v {
        IdV::Null => {
            assert(w == seq![110u8, 117u8, 108u8, 108u8]);
        },
        IdV::Str(c) => {
            lemma_str_bytes_rt(c);
        },
        IdV::Int(n) => {
            assert(w.subrange(0, w.len() as int) =~= w);
            if n < 0 {
                lemma_num_int_rt(n, w, 0);
                lemma_dec_of_digits(-n);
                assert(w[0] == MINUS);
            } else {
                assert(w == dec_of(n));
                lemma_num_uint_rt(n, w, 0);
                lemma_dec_of_digits(n);
                assert(is_digit(w[0]));
            }
        },
        IdV::Uint(n) => {
            assert(w.subrange(0, w.len() as int) =~= w);
            lemma_num_uint_rt(n, w, 0);
            lemma_dec_of_digits(n);
            assert(is_digit(w[0]));
        },
        IdV::Float(l) => {
            assert(num_class(l, 0) == Some((NumV::Float, l.len() as int)));
            let (neg, ds, de, te) = num_token(l, 0)->Some_0;
            assert(l[0] == MINUS || is_digit(l[0]));
        },
    }
}

/// An emitted integer is one complete raw span and reads back as the same
/// signed value.
pub proof fn lemma_int_bytes_rt(n: int)
    requires
        -0x8000_0000_0000_0000 <= n < 0x8000_0000_0000_0000,
    ensures
        valid_raw(int_bytes_of(n)),
        crate::response::int_from_raw(int_bytes_of(n)) == Some(n),
{
    let w = int_bytes_of(n);
    assert(w.subrange(0, w.len() as int) =~= w);
    if n < 0 {
        lemma_num_int_rt(n, w, 0);
        lemma_dec_of_digits(-n);
        assert(w[0] == MINUS);
    } else {
        assert(w == dec_of(n));
        lemma_num_uint_rt(n, w, 0);
        lemma_dec_of_digits(n);
        assert(is_digit(w[0]));
    }
}

/// The request and response field keys are pairwise distinct.
pub proof fn lemma_keys_distinct()
    ensures
        crate::request::key_jsonrpc() != crate::request::key_method(),
        crate::request::key_jsonrpc() != crate::request::key_params(),
        crate::request::key_jsonrpc() != crate::request::key_id(),
        crate::request::key_method() != crate::request::key_params(),
        crate::request::key_method() != crate::request::key_id(),
        crate::request::key_params() != crate::request::key_id(),
        crate::request::key_jsonrpc() != crate::response::key_result(),
        crate::request::key_jsonrpc() != crate::response::key_error(),
        crate::response::key_result() != crate::response::key_error(),
        crate::response::key_result() != crate::request::key_id(),
        crate::response::key_error() != crate::request::key_id(),
        crate::response::key_code() != crate::response::key_message(),
        crate::response::key_code() != crate::response::key_data(),
        crate::response::key_message() != crate::response::key_data(),
{
    assert(crate::request::key_method()[0] != crate::request::key_params()[0]);
    assert(crate::response::key_code()[0] != crate::response::key_data()[0]);
}


/// The members a request lays out read back as exactly that request.
#[verifier::rlimit(100)]
#[verifier::spinoff_prover]
pub proof fn lemma_req_fields_rt(rv: RequestV)
    requires
        req_wf(rv),
        rv.id matches Some(idv) ==> !(idv matches IdV::Int(n) && n >= 0),
    ensures
        forall|j: int| 0 <= j < req_fields(rv).len() ==> valid_raw(#[trigger] req_fields(rv)[j].1),
        req_of_fields(req_fields(rv)) == Ok::<RequestV, DecodeErrorV>(rv),
{
    reveal(req_of_fields);
    reveal_with_fuel(find_from, 6);
    reveal_with_fuel(count_from, 6);
    let fields = req_fields(rv);
    lemma_keys_distinct();
    lemma_str_bytes_rt(ver_bytes());
    lemma_str_bytes_rt(rv.method);
    let pl: int = match rv.params {
        Some(_) => 1,
        None => 0,
    };
    let il: int = match rv.id {
        Some(_) => 1,
        None => 0,
    };
    assert(fields.len() == 2 + pl + il);
    assert(fields[0] == (key_jsonrpc(), str_bytes_of(ver_bytes())));
    assert(fields[1] == (key_method(), str_bytes_of(rv.method)));
    match rv.params {
        Some(p) => {
            assert(fields[2] == (key_params(), p));
        },
        None => {},
    }
    match rv.id {
        Some(idv) => {
            lemma_id_bytes_valid(idv);
            lemma_id_round_trip(idv);
            assert(fields[2 + pl] == (key_id(), id_bytes_of(idv)));
        },
        None => {},
    }
    assert forall|j: int| 0 <= j < fields.len() implies valid_raw(#[trigger] fields[j].1) by {
        match rv.params {
            Some(p) => {
                if j == 2 {
                    assert(valid_raw(p));
                }
            },
            None => {},
        }
    }
    // the version member
    assert(find_from(fields, key_jsonrpc(), 0) == Some(str_bytes_of(ver_bytes())));
    assert(count_from(fields, key_jsonrpc(), fields.len() as int) == 0);
    assert(count_from(fields, key_jsonrpc(), 0) == 1);
    // the method member
    assert(find_from(fields, key_method(), 0) == Some(str_bytes_of(rv.method)));
    assert(count_from(fields, key_method(), 0) == 1);
    // the params member
    match rv.params {
        Some(p) => {
            assert(find_from(fields, key_params(), 0) == Some(p));
            assert(count_from(fields, key_params(), 0) == 1);
        },
        None => {
            assert(find_from(fields, key_params(), 0) is None);
        },
    }
    // the id member
    match rv.id {
        Some(idv) => {
            assert(find_from(fields, key_id(), 0) == Some(id_bytes_of(idv)));
            assert(count_from(fields, key_id(), 0) == 1);
        },
        None => {
            assert(find_from(fields, key_id(), 0) is None);
        },
    }
    assert(req_of_fields(fields) == Ok::<RequestV, DecodeErrorV>(
        RequestV { method: rv.method, params: rv.params, id: rv.id },
    ));
}

/// Round trip of the request envelope: encoding any well-formed request and
/// decoding the result yields the request back.  In particular a
/// notification (no identifier) decodes with no identifier — never with a
/// null one — and a request whose identifier is the explicit null decodes
/// with that null identifier.  The one excluded corner is a non-negative
/// `Int` identifier, whose encoded form reads back as `Uint` of the same
/// value.
#[verifier::rlimit(100)]
#[verifier::spinoff_prover]
pub proof fn lemma_request_round_trip(rv: RequestV)
    requires
        req_wf(rv),
        rv.id matches Some(idv) ==> !(idv matches IdV::Int(n) && n >= 0),
    ensures
        deserialize_request_spec(req_bytes_of(rv)) == Ok::<RequestV, DecodeErrorV>(rv),
{
    reveal(deserialize_request_spec);
    lemma_req_fields_rt(rv);
    let fields = req_fields(rv);
    let s = req_bytes_of(rv);
    lemma_obj_bytes_rt(fields);
    assert(s == obj_bytes_of(fields));
    assert(s[0] == LBRACE);
    assert(white_end(s, 0) == 0);
    assert(members_first(s, 1) == Some((fields, s.len() as int)));
    assert(white_end(s, s.len() as int) == s.len() as int);
}


/// The members an error object lays out read back as exactly that error.
#[verifier::rlimit(100)]
#[verifier::spinoff_prover]
pub proof fn lemma_err_fields_rt(ev: ErrorV)
    requires
        err_wf(ev),
    ensures
        forall|j: int| 0 <= j < err_fields(ev).len() ==> valid_raw(#[trigger] err_fields(ev)[j].1),
        valid_raw(err_bytes_of(ev)),
        err_of_raw(err_bytes_of(ev)) == Ok::<ErrorV, DecodeErrorV>(ev),
{
    reveal(err_of_raw);
    reveal_with_fuel(find_from, 5);
    reveal_with_fuel(count_from, 5);
    let fields = err_fields(ev);
    lemma_keys_distinct();
    lemma_int_bytes_rt(ev.code);
    lemma_str_bytes_rt(ev.message);
    let dl: int = match ev.data {
        Some(_) => 1,
        None => 0,
    };
    assert(fields.len() == 2 + dl);
    assert(fields[0] == (key_code(), int_bytes_of(ev.code)));
    assert(fields[1] == (key_message(), str_bytes_of(ev.message)));
    match ev.data {
        Some(dv) => {
            assert(fields[2] == (key_data(), dv));
        },
        None => {},
    }
    assert forall|j: int| 0 <= j < fields.len() implies valid_raw(#[trigger] fields[j].1) by {
        match ev.data {
            Some(dv) => {
                if j == 2 {
                    assert(valid_raw(dv));
                }
            },
            None => {},
        }
    }
    lemma_obj_bytes_rt(fields);
    let w = err_bytes_of(ev);
    assert(w == obj_bytes_of(fields));
    assert(w[0] == LBRACE);
    assert(members_first(w, 1) == Some((fields, w.len() as int)));
    assert(find_from(fields, key_code(), 0) == Some(int_bytes_of(ev.code)));
    assert(count_from(fields, key_code(), 0) == 1);
    assert(find_from(fields, key_message(), 0) == Some(str_bytes_of(ev.message)));
    assert(count_from(fields, key_message(), 0) == 1);
    match ev.data {
        Some(dv) => {
            assert(find_from(fields, key_data(), 0) == Some(dv));
            assert(count_from(fields, key_data(), 0) == 1);
        },
        None => {
            assert(find_from(fields, key_data(), 0) is None);
        },
    }
    assert(err_of_fields(fields) == Ok::<ErrorV, DecodeErrorV>(
        ErrorV { code: ev.code, message: ev.message, data: ev.data },
    ));
}

/// The members a response lays out read back as exactly that response.
#[verifier::rlimit(100)]
#[verifier::spinoff_prover]
pub proof fn lemma_resp_fields_rt(rv: ResponseV)
    requires
        resp_wf(rv),
        !(rv.id matches IdV::Int(n) && n >= 0),
    ensures
        forall|j: int| 0 <= j < resp_fields(rv).len() ==> valid_raw(
            #[trigger] resp_fields(rv)[j].1,
        ),
        resp_of_fields(resp_fields(rv)) == Ok::<ResponseV, DecodeErrorV>(rv),
{
    reveal(resp_of_fields);
    reveal_with_fuel(find_from, 4);
    reveal_with_fuel(count_from, 4);
    let fields = resp_fields(rv);
    lemma_keys_distinct();
    lemma_str_bytes_rt(ver_bytes());
    lemma_id_bytes_valid(rv.id);
    lemma_id_round_trip(rv.id);
    assert(fields.len() == 3);
    assert(fields[0] == (key_jsonrpc(), str_bytes_of(ver_bytes())));
    assert(fields[2] == (key_id(), id_bytes_of(rv.id)));
    match rv.result {
        Ok(r) => {
            assert(fields[1] == (key_result(), r));
            assert(valid_raw(r));
        },
        Err(e) => {
            lemma_err_fields_rt(e);
            assert(fields[1] == (key_error(), err_bytes_of(e)));
        },
    }
    assert forall|j: int| 0 <= j < fields.len() implies valid_raw(#[trigger] fields[j].1) by {
        match rv.result {
            Ok(r) => {},
            Err(e) => {},
        }
    }
    assert(find_from(fields, key_jsonrpc(), 0) == Some(str_bytes_of(ver_bytes())));
    assert(count_from(fields, key_jsonrpc(), 0) == 1);
    assert(find_from(fields, key_id(), 0) == Some(id_bytes_of(rv.id)));
    assert(count_from(fields, key_id(), 0) == 1);
    match rv.result {
        Ok(r) => {
            assert(find_from(fields, key_result(), 0) == Some(r));
            assert(count_from(fields, key_result(), 0) == 1);
            assert(find_from(fields, key_error(), 0) is None);
        },
        Err(e) => {
            assert(find_from(fields, key_error(), 0) == Some(err_bytes_of(e)));
            assert(count_from(fields, key_error(), 0) == 1);
            assert(find_from(fields, key_result(), 0) is None);
        },
    }
    assert(resp_of_fields(fields) == Ok::<ResponseV, DecodeErrorV>(
        ResponseV { result: rv.result, id: rv.id },
    ));
}

/// Round trip of the response envelope: encoding any well-formed response
/// and decoding the result yields the exact outcome variant — success or
/// failure, with the same payload — and the identical identifier.  The one
/// excluded corner is a non-negative `Int` identifier, whose encoded form
/// reads back as `Uint` of the same value.
#[verifier::rlimit(100)]
#[verifier::spinoff_prover]
pub proof fn lemma_response_round_trip(rv: ResponseV)
    requires
        resp_wf(rv),
        !(rv.id matches IdV::Int(n) && n >= 0),
    ensures
        deserialize_response_spec(resp_bytes_of(rv)) == Ok::<ResponseV, DecodeErrorV>(rv),
{
    reveal(deserialize_response_spec);
    lemma_resp_fields_rt(rv);
    let fields = resp_fields(rv);
    let s = resp_bytes_of(rv);
    lemma_obj_bytes_rt(fields);
    assert(s == obj_bytes_of(fields));
    assert(s[0] == LBRACE);
    assert(white_end(s, 0) == 0);
    assert(members_first(s, 1) == Some((fields, s.len() as int)));
    assert(white_end(s, s.len() as int) == s.len() as int);
}

} // verus!
