//! Encoder side of the codec: specification functions that describe the
//! exact bytes each value serializes to, and executable emitters proved to
//! produce them.

use vstd::prelude::*;

use crate::lex::{BACKSLASH, COLON, COMMA, DIGIT0, LBRACE, MINUS, QUOTE, RBRACE};

verus! {

/// Lowercase hexadecimal digit for a value below 16.
pub open spec fn hex_digit_of(d: int) -> u8 {
    if d < 10 {
        (DIGIT0 + d) as u8
    } else {
        (87 + d) as u8  // 'a' - 10
    }
}

/// The bytes one content byte serializes to inside a JSON string literal:
/// quote and backslash are escaped, control bytes use their short escapes or
/// the `\u00XX` form, everything else passes through.
pub open spec fn esc_byte(b: u8) -> Seq<u8> {
    if b == QUOTE {
        seq![BACKSLASH, QUOTE]
    } else if b == BACKSLASH {
        seq![BACKSLASH, BACKSLASH]
    } else if b == 8 {
        seq![BACKSLASH, 98]  // \b
    } else if b == 9 {
        seq![BACKSLASH, 116]  // \t
    } else if b == 10 {
        seq![BACKSLASH, 110]  // \n
    } else if b == 12 {
        seq![BACKSLASH, 102]  // \f
    } else if b == 13 {
        seq![BACKSLASH, 114]  // \r
    } else if b < 0x20 {
        seq![BACKSLASH, 117, DIGIT0, DIGIT0, hex_digit_of(b as int / 16), hex_digit_of(b as int % 16)]
    } else {
        seq![b]
    }
}

/// Escaped form of the content bytes from index `k` on.
pub open spec fn esc_from(s: Seq<u8>, k: int) -> Seq<u8>
    decreases s.len() - k,
{
    if 0 <= k < s.len() {
        esc_byte(s[k]) + esc_from(s, k + 1)
    } else {
        Seq::empty()
    }
}

/// The bytes a string value serializes to: quoted, escaped content.
pub open spec fn str_bytes_of(s: Seq<u8>) -> Seq<u8> {
    seq![QUOTE] + esc_from(s, 0) + seq![QUOTE]
}

/// Decimal digits of a non-negative integer.
pub open spec fn dec_of(n: int) -> Seq<u8>
    decreases n,
{
    if n < 10 {
        seq![(DIGIT0 + n) as u8]
    } else {
        dec_of(n / 10) + seq![(DIGIT0 + n % 10) as u8]
    }
}

/// The bytes a signed integer serializes to.
pub open spec fn int_bytes_of(n: int) -> Seq<u8> {
    if n < 0 {
        seq![MINUS] + dec_of(-n)
    } else {
        dec_of(n)
    }
}

/// The bytes one `"key": value` member serializes to; the value is a raw
/// span emitted verbatim.
pub open spec fn kv_bytes(k: Seq<u8>, v: Seq<u8>) -> Seq<u8> {
    str_bytes_of(k) + seq![COLON] + v
}

/// The members from index `k` on, with separating commas, and the closing
/// brace.
pub open spec fn obj_tail_bytes(fs: Seq<(Seq<u8>, Seq<u8>)>, k: int) -> Seq<u8>
    decreases fs.len() - k,
{
    if 0 <= k < fs.len() {
        (if k > 0 {
            seq![COMMA]
        } else {
            Seq::empty()
        }) + kv_bytes(fs[k].0, fs[k].1) + obj_tail_bytes(fs, k + 1)
    } else {
        seq![RBRACE]
    }
}

/// The bytes an object with the given members serializes to.
pub open spec fn obj_bytes_of(fs: Seq<(Seq<u8>, Seq<u8>)>) -> Seq<u8> {
    seq![LBRACE] + obj_tail_bytes(fs, 0)
}

/// Appends [`esc_byte`]`(b)` to `out`.
pub fn push_esc_byte(out: &mut Vec<u8>, b: u8)
    ensures
        final(out)@ == old(out)@ + esc_byte(b),
{
    if b == QUOTE {
        out.push(BACKSLASH);
        out.push(QUOTE);
        assert(out@ =~= old(out)@ + esc_byte(b));
    } else if b == BACKSLASH {
        out.push(BACKSLASH);
        out.push(BACKSLASH);
        assert(out@ =~= old(out)@ + esc_byte(b));
    } else if b == 8 {
        out.push(BACKSLASH);
        out.push(98);
        assert(out@ =~= old(out)@ + esc_byte(b));
    } else if b == 9 {
        out.push(BACKSLASH);
        out.push(116);
        assert(out@ =~= old(out)@ + esc_byte(b));
    } else if b == 10 {
        out.push(BACKSLASH);
        out.push(110);
        assert(out@ =~= old(out)@ + esc_byte(b));
    } else if b == 12 {
        out.push(BACKSLASH);
        out.push(102);
        assert(out@ =~= old(out)@ + esc_byte(b));
    } else if b == 13 {
        out.push(BACKSLASH);
        out.push(114);
        assert(out@ =~= old(out)@ + esc_byte(b));
    } else if b < 0x20 {
        out.push(BACKSLASH);
        out.push(117);
        out.push(DIGIT0);
        out.push(DIGIT0);
        let hi = b / 16;
        let lo = b % 16;
        out.push(if hi < 10 {
            DIGIT0 + hi
        } else {
            87 + hi
        });
        out.push(if lo < 10 {
            DIGIT0 + lo
        } else {
            87 + lo
        });
        assert(out@ =~= old(out)@ + esc_byte(b));
    } else {
        out.push(b);
        assert(out@ =~= old(out)@ + esc_byte(b));
    }
}

/// Appends the escaped content bytes of `s` from index `k` on.
pub fn push_esc_from(out: &mut Vec<u8>, s: &[u8], k: usize)
    requires
        k <= s@.len(),
    ensures
        final(out)@ == old(out)@ + esc_from(s@, k as int),
    decreases s@.len() - k,
{
    if k < s.len() {
        push_esc_byte(out, s[k]);
        push_esc_from(out, s, k + 1);
        proof {
            assert(out@ =~= old(out)@ + (esc_byte(s@[k as int]) + esc_from(s@, k as int + 1)));
        }
    } else {
        assert(out@ =~= old(out)@ + Seq::<u8>::empty());
    }
}

/// Appends [`str_bytes_of`]`(s@)` to `out`.
pub fn push_str_bytes(out: &mut Vec<u8>, s: &[u8])
    ensures
        final(out)@ == old(out)@ + str_bytes_of(s@),
{
    out.push(QUOTE);
    push_esc_from(out, s, 0);
    out.push(QUOTE);
    proof {
        assert(out@ =~= old(out)@ + (seq![QUOTE] + esc_from(s@, 0) + seq![QUOTE]));
    }
}

/// Appends [`dec_of`]`(n)` to `out`.
pub fn push_dec_u64(out: &mut Vec<u8>, n: u64)
    ensures
        final(out)@ == old(out)@ + dec_of(n as int),
    decreases n,
{
    if n < 10 {
        out.push(DIGIT0 + n as u8);
        assert(out@ =~= old(out)@ + dec_of(n as int));
    } else {
        push_dec_u64(out, n / 10);
        out.push(DIGIT0 + (n % 10) as u8);
        assert(out@ =~= old(out)@ + (dec_of(n as int / 10) + seq![(DIGIT0 + n as int % 10) as u8]));
    }
}

/// Appends [`int_bytes_of`]`(n)` to `out`.
pub fn push_dec_i64(out: &mut Vec<u8>, n: i64)
    ensures
        final(out)@ == old(out)@ + int_bytes_of(n as int),
{
    if n < 0 {
        let mag: u64 = if n == i64::MIN {
            0x8000_0000_0000_0000u64
        } else {
            (-n) as u64
        };
        out.push(MINUS);
        push_dec_u64(out, mag);
        proof {
            assert(out@ =~= old(out)@ + (seq![MINUS] + dec_of(mag as int)));
        }
    } else {
        push_dec_u64(out, n as u64);
    }
}

/// Appends the members of `fields` from index `k` on, plus the closing
/// brace.
pub fn push_obj_tail(out: &mut Vec<u8>, fields: &Vec<(Vec<u8>, Vec<u8>)>, k: usize)
    requires
        k <= fields@.len(),
    ensures
        final(out)@ == old(out)@ + obj_tail_bytes(crate::raw::fields_view(fields@), k as int),
    decreases fields@.len() - k,
{
    let ghost fs = crate::raw::fields_view(fields@);
    if k < fields.len() {
        if k > 0 {
            out.push(COMMA);
        }
        push_str_bytes(out, fields[k].0.as_slice());
        out.push(COLON);
        push_span(out, fields[k].1.as_slice());
        push_obj_tail(out, fields, k + 1);
        proof {
            let sep: Seq<u8> = if k > 0 {
                seq![COMMA]
            } else {
                Seq::empty()
            };
            assert(out@ =~= old(out)@ + (sep + kv_bytes(fs[k as int].0, fs[k as int].1)
                + obj_tail_bytes(fs, k as int + 1)));
        }
    } else {
        out.push(RBRACE);
        assert(out@ =~= old(out)@ + seq![RBRACE]);
    }
}

/// Appends an entire object built from `fields`.
pub fn push_obj(out: &mut Vec<u8>, fields: &Vec<(Vec<u8>, Vec<u8>)>)
    ensures
        final(out)@ == old(out)@ + obj_bytes_of(crate::raw::fields_view(fields@)),
{
    out.push(LBRACE);
    push_obj_tail(out, fields, 0);
    proof {
        assert(out@ =~= old(out)@ + (seq![LBRACE] + obj_tail_bytes(
            crate::raw::fields_view(fields@),
            0,
        )));
    }
}

/// Appends the bytes of `v` verbatim.
pub fn push_span(out: &mut Vec<u8>, v: &[u8])
    ensures
        final(out)@ == old(out)@ + v@,
{
    let mut k: usize = 0;
    while k < v.len()
        invariant
            k <= v@.len(),
            out@ == old(out)@ + v@.subrange(0, k as int),
        decreases v@.len() - k,
    {
        out.push(v[k]);
        proof {
            assert(out@ =~= old(out)@ + v@.subrange(0, k as int + 1));
        }
        k = k + 1;
    }
    proof {
        assert(v@.subrange(0, v@.len() as int) =~= v@);
    }
}

} // verus!
