//! Byte-level lexical layer of the codec: whitespace, JSON string literals
//! (with escape processing) and the bytes the token grammar is built from.
//!
//! Every executable scanner in this module mirrors a specification function
//! and is proved to return exactly what that function describes.

use vstd::prelude::*;

verus! {

/// ASCII `"`.
pub const QUOTE: u8 = 34;

/// ASCII `\`.
pub const BACKSLASH: u8 = 92;

/// ASCII `/`.
pub const SLASH: u8 = 47;

/// ASCII `{`.
pub const LBRACE: u8 = 123;

/// ASCII `}`.
pub const RBRACE: u8 = 125;

/// ASCII `[`.
pub const LBRACK: u8 = 91;

/// ASCII `]`.
pub const RBRACK: u8 = 93;

/// ASCII `,`.
pub const COMMA: u8 = 44;

/// ASCII `:`.
pub const COLON: u8 = 58;

/// ASCII `-`.
pub const MINUS: u8 = 45;

/// ASCII `+`.
pub const PLUS: u8 = 43;

/// ASCII `.`.
pub const DOT: u8 = 46;

/// ASCII `e`.
pub const LOWER_E: u8 = 101;

/// ASCII `E`.
pub const UPPER_E: u8 = 69;

/// ASCII `0`.
pub const DIGIT0: u8 = 48;

/// ASCII `9`.
pub const DIGIT9: u8 = 57;

/// True for the four whitespace bytes JSON allows between tokens.
pub open spec fn is_ws(b: u8) -> bool {
    b == 32 || b == 9 || b == 10 || b == 13
}

/// True for an ASCII decimal digit.
pub open spec fn is_digit(b: u8) -> bool {
    DIGIT0 <= b && b <= DIGIT9
}

/// Value of a hexadecimal digit, if the byte is one.
pub open spec fn hex_val(b: u8) -> Option<int> {
    if DIGIT0 <= b && b <= DIGIT9 {
        Some((b - DIGIT0) as int)
    } else if 97 <= b && b <= 102 {  // 'a' ..= 'f'
        Some((b - 97 + 10) as int)
    } else if 65 <= b && b <= 70 {  // 'A' ..= 'F'
        Some((b - 65 + 10) as int)
    } else {
        None
    }
}

/// First index at or after `i` holding a non-whitespace byte (or the length).
pub open spec fn white_end(s: Seq<u8>, i: int) -> int
    decreases s.len() - i,
{
    if 0 <= i < s.len() && is_ws(s[i]) {
        white_end(s, i + 1)
    } else {
        i
    }
}

pub proof fn lemma_white_end_bounds(s: Seq<u8>, i: int)
    requires
        0 <= i <= s.len(),
    ensures
        i <= white_end(s, i) <= s.len(),
        white_end(s, i) < s.len() ==> !is_ws(s[white_end(s, i)]),
        forall|k: int| i <= k < white_end(s, i) ==> is_ws(s[k]),
    decreases s.len() - i,
{
    if i < s.len() && is_ws(s[i]) {
        lemma_white_end_bounds(s, i + 1);
    }
}

/// First index at or after `i` holding a non-digit byte (or the length).
pub open spec fn digits_end(s: Seq<u8>, i: int) -> int
    decreases s.len() - i,
{
    if 0 <= i < s.len() && is_digit(s[i]) {
        digits_end(s, i + 1)
    } else {
        i
    }
}

pub proof fn lemma_digits_end_bounds(s: Seq<u8>, i: int)
    requires
        0 <= i <= s.len(),
    ensures
        i <= digits_end(s, i) <= s.len(),
        digits_end(s, i) < s.len() ==> !is_digit(s[digits_end(s, i)]),
        forall|k: int| i <= k < digits_end(s, i) ==> is_digit(s[k]),
    decreases s.len() - i,
{
    if i < s.len() && is_digit(s[i]) {
        lemma_digits_end_bounds(s, i + 1);
    }
}

/// Byte-wise equality of two slices.
pub fn bytes_eq(a: &[u8], b: &[u8]) -> (r: bool)
    ensures
        r == (a@ == b@),
{
    if a.len() != b.len() {
        proof {
            assert(a@.len() != b@.len());
        }
        return false;
    }
    let mut k: usize = 0;
    while k < a.len()
        invariant
            k <= a@.len(),
            a@.len() == b@.len(),
            forall|j: int| 0 <= j < k ==> a@[j] == b@[j],
        decreases a@.len() - k,
    {
        if a[k] != b[k] {
            return false;
        }
        k = k + 1;
    }
    proof {
        assert(a@ =~= b@);
    }
    true
}

/// Executable twin of [`white_end`].
pub fn skip_white(s: &[u8], i: usize) -> (r: usize)
    requires
        i <= s@.len(),
    ensures
        r == white_end(s@, i as int),
        i <= r <= s@.len(),
    decreases s@.len() - i,
{
    proof {
        lemma_white_end_bounds(s@, i as int);
    }
    if i < s.len() && (s[i] == 32 || s[i] == 9 || s[i] == 10 || s[i] == 13) {
        skip_white(s, i + 1)
    } else {
        i
    }
}

/// Executable twin of [`digits_end`].
pub fn skip_digits(s: &[u8], i: usize) -> (r: usize)
    requires
        i <= s@.len(),
    ensures
        r == digits_end(s@, i as int),
        i <= r <= s@.len(),
    decreases s@.len() - i,
{
    proof {
        lemma_digits_end_bounds(s@, i as int);
    }
    if i < s.len() && DIGIT0 <= s[i] && s[i] <= DIGIT9 {
        skip_digits(s, i + 1)
    } else {
        i
    }
}

/// UTF-8 encoding of a Unicode scalar value, written arithmetically.
pub open spec fn utf8_enc(cp: int) -> Seq<u8> {
    if cp < 0x80 {
        seq![cp as u8]
    } else if cp < 0x800 {
        seq![(0xC0 + cp / 0x40) as u8, (0x80 + cp % 0x40) as u8]
    } else if cp < 0x10000 {
        seq![
            (0xE0 + cp / 0x1000) as u8,
            (0x80 + (cp / 0x40) % 0x40) as u8,
            (0x80 + cp % 0x40) as u8,
        ]
    } else {
        seq![
            (0xF0 + cp / 0x40000) as u8,
            (0x80 + (cp / 0x1000) % 0x40) as u8,
            (0x80 + (cp / 0x40) % 0x40) as u8,
            (0x80 + cp % 0x40) as u8,
        ]
    }
}

/// Executable twin of [`utf8_enc`]: appends the encoding of `cp` to `out`.
pub fn push_utf8(out: &mut Vec<u8>, cp: u32)
    requires
        cp <= 0x10FFFF,
    ensures
        final(out)@ == old(out)@ + utf8_enc(cp as int),
{
    if cp < 0x80 {
        out.push(cp as u8);
        assert(out@ =~= old(out)@ + utf8_enc(cp as int));
    } else if cp < 0x800 {
        out.push((0xC0 + cp / 0x40) as u8);
        out.push((0x80 + cp % 0x40) as u8);
        assert(out@ =~= old(out)@ + utf8_enc(cp as int));
    } else if cp < 0x10000 {
        out.push((0xE0 + cp / 0x1000) as u8);
        out.push((0x80 + (cp / 0x40) % 0x40) as u8);
        out.push((0x80 + cp % 0x40) as u8);
        assert(out@ =~= old(out)@ + utf8_enc(cp as int));
    } else {
        out.push((0xF0 + cp / 0x40000) as u8);
        out.push((0x80 + (cp / 0x1000) % 0x40) as u8);
        out.push((0x80 + (cp / 0x40) % 0x40) as u8);
        out.push((0x80 + cp % 0x40) as u8);
        assert(out@ =~= old(out)@ + utf8_enc(cp as int));
    }
}

/// Four hexadecimal digits starting at `i`, combined into a code unit.
pub open spec fn hex4(s: Seq<u8>, i: int) -> Option<int> {
    if 0 <= i && i + 4 <= s.len() {
        match (hex_val(s[i]), hex_val(s[i + 1]), hex_val(s[i + 2]), hex_val(s[i + 3])) {
            (Some(a), Some(b), Some(c), Some(d)) => Some(a * 0x1000 + b * 0x100 + c * 0x10 + d),
            _ => None,
        }
    } else {
        None
    }
}

/// Executable twin of [`hex_val`].
pub fn hex_digit(b: u8) -> (r: Option<u32>)
    ensures
        match r {
            Some(v) => hex_val(b) == Some(v as int) && v < 16,
            None => hex_val(b) is None,
        },
{
    if DIGIT0 <= b && b <= DIGIT9 {
        Some((b - DIGIT0) as u32)
    } else if 97 <= b && b <= 102 {
        Some((b - 97) as u32 + 10)
    } else if 65 <= b && b <= 70 {
        Some((b - 65) as u32 + 10)
    } else {
        None
    }
}

/// Executable twin of [`hex4`].
pub fn read_hex4(s: &[u8], i: usize) -> (r: Option<u32>)
    ensures
        match r {
            Some(v) => hex4(s@, i as int) == Some(v as int) && v < 0x10000,
            None => hex4(s@, i as int) is None,
        },
{
    if s.len() >= 4 && i <= s.len() - 4 {
        match (hex_digit(s[i]), hex_digit(s[i + 1]), hex_digit(s[i + 2]), hex_digit(s[i + 3])) {
            (Some(a), Some(b), Some(c), Some(d)) => Some(a * 0x1000 + b * 0x100 + c * 0x10 + d),
            _ => None,
        }
    } else {
        None
    }
}

/// Decoded form of one escape sequence: the bytes it stands for and the index
/// just after it.  `i` points at the byte after the backslash.
pub open spec fn esc_decode(s: Seq<u8>, i: int) -> Option<(Seq<u8>, int)> {
    if 0 <= i < s.len() {
        let b = s[i];
        if b == QUOTE {
            Some((seq![QUOTE], i + 1))
        } else if b == BACKSLASH {
            Some((seq![BACKSLASH], i + 1))
        } else if b == SLASH {
            Some((seq![SLASH], i + 1))
        } else if b == 98 {  // 'b'
            Some((seq![8u8], i + 1))
        } else if b == 102 {  // 'f'
            Some((seq![12u8], i + 1))
        } else if b == 110 {  // 'n'
            Some((seq![10u8], i + 1))
        } else if b == 114 {  // 'r'
            Some((seq![13u8], i + 1))
        } else if b == 116 {  // 't'
            Some((seq![9u8], i + 1))
        } else if b == 117 {  // 'u'
            match hex4(s, i + 1) {
                Some(cp) => {
                    if 0xD800 <= cp < 0xDC00 {
                        // High surrogate: a low surrogate escape must follow.
                        if i + 7 <= s.len() && s[i + 5] == BACKSLASH && s[i + 6] == 117 {
                            match hex4(s, i + 7) {
                                Some(lo) => {
                                    if 0xDC00 <= lo < 0xE000 {
                                        Some(
                                            (
                                                utf8_enc(
                                                    0x10000 + (cp - 0xD800) * 0x400 + (lo - 0xDC00),
                                                ),
                                                i + 11,
                                            ),
                                        )
                                    } else {
                                        None
                                    }
                                },
                                None => None,
                            }
                        } else {
                            None
                        }
                    } else if 0xDC00 <= cp < 0xE000 {
                        None
                    } else {
                        Some((utf8_enc(cp), i + 5))
                    }
                },
                None => None,
            }
        } else {
            None
        }
    } else {
        None
    }
}

/// Executable twin of [`esc_decode`]: appends the decoded bytes to `out` and
/// returns the index just after the escape sequence.
pub fn read_escape(s: &[u8], i: usize, out: &mut Vec<u8>) -> (r: Option<usize>)
    ensures
        match r {
            Some(e) => {
                &&& esc_decode(s@, i as int) matches Some((bs, se))
                &&& final(out)@ == old(out)@ + bs
                &&& e as int == se
                &&& i < e <= s@.len()
            },
            None => esc_decode(s@, i as int) is None && final(out)@ == old(out)@,
        },
{
    if i >= s.len() {
        return None;
    }
    let b = s[i];
    if b == QUOTE || b == BACKSLASH || b == SLASH {
        out.push(b);
        assert(out@ =~= old(out)@ + seq![b]);
        Some(i + 1)
    } else if b == 98 {
        out.push(8u8);
        assert(out@ =~= old(out)@ + seq![8u8]);
        Some(i + 1)
    } else if b == 102 {
        out.push(12u8);
        assert(out@ =~= old(out)@ + seq![12u8]);
        Some(i + 1)
    } else if b == 110 {
        out.push(10u8);
        assert(out@ =~= old(out)@ + seq![10u8]);
        Some(i + 1)
    } else if b == 114 {
        out.push(13u8);
        assert(out@ =~= old(out)@ + seq![13u8]);
        Some(i + 1)
    } else if b == 116 {
        out.push(9u8);
        assert(out@ =~= old(out)@ + seq![9u8]);
        Some(i + 1)
    } else if b == 117 {
        match read_hex4(s, i + 1) {
            Some(cp) => {
                if 0xD800 <= cp && cp < 0xDC00 {
                    if s.len() >= 7 && i <= s.len() - 7 && s[i + 5] == BACKSLASH && s[i + 6] == 117
                    {
                        match read_hex4(s, i + 7) {
                            Some(lo) => {
                                if 0xDC00 <= lo && lo < 0xE000 {
                                    let combined: u32 = 0x10000 + (cp - 0xD800) * 0x400 + (lo
                                        - 0xDC00);
                                    push_utf8(out, combined);
                                    Some(i + 11)
                                } else {
                                    None
                                }
                            },
                            None => None,
                        }
                    } else {
                        None
                    }
                } else if 0xDC00 <= cp && cp < 0xE000 {
                    None
                } else {
                    push_utf8(out, cp);
                    Some(i + 5)
                }
            },
            None => None,
        }
    } else {
        None
    }
}

/// Content and end of a JSON string literal whose opening quote stands just
/// before `i`: the unescaped bytes and the index right after the closing
/// quote.
pub open spec fn str_content(s: Seq<u8>, i: int) -> Option<(Seq<u8>, int)>
    decreases s.len() - i,
{
    if 0 <= i < s.len() {
        let b = s[i];
        if b == QUOTE {
            Some((Seq::empty(), i + 1))
        } else if b == BACKSLASH {
            match esc_decode(s, i + 1) {
                Some((bs, e)) => if e <= s.len() {
                    match str_content(s, e) {
                        Some((rest, re)) => Some((bs + rest, re)),
                        None => None,
                    }
                } else {
                    None
                },
                None => None,
            }
        } else if b < 0x20 {
            None
        } else {
            match str_content(s, i + 1) {
                Some((rest, re)) => Some((seq![b] + rest, re)),
                None => None,
            }
        }
    } else {
        None
    }
}

pub proof fn lemma_str_content_bounds(s: Seq<u8>, i: int)
    requires
        str_content(s, i) is Some,
    ensures
        i < str_content(s, i)->Some_0.1 <= s.len(),
    decreases s.len() - i,
{
    let b = s[i];
    if b == QUOTE {
    } else if b == BACKSLASH {
        let (bs, e) = esc_decode(s, i + 1)->Some_0;
        lemma_str_content_bounds(s, e);
    } else {
        lemma_str_content_bounds(s, i + 1);
    }
}

/// Executable twin of [`str_content`]: appends the unescaped content to
/// `out` and returns the index just after the closing quote.
pub fn read_str_content(s: &[u8], i: usize, out: &mut Vec<u8>) -> (r: Option<usize>)
    requires
        i <= s@.len(),
    ensures
        match r {
            Some(e) => {
                &&& str_content(s@, i as int) matches Some((bs, se))
                &&& final(out)@ == old(out)@ + bs
                &&& e as int == se
                &&& i < e <= s@.len()
            },
            None => str_content(s@, i as int) is None,
        },
    decreases s@.len() - i,
{
    if i >= s.len() {
        return None;
    }
    let b = s[i];
    if b == QUOTE {
        assert(out@ =~= old(out)@ + Seq::<u8>::empty());
        Some(i + 1)
    } else if b == BACKSLASH {
        match read_escape(s, i + 1, out) {
            Some(e) => {
                if e <= s.len() {
                    match read_str_content(s, e, out) {
                        Some(re) => {
                            proof {
                                let (bs, _e1) = esc_decode(s@, i as int + 1)->Some_0;
                                let (rest, _e2) = str_content(s@, e as int)->Some_0;
                                assert(out@ =~= old(out)@ + (bs + rest));
                            }
                            Some(re)
                        },
                        None => None,
                    }
                } else {
                    None
                }
            },
            None => None,
        }
    } else if b < 0x20 {
        None
    } else {
        out.push(b);
        match read_str_content(s, i + 1, out) {
            Some(re) => {
                proof {
                    let (rest, _e2) = str_content(s@, i as int + 1)->Some_0;
                    assert(out@ =~= old(out)@ + (seq![b] + rest));
                }
                Some(re)
            },
            None => None,
        }
    }
}

} // verus!
