//! A small push-free JSON reader over bytes: a cursor, primitive reads,
//! and a skipper for values the caller does not care about. The importer
//! drives it object by object, so a document is consumed in one forward
//! pass without building a parse tree.

use vstd::prelude::*;
use vstd::utf8::*;

use crate::codec::string_from_utf8;

verus! {

broadcast use vstd::slice::group_slice_axioms;

// The readers below each carry a mathematical mirror: a spec function on
// the byte sequence that says which value and end position the reader
// yields, or that the bytes are malformed. Every reader's contract ties
// its result to its mirror, so the grammar the code accepts is stated,
// not just implemented. Where a mirror recurses at a position another
// mirror produced, the recursion is guarded by a strict progress test;
// the readers always advance, so the guard never changes what a mirror
// means on bytes a reader can reach.
/// Whether a byte is JSON whitespace.
pub(crate) open spec fn spec_is_ws(b: u8) -> bool {
    b == 0x20 || b == 0x09 || b == 0x0a || b == 0x0d
}

/// The first position at or after `pos` that holds no whitespace.
pub(crate) open spec fn spec_ws(data: Seq<u8>, pos: int) -> int
    decreases data.len() - pos,
{
    if 0 <= pos < data.len() && spec_is_ws(data[pos]) {
        spec_ws(data, pos + 1)
    } else {
        pos
    }
}

/// The position just past `b` at the cursor, behind any whitespace.
pub(crate) open spec fn spec_expect(data: Seq<u8>, pos: int, b: u8) -> Option<int> {
    let p = spec_ws(data, pos);
    if 0 <= p < data.len() && data[p] == b {
        Some(p + 1)
    } else {
        None
    }
}

/// The next non-whitespace byte and its position.
pub(crate) open spec fn spec_peek(data: Seq<u8>, pos: int) -> Option<(u8, int)> {
    let p = spec_ws(data, pos);
    if 0 <= p < data.len() {
        Some((data[p], p))
    } else {
        None
    }
}

/// A comma (more elements follow) or the closing byte, consumed.
pub(crate) open spec fn spec_sep(data: Seq<u8>, pos: int, close: u8) -> Option<(bool, int)> {
    match spec_peek(data, pos) {
        Some((b, p)) => if b == 0x2c {
            Some((true, p + 1))
        } else if b == close {
            Some((false, p + 1))
        } else {
            None
        },
        None => None,
    }
}

/// The value of one hex digit.
pub(crate) open spec fn spec_hex_digit(b: u8) -> Option<u8> {
    if 0x30 <= b && b <= 0x39 {
        Some((b - 0x30) as u8)
    } else if 0x61 <= b && b <= 0x66 {
        Some((b - 0x61 + 10) as u8)
    } else if 0x41 <= b && b <= 0x46 {
        Some((b - 0x41 + 10) as u8)
    } else {
        None
    }
}

/// Four hex digits at `pos`, as one code unit.
pub(crate) open spec fn spec_hex4(data: Seq<u8>, pos: int) -> Option<(u32, int)> {
    if !(0 <= pos && pos + 4 <= data.len()) {
        None
    } else {
        match (spec_hex_digit(data[pos]), spec_hex_digit(data[pos + 1]), spec_hex_digit(
            data[pos + 2],
        ), spec_hex_digit(data[pos + 3])) {
            (Some(d0), Some(d1), Some(d2), Some(d3)) => Some(
                (
                    ((d0 as u32) << 12) | ((d1 as u32) << 8) | ((d2 as u32) << 4) | (d3 as u32),
                    pos + 4,
                ),
            ),
            _ => None,
        }
    }
}

/// The rest of a string body from `pos` (the opening quote consumed, the
/// bytes decoded so far in `acc`): the string's characters and the
/// position past the closing quote.
pub(crate) open spec fn spec_string_body(data: Seq<u8>, pos: int, acc: Seq<u8>) -> Option<
    (Seq<char>, int),
>
    decreases data.len() - pos,
{
    if !(0 <= pos < data.len()) {
        None
    } else if data[pos] == 0x22 {
        if valid_utf8(acc) {
            Some((decode_utf8(acc), pos + 1))
        } else {
            None
        }
    } else {
        let b = data[pos];
        if b == 0x5c {
            if pos + 1 >= data.len() {
                None
            } else {
                let e = data[pos + 1];
                if e == 0x22 || e == 0x5c || e == 0x2f {
                    spec_string_body(data, pos + 2, acc.push(e))
                } else if e == 0x62 {
                    spec_string_body(data, pos + 2, acc.push(0x08))
                } else if e == 0x66 {
                    spec_string_body(data, pos + 2, acc.push(0x0c))
                } else if e == 0x6e {
                    spec_string_body(data, pos + 2, acc.push(0x0a))
                } else if e == 0x72 {
                    spec_string_body(data, pos + 2, acc.push(0x0d))
                } else if e == 0x74 {
                    spec_string_body(data, pos + 2, acc.push(0x09))
                } else if e == 0x75 {
                    match spec_hex4(data, pos + 2) {
                        Some((unit, p4)) => if 0xd800 <= unit && unit <= 0xdbff {
                            if p4 + 2 > data.len() || data[p4] != 0x5c || data[p4 + 1] != 0x75 {
                                None
                            } else {
                                match spec_hex4(data, p4 + 2) {
                                    Some((low, p8)) => if 0xdc00 <= low && low <= 0xdfff {
                                        spec_string_body(
                                            data,
                                            p8,
                                            acc + encode_scalar(
                                                (0x10000 + (unit - 0xd800) * 0x400 + (low
                                                    - 0xdc00)) as u32,
                                            ),
                                        )
                                    } else {
                                        None
                                    },
                                    None => None,
                                }
                            }
                        } else if 0xdc00 <= unit && unit <= 0xdfff {
                            None
                        } else {
                            spec_string_body(data, p4, acc + encode_scalar(unit))
                        },
                        None => None,
                    }
                } else {
                    None
                }
            }
        } else if b < 0x20 {
            None
        } else {
            spec_string_body(data, pos + 1, acc.push(b))
        }
    }
}

/// One string, behind any whitespace: its text with escapes applied.
pub(crate) open spec fn spec_string(data: Seq<u8>, pos: int) -> Option<(Seq<char>, int)> {
    match spec_expect(data, pos, 0x22) {
        Some(start) => spec_string_body(data, start, Seq::empty()),
        None => None,
    }
}

/// The literal `true` or `false`, behind any whitespace.
pub(crate) open spec fn spec_bool(data: Seq<u8>, pos: int) -> Option<(bool, int)> {
    match spec_peek(data, pos) {
        Some((b, p)) => if b == 0x74 {
            if p + 4 <= data.len() && data[p + 1] == 0x72 && data[p + 2] == 0x75 && data[p + 3]
                == 0x65 {
                Some((true, p + 4))
            } else {
                None
            }
        } else if b == 0x66 {
            if p + 5 <= data.len() && data[p + 1] == 0x61 && data[p + 2] == 0x6c && data[p + 3]
                == 0x73 && data[p + 4] == 0x65 {
                Some((false, p + 5))
            } else {
                None
            }
        } else {
            None
        },
        None => None,
    }
}

/// Whether a byte is a decimal digit.
pub(crate) open spec fn spec_is_digit(b: u8) -> bool {
    0x30 <= b && b <= 0x39
}

/// The end of the digit run from `pos`.
pub(crate) open spec fn spec_digits_end(data: Seq<u8>, pos: int) -> int
    decreases data.len() - pos,
{
    if 0 <= pos < data.len() && spec_is_digit(data[pos]) {
        spec_digits_end(data, pos + 1)
    } else {
        pos
    }
}

/// The end of a number's fraction part at `pos`: a dot needs at least one
/// digit behind it; no dot is an empty fraction part.
pub(crate) open spec fn spec_frac_end(data: Seq<u8>, pos: int) -> Option<int> {
    if 0 <= pos < data.len() && data[pos] == 0x2e {
        let d = spec_digits_end(data, pos + 1);
        if d > pos + 1 {
            Some(d)
        } else {
            None
        }
    } else {
        Some(pos)
    }
}

/// The end of a number's exponent part at `pos`: an exponent mark, an
/// optional sign, and at least one digit; no mark is an empty part.
pub(crate) open spec fn spec_exp_end(data: Seq<u8>, pos: int) -> Option<int> {
    if 0 <= pos < data.len() && (data[pos] == 0x65 || data[pos] == 0x45) {
        let sgn = if pos + 1 < data.len() && (data[pos + 1] == 0x2b || data[pos + 1] == 0x2d) {
            pos + 2
        } else {
            pos + 1
        };
        let d = spec_digits_end(data, sgn);
        if d > sgn {
            Some(d)
        } else {
            None
        }
    } else {
        Some(pos)
    }
}

/// The end of one number token at `pos`: an optional minus, an integer
/// part that is `0` or starts with a nonzero digit, then the fraction and
/// exponent parts.
pub(crate) open spec fn spec_number_end(data: Seq<u8>, pos: int) -> Option<int> {
    let q0 = if 0 <= pos < data.len() && data[pos] == 0x2d {
        pos + 1
    } else {
        pos
    };
    if !(0 <= q0 < data.len()) {
        None
    } else if data[q0] == 0x30 {
        match spec_frac_end(data, q0 + 1) {
            Some(f) => spec_exp_end(data, f),
            None => None,
        }
    } else if 0x31 <= data[q0] && data[q0] <= 0x39 {
        match spec_frac_end(data, spec_digits_end(data, q0)) {
            Some(f) => spec_exp_end(data, f),
            None => None,
        }
    } else {
        None
    }
}

/// The rest of a string array from `pos` (the opening bracket consumed,
/// at least one element left): the strings and the position past the
/// closing bracket.
pub(crate) open spec fn spec_string_array_tail(
    data: Seq<u8>,
    pos: int,
    acc: Seq<Seq<char>>,
) -> Option<(Seq<Seq<char>>, int)>
    decreases data.len() - pos,
{
    match spec_string(data, pos) {
        Some((s, q)) => match spec_sep(data, q, 0x5d) {
            Some((true, q2)) => if pos < q2 <= data.len() {
                spec_string_array_tail(data, q2, acc.push(s))
            } else {
                None
            },
            Some((false, q2)) => Some((acc.push(s), q2)),
            None => None,
        },
        None => None,
    }
}

/// An array of strings, behind any whitespace.
pub(crate) open spec fn spec_string_array(data: Seq<u8>, pos: int) -> Option<
    (Seq<Seq<char>>, int),
> {
    match spec_expect(data, pos, 0x5b) {
        Some(p) => match spec_peek(data, p) {
            Some((b, q)) => if b == 0x5d {
                Some((Seq::empty(), q + 1))
            } else {
                spec_string_array_tail(data, p, Seq::empty())
            },
            None => None,
        },
        None => None,
    }
}

/// The end of one value of any shape at `pos`, behind any whitespace.
pub(crate) open spec fn spec_skip_value(data: Seq<u8>, pos: int) -> Option<int>
    decreases data.len() - pos, 0int,
{
    match spec_peek(data, pos) {
        Some((b, p)) => if b == 0x22 {
            match spec_string(data, p) {
                Some((_, q)) => Some(q),
                None => None,
            }
        } else if b == 0x7b {
            if pos <= p {
                spec_skip_members(data, p + 1)
            } else {
                None
            }
        } else if b == 0x5b {
            if pos <= p {
                spec_skip_elements(data, p + 1)
            } else {
                None
            }
        } else if b == 0x74 || b == 0x66 {
            match spec_bool(data, p) {
                Some((_, q)) => Some(q),
                None => None,
            }
        } else if b == 0x6e {
            if p + 4 <= data.len() && data[p + 1] == 0x75 && data[p + 2] == 0x6c && data[p + 3]
                == 0x6c {
                Some(p + 4)
            } else {
                None
            }
        } else if b == 0x2d || (0x30 <= b && b <= 0x39) {
            spec_number_end(data, p)
        } else {
            None
        },
        None => None,
    }
}

/// The end of an object whose opening brace is already consumed.
pub(crate) open spec fn spec_skip_members(data: Seq<u8>, pos: int) -> Option<int>
    decreases data.len() - pos, 2int,
{
    match spec_peek(data, pos) {
        Some((b, q)) => if b == 0x7d {
            Some(q + 1)
        } else {
            spec_skip_members_tail(data, pos)
        },
        None => None,
    }
}

/// The remaining members of an object from `pos` (at least one left).
pub(crate) open spec fn spec_skip_members_tail(data: Seq<u8>, pos: int) -> Option<int>
    decreases data.len() - pos, 1int,
{
    match spec_string(data, pos) {
        Some((_, q)) => match spec_expect(data, q, 0x3a) {
            Some(q2) => match (if pos < q2 <= data.len() {
                spec_skip_value(data, q2)
            } else {
                None
            }) {
                Some(q3) => match spec_sep(data, q3, 0x7d) {
                    Some((true, q4)) => if pos < q4 <= data.len() {
                        spec_skip_members_tail(data, q4)
                    } else {
                        None
                    },
                    Some((false, q4)) => Some(q4),
                    None => None,
                },
                None => None,
            },
            None => None,
        },
        None => None,
    }
}

/// The end of an array whose opening bracket is already consumed.
pub(crate) open spec fn spec_skip_elements(data: Seq<u8>, pos: int) -> Option<int>
    decreases data.len() - pos, 2int,
{
    match spec_peek(data, pos) {
        Some((b, q)) => if b == 0x5d {
            Some(q + 1)
        } else {
            spec_skip_elements_tail(data, pos)
        },
        None => None,
    }
}

/// The remaining elements of an array from `pos` (at least one left).
pub(crate) open spec fn spec_skip_elements_tail(data: Seq<u8>, pos: int) -> Option<int>
    decreases data.len() - pos, 1int,
{
    match (if 0 <= pos { spec_skip_value(data, pos) } else { None }) {
        Some(q) => match spec_sep(data, q, 0x5d) {
            Some((true, q2)) => if pos < q2 <= data.len() {
                spec_skip_elements_tail(data, q2)
            } else {
                None
            },
            Some((false, q2)) => Some(q2),
            None => None,
        },
        None => None,
    }
}

/// The remaining members of a string-to-string table from `pos` (at least
/// one left): the position past the closing brace.
pub(crate) open spec fn spec_string_map_tail(data: Seq<u8>, pos: int) -> Option<int>
    decreases data.len() - pos,
{
    match spec_string(data, pos) {
        Some((_, q)) => match spec_expect(data, q, 0x3a) {
            Some(q2) => match spec_string(data, q2) {
                Some((_, q3)) => match spec_sep(data, q3, 0x7d) {
                    Some((true, q4)) => if pos < q4 <= data.len() {
                        spec_string_map_tail(data, q4)
                    } else {
                        None
                    },
                    Some((false, q4)) => Some(q4),
                    None => None,
                },
                None => None,
            },
            None => None,
        },
        None => None,
    }
}

/// An object whose members all hold string values, behind any whitespace:
/// the position past its closing brace.
pub(crate) open spec fn spec_string_map(data: Seq<u8>, pos: int) -> Option<int> {
    match spec_expect(data, pos, 0x7b) {
        Some(p) => match spec_peek(data, p) {
            Some((b, q)) => if b == 0x7d {
                Some(q + 1)
            } else {
                spec_string_map_tail(data, p)
            },
            None => None,
        },
        None => None,
    }
}

/// Whether a byte is JSON whitespace.
fn is_ws(b: u8) -> (r: bool)
    ensures
        r == spec_is_ws(b),
{
    b == 0x20 || b == 0x09 || b == 0x0a || b == 0x0d
}

/// The first position at or after `pos` that holds no whitespace.
pub(crate) fn skip_ws(data: &[u8], pos: usize) -> (r: usize)
    requires
        pos <= data@.len(),
    ensures
        pos <= r <= data@.len(),
        r == spec_ws(data@, pos as int),
{
    let mut p = pos;
    while p < data.len() && is_ws(data[p])
        invariant
            pos <= p <= data@.len(),
            spec_ws(data@, pos as int) == spec_ws(data@, p as int),
        decreases data@.len() - p,
    {
        p += 1;
    }
    p
}

/// Consumes `b`, behind any whitespace.
pub(crate) fn expect_byte(data: &[u8], pos: usize, b: u8) -> (r: Option<usize>)
    requires
        pos <= data@.len(),
    ensures
        r matches Some(p) ==> pos < p <= data@.len() && spec_expect(data@, pos as int, b) == Some(
            p as int,
        ),
        r is None ==> spec_expect(data@, pos as int, b) is None,
{
    let p = skip_ws(data, pos);
    if p < data.len() && data[p] == b {
        Some(p + 1)
    } else {
        None
    }
}

/// The next non-whitespace byte and its position, if any is left.
pub(crate) fn peek_byte(data: &[u8], pos: usize) -> (r: Option<(u8, usize)>)
    requires
        pos <= data@.len(),
    ensures
        r matches Some(v) ==> pos <= v.1 < data@.len() && spec_peek(data@, pos as int) == Some(
            (v.0, v.1 as int),
        ),
        r is None ==> spec_peek(data@, pos as int) is None,
{
    let p = skip_ws(data, pos);
    if p < data.len() {
        Some((data[p], p))
    } else {
        None
    }
}

/// After an array or object element: consumes a comma (more elements
/// follow: `true`) or the closing byte (`false`).
pub(crate) fn element_sep(data: &[u8], pos: usize, close: u8) -> (r: Option<(bool, usize)>)
    requires
        pos <= data@.len(),
    ensures
        r matches Some(v) ==> pos < v.1 <= data@.len() && spec_sep(data@, pos as int, close)
            == Some((v.0, v.1 as int)),
        r is None ==> spec_sep(data@, pos as int, close) is None,
{
    proof {
        assert(data@.len() == data.len());
    }
    match peek_byte(data, pos) {
        Some((b, p)) => {
            if b == 0x2c {
                Some((true, p + 1))
            } else if b == close {
                Some((false, p + 1))
            } else {
                None
            }
        },
        None => None,
    }
}

/// The value of one hex digit.
fn hex_digit(b: u8) -> (r: Option<u8>)
    ensures
        r matches Some(v) ==> v < 16,
        r == spec_hex_digit(b),
{
    if 0x30 <= b && b <= 0x39 {
        Some(b - 0x30)
    } else if 0x61 <= b && b <= 0x66 {
        Some(b - 0x61 + 10)
    } else if 0x41 <= b && b <= 0x46 {
        Some(b - 0x41 + 10)
    } else {
        None
    }
}

/// Four hex digits at `pos`, as one code unit.
fn parse_hex4(data: &[u8], pos: usize) -> (r: Option<(u32, usize)>)
    requires
        pos <= data@.len(),
    ensures
        r matches Some(v) ==> pos < v.1 <= data@.len() && v.0 < 0x10000 && spec_hex4(
            data@,
            pos as int,
        ) == Some((v.0, v.1 as int)),
        r is None ==> spec_hex4(data@, pos as int) is None,
{
    if data.len() < 4 || pos > data.len() - 4 {
        return None;
    }
    let d0 = match hex_digit(data[pos]) {
        Some(v) => v,
        None => {
            return None;
        },
    };
    let d1 = match hex_digit(data[pos + 1]) {
        Some(v) => v,
        None => {
            return None;
        },
    };
    let d2 = match hex_digit(data[pos + 2]) {
        Some(v) => v,
        None => {
            return None;
        },
    };
    let d3 = match hex_digit(data[pos + 3]) {
        Some(v) => v,
        None => {
            return None;
        },
    };
    let v = ((d0 as u32) << 12) | ((d1 as u32) << 8) | ((d2 as u32) << 4) | (d3 as u32);
    proof {
        assert(v < 0x10000) by (bit_vector)
            requires
                d0 < 16 && d1 < 16 && d2 < 16 && d3 < 16 && v == ((d0 as u32) << 12) | ((d1
                    as u32) << 8) | ((d2 as u32) << 4) | (d3 as u32),
        ;
    }
    Some((v, pos + 4))
}

/// Appends the UTF-8 bytes of one Unicode scalar value.
fn push_scalar(out: &mut Vec<u8>, cp: u32)
    requires
        cp < 0x110000,
        !(0xd800 <= cp <= 0xdfff),
    ensures
        final(out)@ == old(out)@ + encode_scalar(cp),
{
    if cp < 0x80 {
        proof {
            assert(cp as u8 == leading_byte_width_1(cp)) by (bit_vector)
                requires
                    cp < 0x80,
            ;
        }
        out.push(cp as u8);
        proof {
            assert(final(out)@ =~= old(out)@ + encode_scalar(cp));
        }
    } else if cp < 0x800 {
        proof {
            assert((0xc0 | (cp >> 6)) < 256 && (0x80 | (cp & 0x3f)) < 256 && (0xc0 | (cp >> 6))
                as u8 == leading_byte_width_2(cp) && (0x80 | (cp & 0x3f)) as u8
                == last_continuation_byte(cp)) by (bit_vector)
                requires
                    0x80 <= cp < 0x800,
            ;
        }
        out.push((0xc0 | (cp >> 6)) as u8);
        out.push((0x80 | (cp & 0x3f)) as u8);
        proof {
            assert(final(out)@ =~= old(out)@ + encode_scalar(cp));
        }
    } else if cp < 0x10000 {
        proof {
            assert((0xe0 | (cp >> 12)) < 256 && (0x80 | ((cp >> 6) & 0x3f)) < 256 && (0x80 | (cp
                & 0x3f)) < 256 && (0xe0 | (cp >> 12)) as u8 == leading_byte_width_3(cp) && (0x80
                | ((cp >> 6) & 0x3f)) as u8 == second_last_continuation_byte(cp) && (0x80 | (cp
                & 0x3f)) as u8 == last_continuation_byte(cp)) by (bit_vector)
                requires
                    0x800 <= cp < 0x10000,
            ;
        }
        out.push((0xe0 | (cp >> 12)) as u8);
        out.push((0x80 | ((cp >> 6) & 0x3f)) as u8);
        out.push((0x80 | (cp & 0x3f)) as u8);
        proof {
            assert(final(out)@ =~= old(out)@ + encode_scalar(cp));
        }
    } else {
        proof {
            assert((0xf0 | (cp >> 18)) < 256 && (0x80 | ((cp >> 12) & 0x3f)) < 256 && (0x80 | ((cp
                >> 6) & 0x3f)) < 256 && (0x80 | (cp & 0x3f)) < 256 && (0xf0 | (cp >> 18)) as u8
                == leading_byte_width_4(cp) && (0x80 | ((cp >> 12) & 0x3f)) as u8
                == third_last_continuation_byte(cp) && (0x80 | ((cp >> 6) & 0x3f)) as u8
                == second_last_continuation_byte(cp) && (0x80 | (cp & 0x3f)) as u8
                == last_continuation_byte(cp)) by (bit_vector)
                requires
                    0x10000 <= cp < 0x110000,
            ;
        }
        out.push((0xf0 | (cp >> 18)) as u8);
        out.push((0x80 | ((cp >> 12) & 0x3f)) as u8);
        out.push((0x80 | ((cp >> 6) & 0x3f)) as u8);
        out.push((0x80 | (cp & 0x3f)) as u8);
        proof {
            assert(final(out)@ =~= old(out)@ + encode_scalar(cp));
        }
    }
}

/// One JSON string, behind any whitespace: its text with escapes applied.
pub(crate) fn parse_string(data: &[u8], pos: usize) -> (r: Option<(String, usize)>)
    requires
        pos <= data@.len(),
    ensures
        r matches Some(v) ==> pos < v.1 <= data@.len() && spec_string(data@, pos as int) == Some(
            (v.0@, v.1 as int),
        ),
        r is None ==> spec_string(data@, pos as int) is None,
{
    let start = match expect_byte(data, pos, 0x22) {
        Some(p) => p,
        None => {
            return None;
        },
    };
    let mut buf: Vec<u8> = Vec::new();
    let mut p = start;
    while p < data.len() && data[p] != 0x22
        invariant
            start <= p <= data@.len(),
            spec_string(data@, pos as int) == spec_string_body(data@, p as int, buf@),
        decreases data@.len() - p,
    {
        let ghost p0 = p as int;
        let ghost buf0 = buf@;
        let b = data[p];
        if b == 0x5c {
            if p + 1 >= data.len() {
                return None;
            }
            let e = data[p + 1];
            if e == 0x22 || e == 0x5c || e == 0x2f {
                buf.push(e);
                p += 2;
            } else if e == 0x62 {
                buf.push(0x08);
                p += 2;
            } else if e == 0x66 {
                buf.push(0x0c);
                p += 2;
            } else if e == 0x6e {
                buf.push(0x0a);
                p += 2;
            } else if e == 0x72 {
                buf.push(0x0d);
                p += 2;
            } else if e == 0x74 {
                buf.push(0x09);
                p += 2;
            } else if e == 0x75 {
                let (unit, p4) = match parse_hex4(data, p + 2) {
                    Some(v) => v,
                    None => {
                        return None;
                    },
                };
                if 0xd800 <= unit && unit <= 0xdbff {
                    // A high surrogate: its low half must follow as
                    // another \u escape, and the pair is one scalar.
                    if data.len() - p4 < 2 || data[p4] != 0x5c || data[p4 + 1] != 0x75 {
                        return None;
                    }
                    let (low, p8) = match parse_hex4(data, p4 + 2) {
                        Some(v) => v,
                        None => {
                            return None;
                        },
                    };
                    if !(0xdc00 <= low && low <= 0xdfff) {
                        return None;
                    }
                    let cp = 0x10000 + ((unit - 0xd800) * 0x400) + (low - 0xdc00);
                    push_scalar(&mut buf, cp);
                    p = p8;
                } else if 0xdc00 <= unit && unit <= 0xdfff {
                    return None;
                } else {
                    push_scalar(&mut buf, unit);
                    p = p4;
                }
            } else {
                return None;
            }
        } else if b < 0x20 {
            return None;
        } else {
            buf.push(b);
            p += 1;
        }
        proof {
            assert(spec_string_body(data@, p0, buf0) == spec_string_body(
                data@,
                p as int,
                buf@,
            ));
        }
    }
    if p >= data.len() {
        return None;
    }
    match string_from_utf8(buf) {
        Some(s) => Some((s, p + 1)),
        None => None,
    }
}

/// The literal `true` or `false`, behind any whitespace.
pub(crate) fn parse_bool(data: &[u8], pos: usize) -> (r: Option<(bool, usize)>)
    requires
        pos <= data@.len(),
    ensures
        r matches Some(v) ==> pos < v.1 <= data@.len() && spec_bool(data@, pos as int) == Some(
            (v.0, v.1 as int),
        ),
        r is None ==> spec_bool(data@, pos as int) is None,
{
    match peek_byte(data, pos) {
        Some((b, p)) => {
            if b == 0x74 {
                if data.len() - p >= 4 && data[p + 1] == 0x72 && data[p + 2] == 0x75 && data[p + 3]
                    == 0x65 {
                    Some((true, p + 4))
                } else {
                    None
                }
            } else if b == 0x66 {
                if data.len() - p >= 5 && data[p + 1] == 0x61 && data[p + 2] == 0x6c && data[p + 3]
                    == 0x73 && data[p + 4] == 0x65 {
                    Some((false, p + 5))
                } else {
                    None
                }
            } else {
                None
            }
        },
        None => None,
    }
}

/// An array of strings, behind any whitespace.
pub(crate) fn parse_string_array(data: &[u8], pos: usize) -> (r: Option<(Vec<String>, usize)>)
    requires
        pos <= data@.len(),
    ensures
        r matches Some(v) ==> pos < v.1 <= data@.len() && spec_string_array(data@, pos as int)
            == Some((v.0.deep_view(), v.1 as int)),
        r is None ==> spec_string_array(data@, pos as int) is None,
{
    let mut p = match expect_byte(data, pos, 0x5b) {
        Some(p) => p,
        None => {
            return None;
        },
    };
    let mut out: Vec<String> = Vec::new();
    proof {
        assert(data@.len() == data.len());
    }
    match peek_byte(data, p) {
        Some((b, q)) => {
            if b == 0x5d {
                proof {
                    assert(out.deep_view() =~= Seq::<Seq<char>>::empty());
                }
                return Some((out, q + 1));
            }
        },
        None => {
            return None;
        },
    }
    proof {
        assert(out.deep_view() =~= Seq::<Seq<char>>::empty());
    }
    loop
        invariant
            pos < p <= data@.len(),
            spec_string_array(data@, pos as int) == spec_string_array_tail(
                data@,
                p as int,
                out.deep_view(),
            ),
        decreases data@.len() - p,
    {
        let ghost p0 = p as int;
        let ghost acc0 = out.deep_view();
        let (s, q) = match parse_string(data, p) {
            Some(v) => v,
            None => {
                return None;
            },
        };
        out.push(s);
        proof {
            assert(out.deep_view() =~= acc0.push(s@));
        }
        let (more, q2) = match element_sep(data, q, 0x5d) {
            Some(v) => v,
            None => {
                return None;
            },
        };
        p = q2;
        if !more {
            proof {
                assert(spec_string_array_tail(data@, p0, acc0) == Some(
                    (out.deep_view(), p as int),
                ));
            }
            return Some((out, p));
        }
        proof {
            assert(spec_string_array_tail(data@, p0, acc0) == spec_string_array_tail(
                data@,
                p as int,
                out.deep_view(),
            ));
        }
    }
}

/// Skips one JSON value of any shape, behind any whitespace.
pub(crate) fn skip_value(data: &[u8], pos: usize) -> (r: Option<usize>)
    requires
        pos <= data@.len(),
    ensures
        r matches Some(p) ==> pos < p <= data@.len() && spec_skip_value(data@, pos as int)
            == Some(p as int),
        r is None ==> spec_skip_value(data@, pos as int) is None,
    decreases data@.len() - pos, 0int,
{
    proof {
        assert(data@.len() == data.len());
    }
    let (b, p) = match peek_byte(data, pos) {
        Some(v) => v,
        None => {
            return None;
        },
    };
    if b == 0x22 {
        match parse_string(data, p) {
            Some((_, q)) => Some(q),
            None => None,
        }
    } else if b == 0x7b {
        skip_members(data, p + 1)
    } else if b == 0x5b {
        skip_elements(data, p + 1)
    } else if b == 0x74 || b == 0x66 {
        match parse_bool(data, p) {
            Some((_, q)) => Some(q),
            None => None,
        }
    } else if b == 0x6e {
        if data.len() - p >= 4 && data[p + 1] == 0x75 && data[p + 2] == 0x6c && data[p + 3]
            == 0x6c {
            Some(p + 4)
        } else {
            None
        }
    } else if b == 0x2d || (0x30 <= b && b <= 0x39) {
        skip_number(data, p)
    } else {
        None
    }
}

/// Whether a byte is a decimal digit.
fn is_digit(b: u8) -> (r: bool)
    ensures
        r == spec_is_digit(b),
{
    0x30 <= b && b <= 0x39
}

/// The end of the digit run from `pos`.
fn digits_end(data: &[u8], pos: usize) -> (r: usize)
    requires
        pos <= data@.len(),
    ensures
        pos <= r <= data@.len(),
        r == spec_digits_end(data@, pos as int),
{
    let mut q = pos;
    while q < data.len() && is_digit(data[q])
        invariant
            pos <= q <= data@.len(),
            spec_digits_end(data@, pos as int) == spec_digits_end(data@, q as int),
        decreases data@.len() - q,
    {
        q += 1;
    }
    q
}

/// Skips one number token at `pos`: an optional minus, an integer part
/// that is `0` or starts with a nonzero digit, then an optional fraction
/// and exponent.
fn skip_number(data: &[u8], pos: usize) -> (r: Option<usize>)
    requires
        pos < data@.len(),
    ensures
        r matches Some(p) ==> pos < p <= data@.len() && spec_number_end(data@, pos as int)
            == Some(p as int),
        r is None ==> spec_number_end(data@, pos as int) is None,
{
    let q0 = if data[pos] == 0x2d {
        pos + 1
    } else {
        pos
    };
    if q0 >= data.len() {
        return None;
    }
    let q1: usize;
    if data[q0] == 0x30 {
        q1 = q0 + 1;
    } else if 0x31 <= data[q0] && data[q0] <= 0x39 {
        q1 = digits_end(data, q0 + 1);
        proof {
            assert(spec_digits_end(data@, q0 as int) == spec_digits_end(data@, q0 + 1));
        }
    } else {
        return None;
    }
    let q2: usize;
    if q1 < data.len() && data[q1] == 0x2e {
        let d = digits_end(data, q1 + 1);
        if d == q1 + 1 {
            return None;
        }
        q2 = d;
    } else {
        q2 = q1;
    }
    if q2 < data.len() && (data[q2] == 0x65 || data[q2] == 0x45) {
        let sgn = if q2 + 1 < data.len() && (data[q2 + 1] == 0x2b || data[q2 + 1] == 0x2d) {
            q2 + 2
        } else {
            q2 + 1
        };
        let d = digits_end(data, sgn);
        if d == sgn {
            return None;
        }
        Some(d)
    } else {
        Some(q2)
    }
}

/// Skips the members of an object whose opening brace is already
/// consumed, up to and including the closing brace.
fn skip_members(data: &[u8], pos: usize) -> (r: Option<usize>)
    requires
        pos <= data@.len(),
    ensures
        r matches Some(p) ==> pos < p <= data@.len() && spec_skip_members(data@, pos as int)
            == Some(p as int),
        r is None ==> spec_skip_members(data@, pos as int) is None,
    decreases data@.len() - pos, 1int,
{
    proof {
        assert(data@.len() == data.len());
    }
    match peek_byte(data, pos) {
        Some((b, q)) => {
            if b == 0x7d {
                return Some(q + 1);
            }
        },
        None => {
            return None;
        },
    }
    let mut p = pos;
    loop
        invariant
            pos <= p <= data@.len(),
            spec_skip_members(data@, pos as int) == spec_skip_members_tail(data@, p as int),
        decreases data@.len() - p,
    {
        let ghost p0 = p as int;
        let (_, q) = match parse_string(data, p) {
            Some(v) => v,
            None => {
                return None;
            },
        };
        let q2 = match expect_byte(data, q, 0x3a) {
            Some(v) => v,
            None => {
                return None;
            },
        };
        let q3 = match skip_value(data, q2) {
            Some(v) => v,
            None => {
                return None;
            },
        };
        let (more, q4) = match element_sep(data, q3, 0x7d) {
            Some(v) => v,
            None => {
                return None;
            },
        };
        p = q4;
        if !more {
            proof {
                assert(spec_skip_members_tail(data@, p0) == Some(p as int));
            }
            return Some((p));
        }
        proof {
            assert(spec_skip_members_tail(data@, p0) == spec_skip_members_tail(data@, p as int));
        }
    }
}

/// Skips the elements of an array whose opening bracket is already
/// consumed, up to and including the closing bracket.
fn skip_elements(data: &[u8], pos: usize) -> (r: Option<usize>)
    requires
        pos <= data@.len(),
    ensures
        r matches Some(p) ==> pos < p <= data@.len() && spec_skip_elements(data@, pos as int)
            == Some(p as int),
        r is None ==> spec_skip_elements(data@, pos as int) is None,
    decreases data@.len() - pos, 1int,
{
    proof {
        assert(data@.len() == data.len());
    }
    match peek_byte(data, pos) {
        Some((b, q)) => {
            if b == 0x5d {
                return Some(q + 1);
            }
        },
        None => {
            return None;
        },
    }
    let mut p = pos;
    loop
        invariant
            pos <= p <= data@.len(),
            spec_skip_elements(data@, pos as int) == spec_skip_elements_tail(data@, p as int),
        decreases data@.len() - p,
    {
        let ghost p0 = p as int;
        let q = match skip_value(data, p) {
            Some(v) => v,
            None => {
                return None;
            },
        };
        let (more, q2) = match element_sep(data, q, 0x5d) {
            Some(v) => v,
            None => {
                return None;
            },
        };
        p = q2;
        if !more {
            proof {
                assert(spec_skip_elements_tail(data@, p0) == Some(p as int));
            }
            return Some(p);
        }
        proof {
            assert(spec_skip_elements_tail(data@, p0) == spec_skip_elements_tail(
                data@,
                p as int,
            ));
        }
    }
}

/// An object whose members all hold string values, behind any whitespace:
/// a tag table. The values are returned in member order as (key, value)
/// pairs.
pub(crate) fn parse_string_map(data: &[u8], pos: usize) -> (r: Option<
    (Vec<(String, String)>, usize),
>)
    requires
        pos <= data@.len(),
    ensures
        r matches Some(v) ==> pos < v.1 <= data@.len() && spec_string_map(data@, pos as int)
            == Some(v.1 as int),
        r is None ==> spec_string_map(data@, pos as int) is None,
{
    let mut p = match expect_byte(data, pos, 0x7b) {
        Some(p) => p,
        None => {
            return None;
        },
    };
    let mut out: Vec<(String, String)> = Vec::new();
    proof {
        assert(data@.len() == data.len());
    }
    match peek_byte(data, p) {
        Some((b, q)) => {
            if b == 0x7d {
                return Some((out, q + 1));
            }
        },
        None => {
            return None;
        },
    }
    loop
        invariant
            pos < p <= data@.len(),
            spec_string_map(data@, pos as int) == spec_string_map_tail(data@, p as int),
        decreases data@.len() - p,
    {
        let ghost p0 = p as int;
        let (k, q) = match parse_string(data, p) {
            Some(v) => v,
            None => {
                return None;
            },
        };
        let q2 = match expect_byte(data, q, 0x3a) {
            Some(v) => v,
            None => {
                return None;
            },
        };
        let (v, q3) = match parse_string(data, q2) {
            Some(v) => v,
            None => {
                return None;
            },
        };
        out.push((k, v));
        let (more, q4) = match element_sep(data, q3, 0x7d) {
            Some(v) => v,
            None => {
                return None;
            },
        };
        p = q4;
        if !more {
            proof {
                assert(spec_string_map_tail(data@, p0) == Some(p as int));
            }
            return Some((out, p));
        }
        proof {
            assert(spec_string_map_tail(data@, p0) == spec_string_map_tail(data@, p as int));
        }
    }
}

} // verus!
