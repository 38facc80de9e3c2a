//! The binary codec for dictionary entries.
//!
//! An entry is laid out as a sequence of length-prefixed fields:
//! the reading count, each reading as UTF-8 bytes behind a byte-length
//! prefix, the gloss, the tag count, and each tag. All prefixes are
//! little-endian 64-bit. The format is fixed and unversioned; the codec
//! and the disk-backed backend agree on it implicitly.

use vstd::prelude::*;
use vstd::utf8::*;

use crate::dictionary::{DictionaryEntry, EntryModel, Error};

verus! {

broadcast use vstd::seq_lib::group_seq_properties;

/// The little-endian 8-byte layout of a 64-bit value.
pub open spec fn le64(n: u64) -> Seq<u8> {
    seq![
        (n & 0xff) as u8,
        ((n >> 8) & 0xff) as u8,
        ((n >> 16) & 0xff) as u8,
        ((n >> 24) & 0xff) as u8,
        ((n >> 32) & 0xff) as u8,
        ((n >> 40) & 0xff) as u8,
        ((n >> 48) & 0xff) as u8,
        ((n >> 56) & 0xff) as u8,
    ]
}

proof fn lemma_le64_inj(n1: u64, n2: u64)
    by (bit_vector)
    requires
        (n1 & 0xff) as u8 == (n2 & 0xff) as u8,
        ((n1 >> 8) & 0xff) as u8 == ((n2 >> 8) & 0xff) as u8,
        ((n1 >> 16) & 0xff) as u8 == ((n2 >> 16) & 0xff) as u8,
        ((n1 >> 24) & 0xff) as u8 == ((n2 >> 24) & 0xff) as u8,
        ((n1 >> 32) & 0xff) as u8 == ((n2 >> 32) & 0xff) as u8,
        ((n1 >> 40) & 0xff) as u8 == ((n2 >> 40) & 0xff) as u8,
        ((n1 >> 48) & 0xff) as u8 == ((n2 >> 48) & 0xff) as u8,
        ((n1 >> 56) & 0xff) as u8 == ((n2 >> 56) & 0xff) as u8,
    ensures
        n1 == n2,
{
}

/// Two values with the same little-endian layout are the same value.
proof fn lemma_le64_seq_inj(n1: u64, n2: u64)
    requires
        le64(n1) == le64(n2),
    ensures
        n1 == n2,
{
    assert(le64(n1)[0] == le64(n2)[0]);
    assert(le64(n1)[1] == le64(n2)[1]);
    assert(le64(n1)[2] == le64(n2)[2]);
    assert(le64(n1)[3] == le64(n2)[3]);
    assert(le64(n1)[4] == le64(n2)[4]);
    assert(le64(n1)[5] == le64(n2)[5]);
    assert(le64(n1)[6] == le64(n2)[6]);
    assert(le64(n1)[7] == le64(n2)[7]);
    lemma_le64_inj(n1, n2);
}

proof fn lemma_le64_recompose(b0: u8, b1: u8, b2: u8, b3: u8, b4: u8, b5: u8, b6: u8, b7: u8)
    by (bit_vector)
    ensures
        ({
            let n = (b0 as u64) | ((b1 as u64) << 8) | ((b2 as u64) << 16) | ((b3 as u64) << 24)
                | ((b4 as u64) << 32) | ((b5 as u64) << 40) | ((b6 as u64) << 48) | ((b7
                as u64) << 56);
            &&& (n & 0xff) as u8 == b0
            &&& ((n >> 8) & 0xff) as u8 == b1
            &&& ((n >> 16) & 0xff) as u8 == b2
            &&& ((n >> 24) & 0xff) as u8 == b3
            &&& ((n >> 32) & 0xff) as u8 == b4
            &&& ((n >> 40) & 0xff) as u8 == b5
            &&& ((n >> 48) & 0xff) as u8 == b6
            &&& ((n >> 56) & 0xff) as u8 == b7
        }),
{
}

proof fn lemma_le64_byte_bounds(n: u64)
    by (bit_vector)
    ensures
        n & 0xff <= 0xff,
        (n >> 8) & 0xff <= 0xff,
        (n >> 16) & 0xff <= 0xff,
        (n >> 24) & 0xff <= 0xff,
        (n >> 32) & 0xff <= 0xff,
        (n >> 40) & 0xff <= 0xff,
        (n >> 48) & 0xff <= 0xff,
        (n >> 56) & 0xff <= 0xff,
{
}

/// Appends the little-endian layout of `n` to `out`.
fn push_u64(out: &mut Vec<u8>, n: u64)
    ensures
        final(out)@ == old(out)@ + le64(n),
{
    proof {
        lemma_le64_byte_bounds(n);
    }
    out.push((n & 0xff) as u8);
    out.push(((n >> 8) & 0xff) as u8);
    out.push(((n >> 16) & 0xff) as u8);
    out.push(((n >> 24) & 0xff) as u8);
    out.push(((n >> 32) & 0xff) as u8);
    out.push(((n >> 40) & 0xff) as u8);
    out.push(((n >> 48) & 0xff) as u8);
    out.push(((n >> 56) & 0xff) as u8);
    proof {
        assert(final(out)@ =~= old(out)@ + le64(n));
    }
}

/// Reads the 64-bit value whose little-endian layout starts at `pos`.
///
/// Returns the value and the position just past it. The result pins the
/// consumed bytes down: they are exactly the layout of the returned value,
/// and no other value has that layout.
fn read_u64(data: &[u8], pos: usize) -> (r: Option<(u64, usize)>)
    ensures
        r matches Some((n, end)) ==> {
            &&& pos + 8 == end <= data@.len()
            &&& data@.subrange(pos as int, end as int) == le64(n)
        },
        pos + 8 <= data@.len() ==> r is Some,
{
    if data.len() < 8 || pos > data.len() - 8 {
        return None;
    }
    let b0 = data[pos];
    let b1 = data[pos + 1];
    let b2 = data[pos + 2];
    let b3 = data[pos + 3];
    let b4 = data[pos + 4];
    let b5 = data[pos + 5];
    let b6 = data[pos + 6];
    let b7 = data[pos + 7];
    let n = (b0 as u64) | ((b1 as u64) << 8) | ((b2 as u64) << 16) | ((b3 as u64) << 24) | ((b4
        as u64) << 32) | ((b5 as u64) << 40) | ((b6 as u64) << 48) | ((b7 as u64) << 56);
    proof {
        lemma_le64_recompose(b0, b1, b2, b3, b4, b5, b6, b7);
        assert(data@.subrange(pos as int, pos + 8 as int) =~= le64(n));
    }
    Some((n, pos + 8))
}

/// A character sequence laid out as a byte-length prefix followed by its
/// UTF-8 bytes.
pub open spec fn enc_str(s: Seq<char>) -> Seq<u8> {
    le64(encode_utf8(s).len() as u64) + encode_utf8(s)
}

/// Whether a character sequence is small enough for its byte length to fit
/// the length prefix. Every sequence held by a real `String` is.
pub open spec fn str_fits(s: Seq<char>) -> bool {
    encode_utf8(s).len() < 0x1_0000_0000_0000_0000
}

/// Relies on std's `String::from_utf8`: it succeeds exactly on the UTF-8
/// encodings, and returns the characters those bytes encode.
#[verifier::external_body]
pub(crate) fn string_from_utf8(bytes: Vec<u8>) -> (r: Option<String>)
    ensures
        r is Some <==> valid_utf8(bytes@),
        r matches Some(s) ==> s@ == decode_utf8(bytes@),
{
    String::from_utf8(bytes).ok()
}

/// Appends the length-prefixed UTF-8 layout of `s` to `out`.
fn push_string(out: &mut Vec<u8>, s: &str)
    ensures
        final(out)@ == old(out)@ + enc_str(s@),
        str_fits(s@),
{
    let bytes: &[u8] = s.as_bytes();
    push_u64(out, bytes.len() as u64);
    out.extend_from_slice(bytes);
    proof {
        assert(forall|i: int|
            0 <= i < bytes@.len() ==> final(out)@[old(out)@.len() + 8 + i] == bytes@[i]);
        assert(final(out)@ =~= old(out)@ + enc_str(s@));
    }
}

/// Reads one length-prefixed UTF-8 string starting at `pos`.
///
/// On success the consumed bytes are exactly the layout of the returned
/// string; and whenever the bytes at `pos` are the layout of some character
/// sequence, the read succeeds and returns exactly that sequence.
fn read_string(data: &[u8], pos: usize) -> (r: Option<(String, usize)>)
    ensures
        r matches Some((s, end)) ==> {
            &&& pos <= end <= data@.len()
            &&& data@.subrange(pos as int, end as int) == enc_str(s@)
            &&& end == pos + enc_str(s@).len()
        },
        forall|cs: Seq<char>|
            {
                &&& str_fits(cs)
                &&& pos + enc_str(cs).len() <= data@.len()
                &&& data@.subrange(pos as int, pos + #[trigger] enc_str(cs).len()) == enc_str(cs)
            } ==> (r matches Some((s, end)) && s@ == cs && end == pos + enc_str(cs).len()),
{
    broadcast use vstd::utf8::group_utf8_lib;

    let (len64, p8) = match read_u64(data, pos) {
        Some(v) => v,
        None => {
            proof {
                lemma_read_string_none(data@, pos as int);
            }
            return None;
        },
    };
    if !(len64 <= (data.len() - p8) as u64) {
        proof {
            lemma_read_string_short(data@, pos as int, len64);
        }
        return None;
    }
    let len = len64 as usize;
    let raw = vstd::slice::slice_subrange(data, p8, p8 + len);
    let bytes = vstd::slice::slice_to_vec(raw);
    match string_from_utf8(bytes) {
        Some(s) => {
            proof {
                lemma_read_string_ok(data@, pos as int, len64, s@);
            }
            Some((s, p8 + len))
        },
        None => {
            proof {
                lemma_read_string_invalid(data@, pos as int, len64);
            }
            None
        },
    }
}

/// If even the length prefix is missing, no layout of any string starts here.
proof fn lemma_read_string_none(data: Seq<u8>, pos: int)
    requires
        !(pos + 8 <= data.len()),
    ensures
        forall|cs: Seq<char>|
            !{
                &&& str_fits(cs)
                &&& pos + enc_str(cs).len() <= data.len()
                &&& data.subrange(pos, pos + #[trigger] enc_str(cs).len()) == enc_str(cs)
            },
{
}

/// If the prefix promises more bytes than remain, no string whose layout
/// starts with that prefix fits here.
proof fn lemma_read_string_short(data: Seq<u8>, pos: int, len64: u64)
    requires
        0 <= pos,
        pos + 8 <= data.len(),
        data.subrange(pos, pos + 8) == le64(len64),
        !(len64 <= data.len() - (pos + 8)),
    ensures
        forall|cs: Seq<char>|
            !{
                &&& str_fits(cs)
                &&& pos + enc_str(cs).len() <= data.len()
                &&& data.subrange(pos, pos + #[trigger] enc_str(cs).len()) == enc_str(cs)
            },
{
    assert forall|cs: Seq<char>|
        {
            &&& str_fits(cs)
            &&& pos + enc_str(cs).len() <= data.len()
            &&& data.subrange(pos, pos + #[trigger] enc_str(cs).len()) == enc_str(cs)
        } implies false by {
        let n = encode_utf8(cs).len() as u64;
        assert(data.subrange(pos, pos + 8) =~= data.subrange(pos, pos + enc_str(cs).len()).subrange(
            0,
            8,
        ));
        assert(enc_str(cs).subrange(0, 8) =~= le64(n));
        lemma_le64_seq_inj(len64, n);
    }
}

/// The bytes behind a length prefix are invalid UTF-8: no string's layout
/// starts here.
proof fn lemma_read_string_invalid(data: Seq<u8>, pos: int, len64: u64)
    requires
        0 <= pos,
        pos + 8 <= data.len(),
        data.subrange(pos, pos + 8) == le64(len64),
        len64 <= data.len() - (pos + 8),
        !valid_utf8(data.subrange(pos + 8, pos + 8 + len64)),
    ensures
        forall|cs: Seq<char>|
            !{
                &&& str_fits(cs)
                &&& pos + enc_str(cs).len() <= data.len()
                &&& data.subrange(pos, pos + #[trigger] enc_str(cs).len()) == enc_str(cs)
            },
{
    broadcast use vstd::utf8::group_utf8_lib;

    assert forall|cs: Seq<char>|
        {
            &&& str_fits(cs)
            &&& pos + enc_str(cs).len() <= data.len()
            &&& data.subrange(pos, pos + #[trigger] enc_str(cs).len()) == enc_str(cs)
        } implies false by {
        let n = encode_utf8(cs).len() as u64;
        assert(data.subrange(pos, pos + 8) =~= data.subrange(pos, pos + enc_str(cs).len()).subrange(
            0,
            8,
        ));
        assert(enc_str(cs).subrange(0, 8) =~= le64(n));
        lemma_le64_seq_inj(len64, n);
        assert(data.subrange(pos + 8, pos + 8 + len64) =~= data.subrange(
            pos,
            pos + enc_str(cs).len(),
        ).subrange(8, enc_str(cs).len() as int));
        assert(enc_str(cs).subrange(8, enc_str(cs).len() as int) =~= encode_utf8(cs));
        assert(valid_utf8(encode_utf8(cs)));
    }
}

/// The successful read consumed exactly the layout of the returned string,
/// and any string whose layout starts here has these characters.
proof fn lemma_read_string_ok(data: Seq<u8>, pos: int, len64: u64, sv: Seq<char>)
    requires
        0 <= pos,
        pos + 8 <= data.len(),
        data.subrange(pos, pos + 8) == le64(len64),
        len64 <= data.len() - (pos + 8),
        valid_utf8(data.subrange(pos + 8, pos + 8 + len64)),
        sv == decode_utf8(data.subrange(pos + 8, pos + 8 + len64)),
    ensures
        data.subrange(pos, pos + enc_str(sv).len()) == enc_str(sv),
        enc_str(sv).len() == 8 + len64,
        forall|cs: Seq<char>|
            {
                &&& str_fits(cs)
                &&& pos + enc_str(cs).len() <= data.len()
                &&& data.subrange(pos, pos + #[trigger] enc_str(cs).len()) == enc_str(cs)
            } ==> cs == sv,
{
    broadcast use vstd::utf8::group_utf8_lib;

    let raw = data.subrange(pos + 8, pos + 8 + len64);
    assert(encode_utf8(sv) == raw);
    assert(enc_str(sv).len() == 8 + len64);
    assert(data.subrange(pos, pos + enc_str(sv).len()) =~= le64(len64) + raw);
    assert(enc_str(sv) =~= le64(len64) + raw);
    assert forall|cs: Seq<char>|
        {
            &&& str_fits(cs)
            &&& pos + enc_str(cs).len() <= data.len()
            &&& data.subrange(pos, pos + #[trigger] enc_str(cs).len()) == enc_str(cs)
        } implies cs == sv by {
        let n = encode_utf8(cs).len() as u64;
        assert(data.subrange(pos, pos + 8) =~= data.subrange(pos, pos + enc_str(cs).len()).subrange(
            0,
            8,
        ));
        assert(enc_str(cs).subrange(0, 8) =~= le64(n));
        lemma_le64_seq_inj(len64, n);
        assert(data.subrange(pos + 8, pos + 8 + len64) =~= data.subrange(
            pos,
            pos + enc_str(cs).len(),
        ).subrange(8, enc_str(cs).len() as int));
        assert(enc_str(cs).subrange(8, enc_str(cs).len() as int) =~= encode_utf8(cs));
        assert(encode_utf8(cs) == raw);
        assert(decode_utf8(encode_utf8(cs)) == cs);
    }
}

/// The layout of a list of character sequences: a count prefix followed by
/// each sequence's length-prefixed UTF-8 bytes.
pub open spec fn enc_str_list(ss: Seq<Seq<char>>) -> Seq<u8>
    decreases ss.len(),
{
    if ss.len() == 0 {
        seq![]
    } else {
        enc_str(ss[0]) + enc_str_list(ss.drop_first())
    }
}

/// A list of character sequences laid out behind its count prefix.
pub open spec fn list_enc(ss: Seq<Seq<char>>) -> Seq<u8> {
    le64(ss.len() as u64) + enc_str_list(ss)
}

/// Whether every sequence of a list, and the list itself, is small enough
/// for the length prefixes. Every list held by a real `Vec<String>` is.
pub open spec fn list_fits(ss: Seq<Seq<char>>) -> bool {
    &&& ss.len() < 0x1_0000_0000_0000_0000
    &&& forall|i: int| 0 <= i < ss.len() ==> str_fits(#[trigger] ss[i])
}

/// The binary layout of a whole entry: its readings, its gloss, its tags.
pub open spec fn encode_spec(ev: EntryModel) -> Seq<u8> {
    list_enc(ev.readings) + enc_str(ev.gloss) + list_enc(ev.tags)
}

/// Whether an entry is small enough for every length prefix of its layout.
/// Every value of [`DictionaryEntry`] is.
pub open spec fn entry_fits(ev: EntryModel) -> bool {
    &&& list_fits(ev.readings)
    &&& str_fits(ev.gloss)
    &&& list_fits(ev.tags)
}

/// UTF-8 encoding is injective: equal encodings come from equal texts.
pub proof fn lemma_encode_utf8_inj(a: Seq<char>, b: Seq<char>)
    requires
        encode_utf8(a) == encode_utf8(b),
    ensures
        a == b,
{
    broadcast use vstd::utf8::group_utf8_lib;

    assert(decode_utf8(encode_utf8(a)) == a);
    assert(decode_utf8(encode_utf8(b)) == b);
}

/// Two fitting character sequences with the same layout are the same.
proof fn lemma_enc_str_inj(a: Seq<char>, b: Seq<char>)
    requires
        str_fits(a),
        str_fits(b),
        enc_str(a) == enc_str(b),
    ensures
        a == b,
{
    let la = encode_utf8(a).len() as u64;
    let lb = encode_utf8(b).len() as u64;
    assert(enc_str(a).subrange(0, 8) =~= le64(la));
    assert(enc_str(b).subrange(0, 8) =~= le64(lb));
    lemma_le64_seq_inj(la, lb);
    assert(encode_utf8(a) =~= enc_str(a).subrange(8, enc_str(a).len() as int));
    assert(encode_utf8(b) =~= enc_str(b).subrange(8, enc_str(b).len() as int));
    lemma_encode_utf8_inj(a, b);
}

proof fn lemma_enc_str_list_push(ss: Seq<Seq<char>>, s: Seq<char>)
    ensures
        enc_str_list(ss.push(s)) == enc_str_list(ss) + enc_str(s),
    decreases ss.len(),
{
    if ss.len() == 0 {
        assert(ss.push(s)[0] == s);
        assert(ss.push(s).drop_first() =~= ss);
        assert(enc_str_list(ss.push(s)) =~= enc_str_list(ss) + enc_str(s));
    } else {
        assert(ss.push(s).drop_first() =~= ss.drop_first().push(s));
        lemma_enc_str_list_push(ss.drop_first(), s);
        assert(enc_str_list(ss.push(s)) =~= enc_str_list(ss) + enc_str(s));
    }
}

/// Aligns two list layouts laid over the same bytes: the shorter list is a
/// prefix of the longer, and the tails line up behind it.
proof fn lemma_enc_str_list_align(
    xs: Seq<Seq<char>>,
    ys: Seq<Seq<char>>,
    tx: Seq<u8>,
    ty: Seq<u8>,
)
    requires
        xs.len() <= ys.len(),
        forall|i: int| 0 <= i < xs.len() ==> str_fits(#[trigger] xs[i]),
        forall|i: int| 0 <= i < ys.len() ==> str_fits(#[trigger] ys[i]),
        enc_str_list(xs) + tx == enc_str_list(ys) + ty,
    ensures
        xs =~= ys.take(xs.len() as int),
        tx == enc_str_list(ys.skip(xs.len() as int)) + ty,
    decreases xs.len(),
{
    if xs.len() == 0 {
        assert(enc_str_list(xs) + tx =~= tx);
        assert(ys.skip(0) =~= ys);
    } else {
        let all = enc_str_list(xs) + tx;
        let x0 = xs[0];
        let y0 = ys[0];
        let lx = enc_str(x0).len() as int;
        let ly = enc_str(y0).len() as int;
        assert(enc_str(x0) =~= all.subrange(0, lx));
        assert(enc_str(y0) =~= (enc_str_list(ys) + ty).subrange(0, ly));
        assert(all.subrange(0, 8) =~= le64(encode_utf8(x0).len() as u64));
        assert(all.subrange(0, 8) =~= le64(encode_utf8(y0).len() as u64));
        lemma_le64_seq_inj(encode_utf8(x0).len() as u64, encode_utf8(y0).len() as u64);
        assert(lx == ly);
        lemma_enc_str_inj(x0, y0);
        let tail = all.subrange(lx, all.len() as int);
        assert(enc_str_list(xs.drop_first()) + tx =~= tail);
        assert(enc_str_list(ys.drop_first()) + ty =~= tail);
        lemma_enc_str_list_align(xs.drop_first(), ys.drop_first(), tx, ty);
        assert(xs =~= ys.take(xs.len() as int));
        assert(ys.drop_first().skip(xs.len() - 1) =~= ys.skip(xs.len() as int));
    }
}

/// Two fitting entries with the same layout are the same entry.
pub proof fn lemma_encode_spec_inj(ev1: EntryModel, ev2: EntryModel)
    requires
        entry_fits(ev1),
        entry_fits(ev2),
        encode_spec(ev1) == encode_spec(ev2),
    ensures
        ev1.readings == ev2.readings,
        ev1.gloss == ev2.gloss,
        ev1.tags == ev2.tags,
{
    let b = encode_spec(ev1);
    assert(b.subrange(0, 8) =~= le64(ev1.readings.len() as u64));
    assert(b.subrange(0, 8) =~= le64(ev2.readings.len() as u64));
    lemma_le64_seq_inj(ev1.readings.len() as u64, ev2.readings.len() as u64);
    let rest1 = enc_str(ev1.gloss) + list_enc(ev1.tags);
    let rest2 = enc_str(ev2.gloss) + list_enc(ev2.tags);
    assert(enc_str_list(ev1.readings) + rest1 =~= b.skip(8));
    assert(enc_str_list(ev2.readings) + rest2 =~= b.skip(8));
    lemma_enc_str_list_align(ev1.readings, ev2.readings, rest1, rest2);
    assert(ev1.readings =~= ev2.readings);
    assert(ev2.readings.skip(ev1.readings.len() as int) =~= Seq::<Seq<char>>::empty());
    assert(rest1 == rest2);
    let lg1 = enc_str(ev1.gloss).len() as int;
    let lg2 = enc_str(ev2.gloss).len() as int;
    assert(rest1.subrange(0, 8) =~= le64(encode_utf8(ev1.gloss).len() as u64));
    assert(rest1.subrange(0, 8) =~= le64(encode_utf8(ev2.gloss).len() as u64));
    lemma_le64_seq_inj(encode_utf8(ev1.gloss).len() as u64, encode_utf8(ev2.gloss).len() as u64);
    assert(enc_str(ev1.gloss) =~= rest1.subrange(0, lg1));
    assert(enc_str(ev2.gloss) =~= rest1.subrange(0, lg2));
    lemma_enc_str_inj(ev1.gloss, ev2.gloss);
    let t1 = rest1.skip(lg1);
    assert(list_enc(ev1.tags) =~= t1);
    assert(list_enc(ev2.tags) =~= t1);
    assert(t1.subrange(0, 8) =~= le64(ev1.tags.len() as u64));
    assert(t1.subrange(0, 8) =~= le64(ev2.tags.len() as u64));
    lemma_le64_seq_inj(ev1.tags.len() as u64, ev2.tags.len() as u64);
    assert(enc_str_list(ev1.tags) + Seq::<u8>::empty() =~= t1.skip(8));
    assert(enc_str_list(ev2.tags) + Seq::<u8>::empty() =~= t1.skip(8));
    lemma_enc_str_list_align(ev1.tags, ev2.tags, Seq::<u8>::empty(), Seq::<u8>::empty());
    assert(ev1.tags =~= ev2.tags);
}

/// Appends the count-prefixed layout of a string list to `out`.
fn push_str_list(out: &mut Vec<u8>, v: &Vec<String>)
    ensures
        final(out)@ == old(out)@ + list_enc(v.deep_view()),
        list_fits(v.deep_view()),
{
    let ghost dv = v.deep_view();
    push_u64(out, v.len() as u64);
    let ghost mid = out@;
    let mut i: usize = 0;
    while i < v.len()
        invariant
            i <= v.len(),
            dv == v.deep_view(),
            dv.len() == v@.len(),
            out@ == mid + enc_str_list(dv.take(i as int)),
            forall|j: int| 0 <= j < i ==> str_fits(#[trigger] dv[j]),
        decreases v.len() - i,
    {
        proof {
            assert(dv.take(i + 1) =~= dv.take(i as int).push(dv[i as int]));
            lemma_enc_str_list_push(dv.take(i as int), dv[i as int]);
            assert(dv[i as int] == v@[i as int]@);
        }
        push_string(out, v[i].as_str());
        i += 1;
    }
    proof {
        assert(dv.take(v@.len() as int) =~= dv);
        assert(final(out)@ =~= old(out)@ + list_enc(dv));
    }
}

/// The full layout of one entry, as [`encode_spec`] describes it.
fn encode_entry(e: &DictionaryEntry) -> (out: Vec<u8>)
    ensures
        out@ == encode_spec(e@),
        entry_fits(e@),
{
    let mut out: Vec<u8> = Vec::new();
    push_str_list(&mut out, &e.readings);
    push_string(&mut out, e.gloss.as_str());
    push_str_list(&mut out, &e.tags);
    proof {
        assert(out@ =~= encode_spec(e@));
    }
    out
}

/// Whether a byte sequence is the layout of some entry.
pub open spec fn is_entry_layout(v: Seq<u8>) -> bool {
    exists|ev: EntryModel| entry_fits(ev) && v == #[trigger] encode_spec(ev)
}

/// The entry whose layout a byte sequence is. Well defined on entry
/// layouts, since two fitting entries never share a layout
/// ([`lemma_encode_spec_inj`]).
pub open spec fn layout_entry(v: Seq<u8>) -> EntryModel {
    choose|ev: EntryModel| entry_fits(ev) && v == #[trigger] encode_spec(ev)
}

/// On an entry's layout, [`layout_entry`] gives exactly that entry.
pub proof fn lemma_layout_entry_of_encoding(ev: EntryModel)
    requires
        entry_fits(ev),
    ensures
        is_entry_layout(encode_spec(ev)),
        layout_entry(encode_spec(ev)) == ev,
{
    let v = encode_spec(ev);
    assert(is_entry_layout(v));
    let w = layout_entry(v);
    lemma_encode_spec_inj(ev, w);
    assert(ev =~= w);
}

/// Reads one count-prefixed string list starting at `pos`.
///
/// On success the consumed bytes are exactly the layout of the returned
/// list; on failure no list's layout starts at `pos` within `data`.
fn read_str_list(data: &[u8], pos: usize) -> (r: Option<(Vec<String>, usize)>)
    ensures
        r matches Some((v, end)) ==> {
            &&& pos <= end <= data@.len()
            &&& data@.subrange(pos as int, end as int) == list_enc(v.deep_view())
            &&& end == pos + list_enc(v.deep_view()).len()
            &&& list_fits(v.deep_view())
        },
        r is None ==> forall|ss: Seq<Seq<char>>|
            !{
                &&& list_fits(ss)
                &&& pos + list_enc(ss).len() <= data@.len()
                &&& data@.subrange(pos as int, pos + #[trigger] list_enc(ss).len()) == list_enc(ss)
            },
{
    let (count, p0) = match read_u64(data, pos) {
        Some(v) => v,
        None => {
            proof {
                assert forall|ss: Seq<Seq<char>>|
                    {
                        &&& list_fits(ss)
                        &&& pos + list_enc(ss).len() <= data@.len()
                        &&& data@.subrange(pos as int, pos + #[trigger] list_enc(ss).len())
                            == list_enc(ss)
                    } implies false by {}
            }
            return None;
        },
    };
    let mut v: Vec<String> = Vec::new();
    let mut p = p0;
    let mut i: u64 = 0;
    while i < count
        invariant
            i <= count,
            pos + 8 <= data@.len(),
            p0 == pos + 8,
            pos + 8 <= p <= data@.len(),
            data@.subrange(pos as int, pos + 8) == le64(count),
            v.deep_view().len() == i,
            data@.subrange(pos + 8, p as int) == enc_str_list(v.deep_view()),
            forall|j: int| 0 <= j < i ==> str_fits(#[trigger] v.deep_view()[j]),
        decreases count - i,
    {
        let ghost xs = v.deep_view();
        match read_string(data, p) {
            Some((s, np)) => {
                proof {
                    lemma_enc_str_list_push(xs, s@);
                }
                let ghost old_v = v;
                v.push(s);
                proof {
                    assert(v.deep_view() =~= xs.push(s@));
                    assert(data@.subrange(pos + 8, np as int) =~= enc_str_list(xs) + enc_str(
                        s@,
                    ));
                }
                p = np;
                i = i + 1;
            },
            None => {
                proof {
                    assert forall|ss: Seq<Seq<char>>|
                        {
                            &&& list_fits(ss)
                            &&& pos + list_enc(ss).len() <= data@.len()
                            &&& data@.subrange(pos as int, pos + #[trigger] list_enc(ss).len()) == list_enc(ss)
                        } implies false by {
                        lemma_list_read_must_go_on(data@, pos as int, p as int, count, xs, ss, i);
                    }
                }
                return None;
            },
        }
    }
    proof {
        assert(data@.subrange(pos as int, p as int) =~= list_enc(v.deep_view()));
    }
    Some((v, p))
}

/// Mid-list, with `i` of `count` strings read and a list layout laid over
/// the same bytes, another string's layout must start at the cursor.
proof fn lemma_list_read_must_go_on(
    data: Seq<u8>,
    pos: int,
    p: int,
    count: u64,
    xs: Seq<Seq<char>>,
    ss: Seq<Seq<char>>,
    i: u64,
)
    requires
        0 <= pos,
        pos + 8 <= p <= data.len(),
        data.subrange(pos, pos + 8) == le64(count),
        xs.len() == i < count,
        data.subrange(pos + 8, p) == enc_str_list(xs),
        forall|j: int| 0 <= j < xs.len() ==> str_fits(#[trigger] xs[j]),
        list_fits(ss),
        pos + list_enc(ss).len() <= data.len(),
        data.subrange(pos, pos + list_enc(ss).len()) == list_enc(ss),
    ensures
        ({
            let cs = ss[i as int];
            &&& str_fits(cs)
            &&& p + enc_str(cs).len() <= data.len()
            &&& data.subrange(p, p + enc_str(cs).len()) == enc_str(cs)
        }),
{
    let le = list_enc(ss).len() as int;
    assert(data.subrange(pos, pos + 8) =~= data.subrange(pos, le + pos).subrange(0, 8));
    assert(list_enc(ss).subrange(0, 8) =~= le64(ss.len() as u64));
    lemma_le64_seq_inj(count, ss.len() as u64);
    assert(ss.len() == count);
    let t = data.subrange(pos + 8, data.len() as int);
    assert(enc_str_list(xs) + data.subrange(p, data.len() as int) =~= t);
    assert(data.subrange(pos + 8, pos + le) =~= enc_str_list(ss));
    assert(enc_str_list(ss) + data.subrange(pos + le, data.len() as int) =~= t);
    lemma_enc_str_list_align(
        xs,
        ss,
        data.subrange(p, data.len() as int),
        data.subrange(pos + le, data.len() as int),
    );
    let rest = ss.skip(i as int);
    assert(data.subrange(p, data.len() as int) == enc_str_list(rest) + data.subrange(
        pos + le,
        data.len() as int,
    ));
    assert(rest.len() > 0);
    assert(enc_str_list(rest) == enc_str(rest[0]) + enc_str_list(rest.drop_first()));
    let cs = ss[i as int];
    assert(rest[0] == cs);
    assert(str_fits(cs));
    assert(p + enc_str(cs).len() <= data.len());
    assert(data.subrange(p, p + enc_str(cs).len()) =~= (enc_str_list(rest) + data.subrange(
        pos + le,
        data.len() as int,
    )).subrange(0, enc_str(cs).len() as int));
    assert((enc_str_list(rest) + data.subrange(pos + le, data.len() as int)).subrange(
        0,
        enc_str(cs).len() as int,
    ) =~= enc_str(cs));
}

/// After the readings of an entry layout have been read, the bytes read so
/// far are that layout's readings, and the gloss layout starts at the cursor.
proof fn lemma_align_readings(data: Seq<u8>, ev: EntryModel, dv: Seq<Seq<char>>, end1: int)
    requires
        entry_fits(ev),
        data == encode_spec(ev),
        list_fits(dv),
        0 <= end1 <= data.len(),
        data.subrange(0, end1) == list_enc(dv),
        end1 == list_enc(dv).len(),
    ensures
        dv == ev.readings,
        end1 == list_enc(ev.readings).len(),
        data.subrange(end1, data.len() as int) == enc_str(ev.gloss) + list_enc(ev.tags),
{
    assert(data.subrange(0, 8) =~= list_enc(dv).subrange(0, 8));
    assert(list_enc(dv).subrange(0, 8) =~= le64(dv.len() as u64));
    assert(data.subrange(0, 8) =~= le64(ev.readings.len() as u64));
    lemma_le64_seq_inj(dv.len() as u64, ev.readings.len() as u64);
    let t = data.subrange(8, data.len() as int);
    assert(data.subrange(8, end1) =~= enc_str_list(dv));
    assert(enc_str_list(dv) + data.subrange(end1, data.len() as int) =~= t);
    assert(enc_str_list(ev.readings) + (enc_str(ev.gloss) + list_enc(ev.tags)) =~= t);
    lemma_enc_str_list_align(
        dv,
        ev.readings,
        data.subrange(end1, data.len() as int),
        enc_str(ev.gloss) + list_enc(ev.tags),
    );
    assert(dv =~= ev.readings);
    assert(ev.readings.skip(dv.len() as int) =~= Seq::<Seq<char>>::empty());
    assert(data.subrange(end1, data.len() as int) =~= enc_str(ev.gloss) + list_enc(ev.tags));
}

/// After the gloss of an entry layout has been read, the gloss matches the
/// layout's, and the tag list layout is exactly the remaining bytes.
proof fn lemma_align_gloss(data: Seq<u8>, ev: EntryModel, g: Seq<char>, end1: int, end2: int)
    requires
        entry_fits(ev),
        0 <= end1 <= end2 <= data.len(),
        data.subrange(end1, data.len() as int) == enc_str(ev.gloss) + list_enc(ev.tags),
        str_fits(g),
        data.subrange(end1, end2) == enc_str(g),
        end2 == end1 + enc_str(g).len(),
    ensures
        g == ev.gloss,
        data.subrange(end2, data.len() as int) == list_enc(ev.tags),
{
    let t = data.subrange(end1, data.len() as int);
    assert(data.subrange(end1, end1 + 8) =~= t.subrange(0, 8));
    assert(t.subrange(0, 8) =~= le64(encode_utf8(ev.gloss).len() as u64));
    assert(data.subrange(end1, end1 + 8) =~= enc_str(g).subrange(0, 8));
    assert(enc_str(g).subrange(0, 8) =~= le64(encode_utf8(g).len() as u64));
    lemma_le64_seq_inj(encode_utf8(g).len() as u64, encode_utf8(ev.gloss).len() as u64);
    assert(t.subrange(0, enc_str(ev.gloss).len() as int) =~= enc_str(ev.gloss));
    assert(data.subrange(end1, end2) =~= t.subrange(0, enc_str(g).len() as int));
    lemma_enc_str_inj(g, ev.gloss);
    assert(data.subrange(end2, data.len() as int) =~= t.subrange(
        enc_str(ev.gloss).len() as int,
        t.len() as int,
    ));
    assert(t.subrange(enc_str(ev.gloss).len() as int, t.len() as int) =~= list_enc(ev.tags));
}

/// After the tag list of an entry layout has been read, the tags match the
/// layout's, and the layout ends exactly at the cursor.
proof fn lemma_align_tags(data: Seq<u8>, ev: EntryModel, tv: Seq<Seq<char>>, end2: int, end3: int)
    requires
        entry_fits(ev),
        0 <= end2 <= end3 <= data.len(),
        data.subrange(end2, data.len() as int) == list_enc(ev.tags),
        list_fits(tv),
        data.subrange(end2, end3) == list_enc(tv),
        end3 == end2 + list_enc(tv).len(),
    ensures
        tv == ev.tags,
        end3 == data.len(),
{
    let t = data.subrange(end2, data.len() as int);
    assert(data.subrange(end2, end2 + 8) =~= t.subrange(0, 8));
    assert(t.subrange(0, 8) =~= le64(ev.tags.len() as u64));
    assert(data.subrange(end2, end2 + 8) =~= list_enc(tv).subrange(0, 8));
    assert(list_enc(tv).subrange(0, 8) =~= le64(tv.len() as u64));
    lemma_le64_seq_inj(tv.len() as u64, ev.tags.len() as u64);
    assert(enc_str_list(tv) + data.subrange(end3, data.len() as int) =~= data.subrange(
        end2 + 8,
        data.len() as int,
    ));
    assert(enc_str_list(ev.tags) + Seq::<u8>::empty() =~= data.subrange(
        end2 + 8,
        data.len() as int,
    ));
    lemma_enc_str_list_align(
        tv,
        ev.tags,
        data.subrange(end3, data.len() as int),
        Seq::<u8>::empty(),
    );
    assert(tv =~= ev.tags);
    assert(ev.tags.skip(tv.len() as int) =~= Seq::<Seq<char>>::empty());
    assert(data.subrange(end3, data.len() as int) =~= Seq::<u8>::empty());
    assert(data.subrange(end3, data.len() as int).len() == 0);
}

/// Decodes one entry from its binary layout.
///
/// Fails exactly on the byte sequences that are not the layout of any
/// entry; on the layout of an entry it returns that entry. Together with
/// [`encode_entry`] this makes the codec a bijection between entries and
/// their layouts: decoding an encoding gives back the encoded entry.
fn decode_entry(data: &[u8]) -> (r: Option<DictionaryEntry>)
    ensures
        r matches Some(d) ==> entry_fits(d@) && data@ == encode_spec(d@),
        r is None ==> forall|ev: EntryModel|
            !(entry_fits(ev) && data@ == #[trigger] encode_spec(ev)),
{
    let (readings, end1) = match read_str_list(data, 0) {
        Some(v) => v,
        None => {
            proof {
                assert forall|ev: EntryModel|
                    !(entry_fits(ev) && data@ == #[trigger] encode_spec(ev)) by {
                    if entry_fits(ev) && data@ == encode_spec(ev) {
                        assert(data@.subrange(0, list_enc(ev.readings).len() as int) =~= list_enc(
                            ev.readings,
                        ));
                    }
                }
            }
            return None;
        },
    };
    let (gloss, end2) = match read_string(data, end1) {
        Some(v) => v,
        None => {
            proof {
                assert forall|ev: EntryModel|
                    !(entry_fits(ev) && data@ == #[trigger] encode_spec(ev)) by {
                    if entry_fits(ev) && data@ == encode_spec(ev) {
                        lemma_align_readings(data@, ev, readings.deep_view(), end1 as int);
                        let cs = ev.gloss;
                        assert(data@.subrange(end1 as int, end1 + enc_str(cs).len()) =~= enc_str(
                            cs,
                        ));
                    }
                }
            }
            return None;
        },
    };
    let (tags, end3) = match read_str_list(data, end2) {
        Some(v) => v,
        None => {
            proof {
                assert forall|ev: EntryModel|
                    !(entry_fits(ev) && data@ == #[trigger] encode_spec(ev)) by {
                    if entry_fits(ev) && data@ == encode_spec(ev) {
                        lemma_align_readings(data@, ev, readings.deep_view(), end1 as int);
                        lemma_align_gloss(data@, ev, gloss@, end1 as int, end2 as int);
                        assert(end2 + list_enc(ev.tags).len() == data@.len());
                        assert(data@.subrange(end2 as int, end2 + list_enc(ev.tags).len())
                            =~= list_enc(ev.tags));
                    }
                }
            }
            return None;
        },
    };
    if end3 != data.len() {
        proof {
            assert forall|ev: EntryModel|
                !(entry_fits(ev) && data@ == #[trigger] encode_spec(ev)) by {
                if entry_fits(ev) && data@ == encode_spec(ev) {
                    lemma_align_readings(data@, ev, readings.deep_view(), end1 as int);
                    lemma_align_gloss(data@, ev, gloss@, end1 as int, end2 as int);
                    lemma_align_tags(data@, ev, tags.deep_view(), end2 as int, end3 as int);
                }
            }
        }
        return None;
    }
    let d = DictionaryEntry { readings, gloss, tags };
    proof {
        assert(data@ =~= encode_spec(d@));
    }
    Some(d)
}

impl DictionaryEntry {
    /// Encodes this entry into its compact binary layout.
    ///
    /// Encoding is deterministic and total: the bytes are a function of the
    /// entry value alone, and every entry has a layout.
    pub fn serialize_fast(&self) -> (r: Vec<u8>)
        ensures
            r@ == encode_spec(self@),
            entry_fits(self@),
    {
        encode_entry(self)
    }

    /// Encodes this entry into its compact binary layout.
    ///
    /// Always succeeds; the `Result` mirrors the storage interfaces that
    /// call it.
    pub fn serialize(&self) -> (r: Result<Vec<u8>, Error>)
        ensures
            r is Ok,
            r matches Ok(b) ==> b@ == encode_spec(self@),
            entry_fits(self@),
    {
        Ok(encode_entry(self))
    }

    /// Decodes an entry from its binary layout.
    ///
    /// Succeeds exactly on the byte sequences that are the layout of an
    /// entry, and then returns that entry: decoding an encoding gives back
    /// the encoded entry, for every entry. Any other input fails with
    /// [`Error::CorruptEntry`].
    pub fn deserialize(data: &[u8]) -> (r: Result<Self, Error>)
        ensures
            r matches Ok(d) ==> entry_fits(d@) && data@ == encode_spec(d@),
            forall|ev: EntryModel|
                entry_fits(ev) && data@ == #[trigger] encode_spec(ev) ==> (r matches Ok(d) && d@
                    == ev),
            r matches Err(e) ==> e is CorruptEntry,
    {
        match decode_entry(data) {
            Some(d) => {
                proof {
                    assert forall|ev: EntryModel|
                        entry_fits(ev) && data@ == #[trigger] encode_spec(ev) implies d@
                        == ev by {
                        lemma_encode_spec_inj(d@, ev);
                        assert(d@ =~= ev);
                    }
                }
                Ok(d)
            },
            None => Err(Error::CorruptEntry),
        }
    }

    /// Decodes an entry from bytes known to be an entry's layout, as the
    /// disk-backed backend stores them.
    pub fn deserialize_fast(data: &[u8]) -> (r: Self)
        requires
            exists|ev: EntryModel| entry_fits(ev) && data@ == #[trigger] encode_spec(ev),
        ensures
            entry_fits(r@),
            data@ == encode_spec(r@),
    {
        match Self::deserialize(data) {
            Ok(d) => d,
            Err(_) => {
                proof {
                    let ev = choose|ev: EntryModel|
                        entry_fits(ev) && data@ == #[trigger] encode_spec(ev);
                    assert(entry_fits(ev) && data@ == encode_spec(ev));
                    assert(false);
                }
                unreached()
            },
        }
    }
}

} // verus!
