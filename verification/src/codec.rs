//! The persisted byte layout: little-endian integers, length-prefixed UTF-8
//! strings, and the two disjoint key namespaces (`m` for melodies, `g` for
//! games) that share one key-value store.
//!
//! Every encoder states the exact bytes it produces; every decoder states
//! that it recovers exactly the value any encoding came from.

use vstd::prelude::*;
use vstd::utf8::*;
use vstd::string::StrSliceExecFns;
use crate::{Game, GameModel, Melody, MelodyModel};

verus! {

// ----------------------------------------------------------------------------
// u64, little endian, 8 bytes
// ----------------------------------------------------------------------------

/// The eight little-endian bytes of `x`.
pub open spec fn u64_le(x: u64) -> Seq<u8> {
    seq![
        (x & 0xff) as u8,
        ((x >> 8) & 0xff) as u8,
        ((x >> 16) & 0xff) as u8,
        ((x >> 24) & 0xff) as u8,
        ((x >> 32) & 0xff) as u8,
        ((x >> 40) & 0xff) as u8,
        ((x >> 48) & 0xff) as u8,
        ((x >> 56) & 0xff) as u8,
    ]
}

/// The value read back from eight little-endian bytes.
pub open spec fn u64_of_le(b: Seq<u8>) -> u64
    recommends
        b.len() == 8,
{
    ((b[0] as u64) | ((b[1] as u64) << 8) | ((b[2] as u64) << 16) | ((b[3] as u64) << 24)
        | ((b[4] as u64) << 32) | ((b[5] as u64) << 40) | ((b[6] as u64) << 48) | ((b[7]
        as u64) << 56)) as u64
}

pub proof fn lemma_u64_le_round_trip(x: u64)
    ensures
        u64_of_le(u64_le(x)) == x,
{
    assert((((x & 0xff) as u8) as u64) | ((((x >> 8) & 0xff) as u8) as u64) << 8 | ((((x >> 16)
        & 0xff) as u8) as u64) << 16 | ((((x >> 24) & 0xff) as u8) as u64) << 24 | ((((x >> 32)
        & 0xff) as u8) as u64) << 32 | ((((x >> 40) & 0xff) as u8) as u64) << 40 | ((((x >> 48)
        & 0xff) as u8) as u64) << 48 | ((((x >> 56) & 0xff) as u8) as u64) << 56 == x)
        by (bit_vector);
}

pub proof fn lemma_u64_le_injective(x: u64, y: u64)
    requires
        u64_le(x) == u64_le(y),
    ensures
        x == y,
{
    lemma_u64_le_round_trip(x);
    lemma_u64_le_round_trip(y);
}

/// Appends the eight little-endian bytes of `x`.
pub fn encode_u64(x: u64, out: &mut Vec<u8>)
    ensures
        final(out)@ == old(out)@ + u64_le(x),
{
    out.push((x & 0xff) as u8);
    out.push(((x >> 8) & 0xff) as u8);
    out.push(((x >> 16) & 0xff) as u8);
    out.push(((x >> 24) & 0xff) as u8);
    out.push(((x >> 32) & 0xff) as u8);
    out.push(((x >> 40) & 0xff) as u8);
    out.push(((x >> 48) & 0xff) as u8);
    out.push(((x >> 56) & 0xff) as u8);
    assert(out@ =~= old(out)@ + u64_le(x));
}

/// Reads a `u64` at `pos`; fails exactly when fewer than eight bytes remain.
pub fn read_u64(bytes: &Vec<u8>, pos: usize) -> (r: Option<(u64, usize)>)
    ensures
        r is Some <==> pos + 8 <= bytes@.len(),
        r matches Some(p) ==> p.0 == u64_of_le(bytes@.subrange(pos as int, pos as int + 8))
            && p.1 == pos + 8,
{
    if bytes.len() < 8 || pos > bytes.len() - 8 {
        return None;
    }
    let x: u64 = (bytes[pos] as u64) | ((bytes[pos + 1] as u64) << 8) | ((bytes[pos + 2]
        as u64) << 16) | ((bytes[pos + 3] as u64) << 24) | ((bytes[pos + 4] as u64) << 32) | ((
    bytes[pos + 5] as u64) << 40) | ((bytes[pos + 6] as u64) << 48) | ((bytes[pos + 7]
        as u64) << 56);
    proof {
        let b = bytes@.subrange(pos as int, pos as int + 8);
        assert(forall|i: int| 0 <= i < 8 ==> b[i] == bytes@[pos + i]);
    }
    Some((x, pos + 8))
}

// ----------------------------------------------------------------------------
// i64, sign byte then the magnitude as u64
// ----------------------------------------------------------------------------

/// The magnitude of `x` (for `i64::MIN` this is `2^63`, which fits a `u64`).
pub open spec fn i64_mag(x: i64) -> u64 {
    if x >= 0 {
        x as u64
    } else {
        (-(x as int)) as u64
    }
}

/// Nine bytes: a sign byte (0 non-negative, 1 negative), then the magnitude.
pub open spec fn i64_le(x: i64) -> Seq<u8> {
    seq![if x >= 0 { 0u8 } else { 1u8 }] + u64_le(i64_mag(x))
}

/// Whether the nine bytes at `pos` are a well-formed `i64` encoding.
pub open spec fn i64_at_ok(b: Seq<u8>, pos: int) -> bool {
    &&& pos + 9 <= b.len()
    &&& {
        let sign = b[pos];
        let mag = u64_of_le(b.subrange(pos + 1, pos + 9));
        ||| (sign == 0 && mag <= i64::MAX as u64)
        ||| (sign == 1 && 1 <= mag && mag <= 0x8000000000000000u64)
    }
}

/// The value of the `i64` encoding at `pos`.
pub open spec fn i64_at(b: Seq<u8>, pos: int) -> i64 {
    let sign = b[pos];
    let mag = u64_of_le(b.subrange(pos + 1, pos + 9));
    if sign == 0 {
        mag as i64
    } else {
        (-(mag as int)) as i64
    }
}

/// Appends the nine-byte encoding of `x`.
pub fn encode_i64(x: i64, out: &mut Vec<u8>)
    ensures
        final(out)@ == old(out)@ + i64_le(x),
{
    if x >= 0 {
        out.push(0u8);
        encode_u64(x as u64, out);
    } else {
        out.push(1u8);
        let mag: u64 = ((-(x + 1)) as u64) + 1;
        assert(mag == i64_mag(x));
        encode_u64(mag, out);
    }
    assert(out@ =~= old(out)@ + i64_le(x));
}

/// Reads an `i64` at `pos`; fails exactly when the bytes there are not a
/// well-formed encoding.
pub fn read_i64(bytes: &Vec<u8>, pos: usize) -> (r: Option<(i64, usize)>)
    ensures
        r is Some <==> i64_at_ok(bytes@, pos as int),
        r matches Some(p) ==> p.0 == i64_at(bytes@, pos as int) && p.1 == pos + 9,
{
    if pos >= bytes.len() {
        return None;
    }
    let sign = bytes[pos];
    let (mag, _end) = match read_u64(bytes, pos + 1) {
        Some(v) => v,
        None => { return None; },
    };
    if sign == 0 {
        if mag <= 0x7fffffffffffffffu64 {
            Some((mag as i64, pos + 9))
        } else {
            None
        }
    } else if sign == 1 {
        if 1 <= mag && mag <= 0x8000000000000000u64 {
            let x: i64 = -((mag - 1) as i64) - 1;
            assert(x == i64_at(bytes@, pos as int));
            Some((x, pos + 9))
        } else {
            None
        }
    } else {
        None
    }
}

/// A well-formed `i64` encoding at the front of a byte sequence parses back
/// to the value it came from, and leaves the rest untouched.
pub proof fn lemma_i64_at_encoding(b: Seq<u8>, pos: int, x: i64, rest: Seq<u8>)
    requires
        0 <= pos <= b.len(),
        b.subrange(pos, b.len() as int) == i64_le(x) + rest,
    ensures
        i64_at_ok(b, pos),
        i64_at(b, pos) == x,
        b.subrange(pos + 9, b.len() as int) == rest,
{
    let tail = b.subrange(pos, b.len() as int);
    assert(tail.len() == 9 + rest.len());
    assert(b[pos] == tail[0]);
    assert forall|i: int| 0 <= i < 8 implies b[pos + 1 + i] == u64_le(i64_mag(x))[i] by {
        assert(tail[1 + i] == b[pos + 1 + i]);
        assert(tail[1 + i] == i64_le(x)[1 + i]);
    }
    assert(b.subrange(pos + 1, pos + 9) =~= u64_le(i64_mag(x)));
    lemma_u64_le_round_trip(i64_mag(x));
    assert forall|i: int| 0 <= i < rest.len() implies b[pos + 9 + i] == rest[i] by {
        assert(tail[9 + i] == b[pos + 9 + i]);
        assert(tail[9 + i] == (i64_le(x) + rest)[9 + i]);
    }
    assert(b.subrange(pos + 9, b.len() as int) =~= rest);
}

// ----------------------------------------------------------------------------
// Strings: an eight-byte length, then the UTF-8 bytes
// ----------------------------------------------------------------------------

/// Whether the UTF-8 form of `s` is short enough for its length prefix.
/// Every string held in memory satisfies this.
pub open spec fn str_fits(s: Seq<char>) -> bool {
    encode_utf8(s).len() < 0x10000000000000000
}

/// The encoding of a string: its UTF-8 byte length, then its UTF-8 bytes.
pub open spec fn str_bytes(s: Seq<char>) -> Seq<u8> {
    u64_le(encode_utf8(s).len() as u64) + encode_utf8(s)
}

/// The declared end of the string encoding at `pos`.
pub open spec fn str_end_at(b: Seq<u8>, pos: int) -> int {
    pos + 8 + u64_of_le(b.subrange(pos, pos + 8))
}

/// Whether the bytes at `pos` are a well-formed string encoding.
pub open spec fn str_at_ok(b: Seq<u8>, pos: int) -> bool {
    &&& pos + 8 <= b.len()
    &&& str_end_at(b, pos) <= b.len()
    &&& valid_utf8(b.subrange(pos + 8, str_end_at(b, pos)))
}

/// The string value of the encoding at `pos`.
pub open spec fn str_at(b: Seq<u8>, pos: int) -> Seq<char> {
    decode_utf8(b.subrange(pos + 8, str_end_at(b, pos)))
}

/// Relies on `String::from_utf8`: it succeeds exactly on valid UTF-8 and
/// returns the string those bytes spell.
#[verifier::external_body]
fn string_from_utf8(v: Vec<u8>) -> (r: Option<String>)
    ensures
        r is Some <==> valid_utf8(v@),
        r matches Some(s) ==> s@ == decode_utf8(v@) && encode_utf8(s@) == v@,
{
    String::from_utf8(v).ok()
}

/// Appends the length-prefixed UTF-8 encoding of `s`.
pub fn encode_str(s: &String, out: &mut Vec<u8>)
    ensures
        final(out)@ == old(out)@ + str_bytes(s@),
        str_fits(s@),
{
    let b = s.as_str().as_bytes_vec();
    let n = b.len();
    encode_u64(n as u64, out);
    let mut i: usize = 0;
    while i < b.len()
        invariant
            b@ == encode_utf8(s@),
            i <= b@.len(),
            out@ == old(out)@ + u64_le(b@.len() as u64) + b@.subrange(0, i as int),
        decreases b@.len() - i,
    {
        out.push(b[i]);
        i = i + 1;
        assert(out@ =~= old(out)@ + u64_le(b@.len() as u64) + b@.subrange(0, i as int));
    }
    assert(out@ =~= old(out)@ + str_bytes(s@));
}

/// Reads a string at `pos`; fails exactly when the bytes there are not a
/// well-formed string encoding.
pub fn read_str(bytes: &Vec<u8>, pos: usize) -> (r: Option<(String, usize)>)
    ensures
        r is Some <==> str_at_ok(bytes@, pos as int),
        r matches Some(p) ==> p.0@ == str_at(bytes@, pos as int) && p.1 == str_end_at(
            bytes@,
            pos as int,
        ),
{
    let (n, start) = match read_u64(bytes, pos) {
        Some(v) => v,
        None => { return None; },
    };
    if n > (bytes.len() - start) as u64 {
        return None;
    }
    let n_us = n as usize;
    let end = start + n_us;
    let mut seg: Vec<u8> = Vec::new();
    let mut i: usize = start;
    while i < end
        invariant
            start <= i <= end <= bytes@.len(),
            seg@ == bytes@.subrange(start as int, i as int),
        decreases end - i,
    {
        seg.push(bytes[i]);
        i = i + 1;
        assert(seg@ =~= bytes@.subrange(start as int, i as int));
    }
    match string_from_utf8(seg) {
        Some(s) => Some((s, end)),
        None => None,
    }
}

/// A well-formed string encoding at the front of a byte sequence parses back
/// to the string it came from, and leaves the rest untouched.
pub proof fn lemma_str_at_encoding(b: Seq<u8>, pos: int, s: Seq<char>, rest: Seq<u8>)
    requires
        0 <= pos <= b.len(),
        str_fits(s),
        b.subrange(pos, b.len() as int) == str_bytes(s) + rest,
    ensures
        str_at_ok(b, pos),
        str_at(b, pos) == s,
        str_end_at(b, pos) == pos + str_bytes(s).len(),
        b.subrange(pos + str_bytes(s).len(), b.len() as int) == rest,
{
    let e = encode_utf8(s);
    let tail = b.subrange(pos, b.len() as int);
    assert(tail.len() == 8 + e.len() + rest.len());
    assert forall|i: int| 0 <= i < 8 implies b[pos + i] == #[trigger] u64_le(e.len() as u64)[i] by {
        assert(tail[i] == b[pos + i]);
        assert(tail[i] == (str_bytes(s) + rest)[i]);
        assert(str_bytes(s)[i] == u64_le(e.len() as u64)[i]);
    }
    assert(b.subrange(pos, pos + 8) =~= u64_le(e.len() as u64));
    lemma_u64_le_round_trip(e.len() as u64);
    assert(str_end_at(b, pos) == pos + 8 + e.len());
    assert forall|i: int| 0 <= i < e.len() implies b[pos + 8 + i] == #[trigger] e[i] by {
        assert(tail[8 + i] == b[pos + 8 + i]);
        assert(tail[8 + i] == (str_bytes(s) + rest)[8 + i]);
        assert(str_bytes(s)[8 + i] == e[i]);
    }
    assert(b.subrange(pos + 8, pos + 8 + e.len()) =~= e);
    broadcast use encode_utf8_valid_utf8;

    encode_utf8_decode_utf8(s);
    assert forall|i: int| 0 <= i < rest.len() implies b[pos + str_bytes(s).len() + i]
        == #[trigger] rest[i] by {
        assert(tail[str_bytes(s).len() + i] == b[pos + str_bytes(s).len() + i]);
        assert(tail[str_bytes(s).len() + i] == (str_bytes(s) + rest)[str_bytes(s).len() + i]);
    }
    assert(b.subrange(pos + str_bytes(s).len(), b.len() as int) =~= rest);
}

/// Compares two strings; equality of UTF-8 bytes is equality of strings.
pub fn str_eq(a: &str, b: &str) -> (r: bool)
    ensures
        r == (a@ == b@),
{
    let va = a.as_bytes_vec();
    let vb = b.as_bytes_vec();
    let r = bytes_eq(&va, &vb);
    proof {
        encode_utf8_decode_utf8(a@);
        encode_utf8_decode_utf8(b@);
    }
    r
}

/// Compares two byte vectors element by element.
pub fn bytes_eq(a: &Vec<u8>, b: &Vec<u8>) -> (r: bool)
    ensures
        r == (a@ == b@),
{
    if a.len() != b.len() {
        return false;
    }
    let mut i: usize = 0;
    while i < a.len()
        invariant
            a@.len() == b@.len(),
            i <= a@.len(),
            forall|j: int| 0 <= j < i ==> a@[j] == b@[j],
        decreases a@.len() - i,
    {
        if a[i] != b[i] {
            return false;
        }
        i = i + 1;
    }
    assert(a@ =~= b@);
    true
}



/// Eight little-endian bytes are exactly the encoding of the value they
/// read back as.
pub proof fn lemma_u64_le_of_bytes(b: Seq<u8>)
    requires
        b.len() == 8,
    ensures
        u64_le(u64_of_le(b)) == b,
{
    let b0 = b[0];
    let b1 = b[1];
    let b2 = b[2];
    let b3 = b[3];
    let b4 = b[4];
    let b5 = b[5];
    let b6 = b[6];
    let b7 = b[7];
    assert(((((b0 as u64) | ((b1 as u64) << 8) | ((b2 as u64) << 16) | ((b3 as u64) << 24) | ((b4 as u64) << 32) | ((b5 as u64) << 40) | ((b6 as u64) << 48) | ((b7 as u64) << 56))) & 0xff) as u8 == b0) by (bit_vector);
    assert(((((b0 as u64) | ((b1 as u64) << 8) | ((b2 as u64) << 16) | ((b3 as u64) << 24) | ((b4 as u64) << 32) | ((b5 as u64) << 40) | ((b6 as u64) << 48) | ((b7 as u64) << 56)) >> 8) & 0xff) as u8 == b1) by (bit_vector);
    assert(((((b0 as u64) | ((b1 as u64) << 8) | ((b2 as u64) << 16) | ((b3 as u64) << 24) | ((b4 as u64) << 32) | ((b5 as u64) << 40) | ((b6 as u64) << 48) | ((b7 as u64) << 56)) >> 16) & 0xff) as u8 == b2) by (bit_vector);
    assert(((((b0 as u64) | ((b1 as u64) << 8) | ((b2 as u64) << 16) | ((b3 as u64) << 24) | ((b4 as u64) << 32) | ((b5 as u64) << 40) | ((b6 as u64) << 48) | ((b7 as u64) << 56)) >> 24) & 0xff) as u8 == b3) by (bit_vector);
    assert(((((b0 as u64) | ((b1 as u64) << 8) | ((b2 as u64) << 16) | ((b3 as u64) << 24) | ((b4 as u64) << 32) | ((b5 as u64) << 40) | ((b6 as u64) << 48) | ((b7 as u64) << 56)) >> 32) & 0xff) as u8 == b4) by (bit_vector);
    assert(((((b0 as u64) | ((b1 as u64) << 8) | ((b2 as u64) << 16) | ((b3 as u64) << 24) | ((b4 as u64) << 32) | ((b5 as u64) << 40) | ((b6 as u64) << 48) | ((b7 as u64) << 56)) >> 40) & 0xff) as u8 == b5) by (bit_vector);
    assert(((((b0 as u64) | ((b1 as u64) << 8) | ((b2 as u64) << 16) | ((b3 as u64) << 24) | ((b4 as u64) << 32) | ((b5 as u64) << 40) | ((b6 as u64) << 48) | ((b7 as u64) << 56)) >> 48) & 0xff) as u8 == b6) by (bit_vector);
    assert(((((b0 as u64) | ((b1 as u64) << 8) | ((b2 as u64) << 16) | ((b3 as u64) << 24) | ((b4 as u64) << 32) | ((b5 as u64) << 40) | ((b6 as u64) << 48) | ((b7 as u64) << 56)) >> 56) & 0xff) as u8 == b7) by (bit_vector);
    assert(u64_le(u64_of_le(b)) =~= b);
}

/// A well-formed string encoding is exactly the encoding of its value.
pub proof fn lemma_str_at_bytes(b: Seq<u8>, pos: int)
    requires
        0 <= pos,
        str_at_ok(b, pos),
    ensures
        str_fits(str_at(b, pos)),
        b.subrange(pos, str_end_at(b, pos)) == str_bytes(str_at(b, pos)),
        str_end_at(b, pos) == pos + str_bytes(str_at(b, pos)).len(),
{
    let e = str_end_at(b, pos);
    let seg = b.subrange(pos + 8, e);
    let s = decode_utf8(seg);
    decode_utf8_encode_utf8(seg);
    let prefix = b.subrange(pos, pos + 8);
    lemma_u64_le_of_bytes(prefix);
    assert(encode_utf8(s) == seg);
    assert(seg.len() == u64_of_le(prefix));
    assert(u64_le(encode_utf8(s).len() as u64) == prefix);
    assert forall|i: int| 0 <= i < e - pos implies b.subrange(pos, e)[i] == #[trigger] str_bytes(
        s,
    )[i] by {
        if i < 8 {
            assert(str_bytes(s)[i] == u64_le(encode_utf8(s).len() as u64)[i]);
            assert(prefix[i] == b[pos + i]);
        } else {
            assert(str_bytes(s)[i] == encode_utf8(s)[i - 8]);
            assert(seg[i - 8] == b[pos + i]);
        }
    }
    assert(b.subrange(pos, e) =~= str_bytes(s));
}


/// A well-formed `i64` encoding is exactly the encoding of its value.
pub proof fn lemma_i64_at_bytes(b: Seq<u8>, pos: int)
    requires
        0 <= pos,
        i64_at_ok(b, pos),
    ensures
        b.subrange(pos, pos + 9) == i64_le(i64_at(b, pos)),
{
    let mag = u64_of_le(b.subrange(pos + 1, pos + 9));
    let x = i64_at(b, pos);
    lemma_u64_le_of_bytes(b.subrange(pos + 1, pos + 9));
    assert(i64_mag(x) == mag);
    assert forall|i: int| 0 <= i < 9 implies b.subrange(pos, pos + 9)[i] == #[trigger] i64_le(
        x,
    )[i] by {
        if i >= 1 {
            assert(i64_le(x)[i] == u64_le(i64_mag(x))[i - 1]);
            assert(b.subrange(pos + 1, pos + 9)[i - 1] == b[pos + i]);
        }
    }
    assert(b.subrange(pos, pos + 9) =~= i64_le(x));
}

// ----------------------------------------------------------------------------
// Records
// ----------------------------------------------------------------------------

/// Whether every string of `m` fits its length prefix and the distractor
/// list has its three entries. True of every `Melody` held in memory.
pub open spec fn melody_fits(m: MelodyModel) -> bool {
    &&& m.wrong_answers.len() == 3
    &&& str_fits(m.file_id)
    &&& str_fits(m.right_answer)
    &&& str_fits(m.wrong_answers[0])
    &&& str_fits(m.wrong_answers[1])
    &&& str_fits(m.wrong_answers[2])
}

/// The stored form of a melody: its id, then its four strings in order.
pub open spec fn melody_bytes(m: MelodyModel) -> Seq<u8> {
    u64_le(m.id) + str_bytes(m.file_id) + str_bytes(m.right_answer) + str_bytes(
        m.wrong_answers[0],
    ) + str_bytes(m.wrong_answers[1]) + str_bytes(m.wrong_answers[2])
}

/// Whether the answer of `g` fits its length prefix.
pub open spec fn game_fits(g: GameModel) -> bool {
    str_fits(g.right_answer)
}

/// The stored form of a game: the chat id, then the expected answer.
pub open spec fn game_bytes(g: GameModel) -> Seq<u8> {
    i64_le(g.chat_id) + str_bytes(g.right_answer)
}

/// Serializes a melody.
pub fn encode_melody(m: &Melody) -> (r: Vec<u8>)
    ensures
        melody_fits(m@),
        r@ == melody_bytes(m@),
{
    let mut out: Vec<u8> = Vec::new();
    encode_u64(m.id, &mut out);
    encode_str(&m.file_id, &mut out);
    encode_str(&m.right_answer, &mut out);
    encode_str(&m.wrong_answers[0], &mut out);
    encode_str(&m.wrong_answers[1], &mut out);
    encode_str(&m.wrong_answers[2], &mut out);
    assert(m@.wrong_answers[0] == m.wrong_answers@[0]@);
    assert(m@.wrong_answers[1] == m.wrong_answers@[1]@);
    assert(m@.wrong_answers[2] == m.wrong_answers@[2]@);
    assert(out@ =~= melody_bytes(m@));
    out
}

/// Serializes a game.
pub fn encode_game(g: &Game) -> (r: Vec<u8>)
    ensures
        game_fits(g@),
        r@ == game_bytes(g@),
{
    let mut out: Vec<u8> = Vec::new();
    encode_i64(g.chat_id, &mut out);
    encode_str(&g.right_answer, &mut out);
    assert(out@ =~= game_bytes(g@));
    out
}

/// How an encoded melody parses: field values and field boundaries.
pub proof fn lemma_melody_parse(b: Seq<u8>, m: MelodyModel)
    requires
        melody_fits(m),
        b == melody_bytes(m),
    ensures
        b.len() >= 8,
        u64_of_le(b.subrange(0, 8)) == m.id,
        str_at_ok(b, 8),
        str_at(b, 8) == m.file_id,
        str_at_ok(b, str_end_at(b, 8)),
        str_at(b, str_end_at(b, 8)) == m.right_answer,
        str_at_ok(b, str_end_at(b, str_end_at(b, 8))),
        str_at(b, str_end_at(b, str_end_at(b, 8))) == m.wrong_answers[0],
        str_at_ok(b, str_end_at(b, str_end_at(b, str_end_at(b, 8)))),
        str_at(b, str_end_at(b, str_end_at(b, str_end_at(b, 8)))) == m.wrong_answers[1],
        str_at_ok(b, str_end_at(b, str_end_at(b, str_end_at(b, str_end_at(b, 8))))),
        str_at(b, str_end_at(b, str_end_at(b, str_end_at(b, str_end_at(b, 8)))))
            == m.wrong_answers[2],
        str_end_at(b, str_end_at(b, str_end_at(b, str_end_at(b, str_end_at(b, 8)))))
            == b.len(),
{
    let r1 = str_bytes(m.file_id) + (str_bytes(m.right_answer) + (str_bytes(m.wrong_answers[0])
        + (str_bytes(m.wrong_answers[1]) + str_bytes(m.wrong_answers[2]))));
    assert(b =~= u64_le(m.id) + r1);
    assert forall|i: int| 0 <= i < 8 implies b[i] == #[trigger] u64_le(m.id)[i] by {
        assert(b[i] == (u64_le(m.id) + r1)[i]);
    }
    assert(b.subrange(0, 8) =~= u64_le(m.id));
    lemma_u64_le_round_trip(m.id);
    assert(b.subrange(8, b.len() as int) =~= r1);
    let p1 = 8 as int;
    lemma_str_at_encoding(b, p1, m.file_id, str_bytes(m.right_answer) + (str_bytes(
        m.wrong_answers[0],
    ) + (str_bytes(m.wrong_answers[1]) + str_bytes(m.wrong_answers[2]))));
    let p2 = str_end_at(b, p1);
    lemma_str_at_encoding(b, p2, m.right_answer, str_bytes(m.wrong_answers[0]) + (str_bytes(
        m.wrong_answers[1],
    ) + str_bytes(m.wrong_answers[2])));
    let p3 = str_end_at(b, p2);
    lemma_str_at_encoding(b, p3, m.wrong_answers[0], str_bytes(m.wrong_answers[1]) + str_bytes(
        m.wrong_answers[2],
    ));
    let p4 = str_end_at(b, p3);
    lemma_str_at_encoding(b, p4, m.wrong_answers[1], str_bytes(m.wrong_answers[2]));
    let p5 = str_end_at(b, p4);
    lemma_str_at_encoding(b, p5, m.wrong_answers[2], Seq::<u8>::empty());
    assert(str_end_at(b, p5) == b.len());
}


/// A chain of well-formed fields is exactly the encoding of the melody
/// they spell.
#[verifier::rlimit(100)]
pub proof fn lemma_melody_reassemble(
    b: Seq<u8>,
    m: MelodyModel,
    p2: int,
    p3: int,
    p4: int,
    p5: int,
)
    requires
        b.len() >= 8,
        m.id == u64_of_le(b.subrange(0, 8)),
        str_at_ok(b, 8),
        p2 == str_end_at(b, 8),
        m.file_id == str_at(b, 8),
        str_at_ok(b, p2),
        p3 == str_end_at(b, p2),
        m.right_answer == str_at(b, p2),
        str_at_ok(b, p3),
        p4 == str_end_at(b, p3),
        str_at_ok(b, p4),
        p5 == str_end_at(b, p4),
        str_at_ok(b, p5),
        str_end_at(b, p5) == b.len(),
        m.wrong_answers == seq![str_at(b, p3), str_at(b, p4), str_at(b, p5)],
    ensures
        melody_fits(m),
        b == melody_bytes(m),
{
    lemma_u64_le_of_bytes(b.subrange(0, 8));
    lemma_str_at_bytes(b, 8);
    lemma_str_at_bytes(b, p2);
    lemma_str_at_bytes(b, p3);
    lemma_str_at_bytes(b, p4);
    lemma_str_at_bytes(b, p5);
    assert forall|i: int| 0 <= i < b.len() implies b[i] == #[trigger] melody_bytes(m)[i] by {
        if i < 8 {
            assert(b.subrange(0, 8)[i] == b[i]);
        } else if i < p2 {
            assert(melody_bytes(m)[i] == str_bytes(m.file_id)[i - 8]);
            assert(b.subrange(8, p2)[i - 8] == b[i]);
        } else if i < p3 {
            assert(melody_bytes(m)[i] == str_bytes(m.right_answer)[i - p2]);
            assert(b.subrange(p2, p3)[i - p2] == b[i]);
        } else if i < p4 {
            assert(melody_bytes(m)[i] == str_bytes(m.wrong_answers[0])[i - p3]);
            assert(b.subrange(p3, p4)[i - p3] == b[i]);
        } else if i < p5 {
            assert(melody_bytes(m)[i] == str_bytes(m.wrong_answers[1])[i - p4]);
            assert(b.subrange(p4, p5)[i - p4] == b[i]);
        } else {
            assert(melody_bytes(m)[i] == str_bytes(m.wrong_answers[2])[i - p5]);
            assert(b.subrange(p5, str_end_at(b, p5))[i - p5] == b[i]);
        }
    }
    assert(b =~= melody_bytes(m));
}

/// Deserializes a melody. Any encoding of a melody decodes back to exactly
/// that melody.
#[verifier::rlimit(100)]
pub fn decode_melody(bytes: &Vec<u8>) -> (r: Option<Melody>)
    ensures
        forall|m: MelodyModel|
            melody_fits(m) && bytes@ == melody_bytes(m) ==> (r matches Some(mel) && mel@ == m),
        r matches Some(mel) ==> melody_fits(mel@) && bytes@ == melody_bytes(mel@),
{
    let (id, p1) = match read_u64(bytes, 0) {
        Some(v) => v,
        None => {
            proof {
                assert forall|m: MelodyModel|
                    melody_fits(m) && bytes@ == melody_bytes(m) implies false by {
                    lemma_melody_parse(bytes@, m);
                }
            }
            return None;
        },
    };
    let (file_id, p2) = match read_str(bytes, p1) {
        Some(v) => v,
        None => {
            proof {
                assert forall|m: MelodyModel|
                    melody_fits(m) && bytes@ == melody_bytes(m) implies false by {
                    lemma_melody_parse(bytes@, m);
                }
            }
            return None;
        },
    };
    let (right_answer, p3) = match read_str(bytes, p2) {
        Some(v) => v,
        None => {
            proof {
                assert forall|m: MelodyModel|
                    melody_fits(m) && bytes@ == melody_bytes(m) implies false by {
                    lemma_melody_parse(bytes@, m);
                }
            }
            return None;
        },
    };
    let (w0, p4) = match read_str(bytes, p3) {
        Some(v) => v,
        None => {
            proof {
                assert forall|m: MelodyModel|
                    melody_fits(m) && bytes@ == melody_bytes(m) implies false by {
                    lemma_melody_parse(bytes@, m);
                }
            }
            return None;
        },
    };
    let (w1, p5) = match read_str(bytes, p4) {
        Some(v) => v,
        None => {
            proof {
                assert forall|m: MelodyModel|
                    melody_fits(m) && bytes@ == melody_bytes(m) implies false by {
                    lemma_melody_parse(bytes@, m);
                }
            }
            return None;
        },
    };
    let (w2, p6) = match read_str(bytes, p5) {
        Some(v) => v,
        None => {
            proof {
                assert forall|m: MelodyModel|
                    melody_fits(m) && bytes@ == melody_bytes(m) implies false by {
                    lemma_melody_parse(bytes@, m);
                }
            }
            return None;
        },
    };
    if p6 != bytes.len() {
        proof {
            assert forall|m: MelodyModel|
                melody_fits(m) && bytes@ == melody_bytes(m) implies false by {
                lemma_melody_parse(bytes@, m);
            }
        }
        return None;
    }
    let mel = Melody { id, file_id, right_answer, wrong_answers: [w0, w1, w2] };
    proof {
        assert forall|m: MelodyModel|
            melody_fits(m) && bytes@ == melody_bytes(m) implies mel@ == m by {
            lemma_melody_parse(bytes@, m);
            assert(mel@.wrong_answers =~= m.wrong_answers);
            assert(mel@ =~= m);
        }
        assert(mel@.wrong_answers =~= seq![
            str_at(bytes@, p3 as int),
            str_at(bytes@, p4 as int),
            str_at(bytes@, p5 as int),
        ]);
        lemma_melody_reassemble(bytes@, mel@, p2 as int, p3 as int, p4 as int, p5 as int);
    }
    Some(mel)
}

/// How an encoded game parses: field values and field boundaries.
pub proof fn lemma_game_parse(b: Seq<u8>, g: GameModel)
    requires
        game_fits(g),
        b == game_bytes(g),
    ensures
        i64_at_ok(b, 0),
        i64_at(b, 0) == g.chat_id,
        str_at_ok(b, 9),
        str_at(b, 9) == g.right_answer,
        str_end_at(b, 9) == b.len(),
{
    assert(b.subrange(0, b.len() as int) =~= b);
    lemma_i64_at_encoding(b, 0, g.chat_id, str_bytes(g.right_answer));
    lemma_str_at_encoding(b, 9, g.right_answer, Seq::<u8>::empty());
}

/// Deserializes a game. Any encoding of a game decodes back to exactly that
/// game.
pub fn decode_game(bytes: &Vec<u8>) -> (r: Option<Game>)
    ensures
        forall|g: GameModel|
            game_fits(g) && bytes@ == game_bytes(g) ==> (r matches Some(gm) && gm@ == g),
        r matches Some(gm) ==> game_fits(gm@) && bytes@ == game_bytes(gm@),
{
    let (chat_id, p1) = match read_i64(bytes, 0) {
        Some(v) => v,
        None => {
            proof {
                assert forall|g: GameModel|
                    game_fits(g) && bytes@ == game_bytes(g) implies false by {
                    lemma_game_parse(bytes@, g);
                }
            }
            return None;
        },
    };
    let (right_answer, p2) = match read_str(bytes, p1) {
        Some(v) => v,
        None => {
            proof {
                assert forall|g: GameModel|
                    game_fits(g) && bytes@ == game_bytes(g) implies false by {
                    lemma_game_parse(bytes@, g);
                }
            }
            return None;
        },
    };
    if p2 != bytes.len() {
        proof {
            assert forall|g: GameModel|
                game_fits(g) && bytes@ == game_bytes(g) implies false by {
                lemma_game_parse(bytes@, g);
            }
        }
        return None;
    }
    let gm = Game { chat_id, right_answer };
    proof {
        assert forall|g: GameModel| game_fits(g) && bytes@ == game_bytes(g) implies gm@ == g by {
            lemma_game_parse(bytes@, g);
            assert(gm@ =~= g);
        }
        lemma_i64_at_bytes(bytes@, 0);
        lemma_str_at_bytes(bytes@, 9);
        assert forall|i: int| 0 <= i < bytes@.len() implies bytes@[i] == #[trigger] game_bytes(
            gm@,
        )[i] by {
            if i < 9 {
                assert(bytes@.subrange(0, 9)[i] == bytes@[i]);
            } else {
                assert(game_bytes(gm@)[i] == str_bytes(gm@.right_answer)[i - 9]);
                assert(bytes@.subrange(9, str_end_at(bytes@, 9))[i - 9] == bytes@[i]);
            }
        }
        assert(bytes@ =~= game_bytes(gm@));
    }
    Some(gm)
}

// ----------------------------------------------------------------------------
// Key namespaces
// ----------------------------------------------------------------------------

/// The key a melody is stored under: the namespace byte `m`, then its id.
pub open spec fn melody_key(id: u64) -> Seq<u8> {
    seq![109u8] + u64_le(id)
}

/// The key a game is stored under: the namespace byte `g`, then its chat id.
pub open spec fn game_key(chat_id: i64) -> Seq<u8> {
    seq![103u8] + i64_le(chat_id)
}

/// Builds the stored key of melody `id`.
pub fn melody_key_vec(id: u64) -> (r: Vec<u8>)
    ensures
        r@ == melody_key(id),
{
    let mut v: Vec<u8> = Vec::new();
    v.push(109u8);
    encode_u64(id, &mut v);
    assert(v@ =~= melody_key(id));
    v
}

/// Builds the stored key of the game of `chat_id`.
pub fn game_key_vec(chat_id: i64) -> (r: Vec<u8>)
    ensures
        r@ == game_key(chat_id),
{
    let mut v: Vec<u8> = Vec::new();
    v.push(103u8);
    encode_i64(chat_id, &mut v);
    assert(v@ =~= game_key(chat_id));
    v
}

/// Distinct melodies never share a key.
pub proof fn lemma_melody_key_injective(a: u64, b: u64)
    requires
        melody_key(a) == melody_key(b),
    ensures
        a == b,
{
    assert forall|i: int| 0 <= i < 8 implies u64_le(a)[i] == #[trigger] u64_le(b)[i] by {
        assert(melody_key(a)[i + 1] == u64_le(a)[i]);
        assert(melody_key(b)[i + 1] == u64_le(b)[i]);
    }
    assert(u64_le(a) =~= u64_le(b));
    lemma_u64_le_injective(a, b);
}

/// Distinct chats never share a game key.
pub proof fn lemma_game_key_injective(a: i64, b: i64)
    requires
        game_key(a) == game_key(b),
    ensures
        a == b,
{
    assert(game_key(a)[1] == i64_le(a)[0]);
    assert(game_key(b)[1] == i64_le(b)[0]);
    assert forall|i: int| 0 <= i < 8 implies u64_le(i64_mag(a))[i] == #[trigger] u64_le(
        i64_mag(b),
    )[i] by {
        assert(game_key(a)[i + 2] == i64_le(a)[i + 1]);
        assert(game_key(b)[i + 2] == i64_le(b)[i + 1]);
        assert(i64_le(a)[i + 1] == u64_le(i64_mag(a))[i]);
        assert(i64_le(b)[i + 1] == u64_le(i64_mag(b))[i]);
    }
    assert(u64_le(i64_mag(a)) =~= u64_le(i64_mag(b)));
    lemma_u64_le_injective(i64_mag(a), i64_mag(b));
    assert(i64_le(a)[0] == i64_le(b)[0]);
}

/// The melody and game namespaces are disjoint: the first key byte differs.
pub proof fn lemma_namespaces_disjoint(id: u64, chat_id: i64)
    ensures
        melody_key(id) != game_key(chat_id),
{
    assert(melody_key(id)[0] == 109u8);
    assert(game_key(chat_id)[0] == 103u8);
}


// ----------------------------------------------------------------------------
// Round trips
// ----------------------------------------------------------------------------

/// The melody whose encoding a byte sequence is, if it is one.
pub open spec fn melody_of_bytes(b: Seq<u8>) -> Option<MelodyModel> {
    if exists|m: MelodyModel| melody_fits(m) && b == melody_bytes(m) {
        Some(choose|m: MelodyModel| melody_fits(m) && b == melody_bytes(m))
    } else {
        None
    }
}

/// The game whose encoding a byte sequence is, if it is one.
pub open spec fn game_of_bytes(b: Seq<u8>) -> Option<GameModel> {
    if exists|g: GameModel| game_fits(g) && b == game_bytes(g) {
        Some(choose|g: GameModel| game_fits(g) && b == game_bytes(g))
    } else {
        None
    }
}

/// Round trip: storing a melody and reading its bytes back yields a melody
/// equal to the original in every field.
pub proof fn lemma_melody_round_trip(m: MelodyModel)
    requires
        melody_fits(m),
    ensures
        melody_of_bytes(melody_bytes(m)) == Some(m),
{
    let b = melody_bytes(m);
    assert(melody_fits(m) && b == melody_bytes(m));
    let m2 = choose|m2: MelodyModel| melody_fits(m2) && b == melody_bytes(m2);
    lemma_melody_parse(b, m);
    lemma_melody_parse(b, m2);
    assert(m2.wrong_answers =~= m.wrong_answers);
    assert(m2 =~= m);
}

/// Round trip: storing a game and reading its bytes back yields a game
/// equal to the original in every field.
pub proof fn lemma_game_round_trip(g: GameModel)
    requires
        game_fits(g),
    ensures
        game_of_bytes(game_bytes(g)) == Some(g),
{
    let b = game_bytes(g);
    assert(game_fits(g) && b == game_bytes(g));
    let g2 = choose|g2: GameModel| game_fits(g2) && b == game_bytes(g2);
    lemma_game_parse(b, g);
    lemma_game_parse(b, g2);
    assert(g2 =~= g);
}

} // verus!
