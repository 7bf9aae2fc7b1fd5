//! Byte-level encoding primitives shared by the save codec
//! (little-endian) and the wire codec (big-endian), together with the
//! spec-level parsers that their contracts are stated against.
//!
//! Every primitive comes in three parts: a spec encoding (what the bytes
//! are), a spec parser (a total function from a byte sequence and a
//! position to an optional value and next position), and executable
//! encode/decode functions whose contracts tie them to those two. The
//! `lemma_parse_*` lemmas state that each parser, run anywhere inside a
//! larger buffer that holds an encoding at that position, returns exactly
//! the encoded value; the codecs' round-trip proofs are built from them.

use vstd::prelude::*;

use crate::util::{char_from_u32, is_scalar_value, push_char};

verus! {

// ---------------------------------------------------------------------
// Unsigned integers, little-endian
// ---------------------------------------------------------------------

pub open spec fn le32(v: u32) -> Seq<u8> {
    seq![
        (v & 0xff) as u8,
        ((v >> 8) & 0xff) as u8,
        ((v >> 16) & 0xff) as u8,
        ((v >> 24) & 0xff) as u8,
    ]
}

pub open spec fn u32_from_le(b0: u8, b1: u8, b2: u8, b3: u8) -> u32 {
    (b0 as u32) | ((b1 as u32) << 8) | ((b2 as u32) << 16) | ((b3 as u32) << 24)
}

pub open spec fn parse_u32_le(b: Seq<u8>, pos: int) -> Option<(u32, int)> {
    if 0 <= pos && pos + 4 <= b.len() {
        Some((u32_from_le(b[pos], b[pos + 1], b[pos + 2], b[pos + 3]), pos + 4))
    } else {
        None
    }
}

pub proof fn lemma_parse_u32_le(b: Seq<u8>, pos: int, v: u32)
    requires
        0 <= pos,
        pos + 4 <= b.len(),
        b.subrange(pos, pos + 4) == le32(v),
    ensures
        parse_u32_le(b, pos) == Some((v, pos + 4)),
{
    assert(b[pos] == le32(v)[0] && b[pos + 1] == le32(v)[1] && b[pos + 2] == le32(v)[2] && b[pos
        + 3] == le32(v)[3]) by {
        assert(forall|i: int| 0 <= i < 4 ==> #[trigger] b.subrange(pos, pos + 4)[i] == b[pos + i]);
    }
    assert(((v & 0xff) as u8) as u32 | ((((v >> 8) & 0xff) as u8) as u32) << 8 | ((((v >> 16)
        & 0xff) as u8) as u32) << 16 | ((((v >> 24) & 0xff) as u8) as u32) << 24 == v)
        by (bit_vector);
}

pub open spec fn le64(v: u64) -> Seq<u8> {
    seq![
        (v & 0xff) as u8,
        ((v >> 8) & 0xff) as u8,
        ((v >> 16) & 0xff) as u8,
        ((v >> 24) & 0xff) as u8,
        ((v >> 32) & 0xff) as u8,
        ((v >> 40) & 0xff) as u8,
        ((v >> 48) & 0xff) as u8,
        ((v >> 56) & 0xff) as u8,
    ]
}

pub open spec fn u64_from_le(b: Seq<u8>, pos: int) -> u64 {
    (b[pos] as u64) | ((b[pos + 1] as u64) << 8) | ((b[pos + 2] as u64) << 16) | ((b[pos
        + 3] as u64) << 24) | ((b[pos + 4] as u64) << 32) | ((b[pos + 5] as u64) << 40) | ((b[pos
        + 6] as u64) << 48) | ((b[pos + 7] as u64) << 56)
}

pub open spec fn parse_u64_le(b: Seq<u8>, pos: int) -> Option<(u64, int)> {
    if 0 <= pos && pos + 8 <= b.len() {
        Some((u64_from_le(b, pos), pos + 8))
    } else {
        None
    }
}

pub proof fn lemma_parse_u64_le(b: Seq<u8>, pos: int, v: u64)
    requires
        0 <= pos,
        pos + 8 <= b.len(),
        b.subrange(pos, pos + 8) == le64(v),
    ensures
        parse_u64_le(b, pos) == Some((v, pos + 8)),
{
    assert(forall|i: int| 0 <= i < 8 ==> #[trigger] b.subrange(pos, pos + 8)[i] == b[pos + i]);
    assert(forall|i: int| 0 <= i < 8 ==> b[pos + i] == #[trigger] le64(v)[i]);
    assert(((v & 0xff) as u8) as u64 | ((((v >> 8) & 0xff) as u8) as u64) << 8 | ((((v >> 16)
        & 0xff) as u8) as u64) << 16 | ((((v >> 24) & 0xff) as u8) as u64) << 24 | ((((v >> 32)
        & 0xff) as u8) as u64) << 32 | ((((v >> 40) & 0xff) as u8) as u64) << 40 | ((((v >> 48)
        & 0xff) as u8) as u64) << 48 | ((((v >> 56) & 0xff) as u8) as u64) << 56 == v)
        by (bit_vector);
}

// ---------------------------------------------------------------------
// Unsigned integers, big-endian
// ---------------------------------------------------------------------

pub open spec fn be32(v: u32) -> Seq<u8> {
    seq![
        ((v >> 24) & 0xff) as u8,
        ((v >> 16) & 0xff) as u8,
        ((v >> 8) & 0xff) as u8,
        (v & 0xff) as u8,
    ]
}

pub open spec fn u32_from_be(b0: u8, b1: u8, b2: u8, b3: u8) -> u32 {
    ((b0 as u32) << 24) | ((b1 as u32) << 16) | ((b2 as u32) << 8) | (b3 as u32)
}

pub open spec fn parse_u32_be(b: Seq<u8>, pos: int) -> Option<(u32, int)> {
    if 0 <= pos && pos + 4 <= b.len() {
        Some((u32_from_be(b[pos], b[pos + 1], b[pos + 2], b[pos + 3]), pos + 4))
    } else {
        None
    }
}

pub proof fn lemma_parse_u32_be(b: Seq<u8>, pos: int, v: u32)
    requires
        0 <= pos,
        pos + 4 <= b.len(),
        b.subrange(pos, pos + 4) == be32(v),
    ensures
        parse_u32_be(b, pos) == Some((v, pos + 4)),
{
    assert(forall|i: int| 0 <= i < 4 ==> #[trigger] b.subrange(pos, pos + 4)[i] == b[pos + i]);
    assert(forall|i: int| 0 <= i < 4 ==> b[pos + i] == #[trigger] be32(v)[i]);
    assert(((((v >> 24) & 0xff) as u8) as u32) << 24 | ((((v >> 16) & 0xff) as u8) as u32) << 16
        | ((((v >> 8) & 0xff) as u8) as u32) << 8 | ((v & 0xff) as u8) as u32 == v)
        by (bit_vector);
}

pub open spec fn be64(v: u64) -> Seq<u8> {
    seq![
        ((v >> 56) & 0xff) as u8,
        ((v >> 48) & 0xff) as u8,
        ((v >> 40) & 0xff) as u8,
        ((v >> 32) & 0xff) as u8,
        ((v >> 24) & 0xff) as u8,
        ((v >> 16) & 0xff) as u8,
        ((v >> 8) & 0xff) as u8,
        (v & 0xff) as u8,
    ]
}

pub open spec fn u64_from_be(b: Seq<u8>, pos: int) -> u64 {
    ((b[pos] as u64) << 56) | ((b[pos + 1] as u64) << 48) | ((b[pos + 2] as u64) << 40) | ((b[pos
        + 3] as u64) << 32) | ((b[pos + 4] as u64) << 24) | ((b[pos + 5] as u64) << 16) | ((b[pos
        + 6] as u64) << 8) | (b[pos + 7] as u64)
}

pub open spec fn parse_u64_be(b: Seq<u8>, pos: int) -> Option<(u64, int)> {
    if 0 <= pos && pos + 8 <= b.len() {
        Some((u64_from_be(b, pos), pos + 8))
    } else {
        None
    }
}

pub proof fn lemma_parse_u64_be(b: Seq<u8>, pos: int, v: u64)
    requires
        0 <= pos,
        pos + 8 <= b.len(),
        b.subrange(pos, pos + 8) == be64(v),
    ensures
        parse_u64_be(b, pos) == Some((v, pos + 8)),
{
    assert(forall|i: int| 0 <= i < 8 ==> #[trigger] b.subrange(pos, pos + 8)[i] == b[pos + i]);
    assert(forall|i: int| 0 <= i < 8 ==> b[pos + i] == #[trigger] be64(v)[i]);
    assert(((((v >> 56) & 0xff) as u8) as u64) << 56 | ((((v >> 48) & 0xff) as u8) as u64) << 48
        | ((((v >> 40) & 0xff) as u8) as u64) << 40 | ((((v >> 32) & 0xff) as u8) as u64) << 32
        | ((((v >> 24) & 0xff) as u8) as u64) << 24 | ((((v >> 16) & 0xff) as u8) as u64) << 16
        | ((((v >> 8) & 0xff) as u8) as u64) << 8 | ((v & 0xff) as u8) as u64 == v)
        by (bit_vector);
}

pub open spec fn be128(v: u128) -> Seq<u8> {
    be64((v >> 64) as u64) + be64((v & 0xffff_ffff_ffff_ffff) as u64)
}

pub open spec fn u128_from_halves(hi: u64, lo: u64) -> u128 {
    ((hi as u128) << 64) | (lo as u128)
}

pub open spec fn parse_u128_be(b: Seq<u8>, pos: int) -> Option<(u128, int)> {
    match parse_u64_be(b, pos) {
        Some((hi, p1)) => match parse_u64_be(b, p1) {
            Some((lo, p2)) => Some((u128_from_halves(hi, lo), p2)),
            None => None,
        },
        None => None,
    }
}

pub proof fn lemma_parse_u128_be(b: Seq<u8>, pos: int, v: u128)
    requires
        0 <= pos,
        pos + 16 <= b.len(),
        b.subrange(pos, pos + 16) == be128(v),
    ensures
        parse_u128_be(b, pos) == Some((v, pos + 16)),
{
    let hi = (v >> 64) as u64;
    let lo = (v & 0xffff_ffff_ffff_ffff) as u64;
    assert(b.subrange(pos, pos + 8) =~= be64(hi)) by {
        assert(forall|i: int|
            0 <= i < 8 ==> #[trigger] b.subrange(pos, pos + 8)[i] == b.subrange(pos, pos + 16)[i]);
    }
    assert(b.subrange(pos + 8, pos + 16) =~= be64(lo)) by {
        assert(forall|i: int|
            0 <= i < 8 ==> #[trigger] b.subrange(pos + 8, pos + 16)[i] == b.subrange(pos, pos + 16)[i + 8]);
    }
    lemma_parse_u64_be(b, pos, hi);
    lemma_parse_u64_be(b, pos + 8, lo);
    assert(u128_from_halves(hi, lo) == v) by {
        assert((((v >> 64) as u64) as u128) << 64 | ((v & 0xffff_ffff_ffff_ffff) as u64) as u128
            == v) by (bit_vector);
    }
}

// ---------------------------------------------------------------------
// Signed 32-bit integers (two's complement through u32)
// ---------------------------------------------------------------------

pub open spec fn i32_le(v: i32) -> Seq<u8> {
    le32(v as u32)
}

pub open spec fn parse_i32_le(b: Seq<u8>, pos: int) -> Option<(i32, int)> {
    match parse_u32_le(b, pos) {
        Some((v, p)) => Some((v as i32, p)),
        None => None,
    }
}

pub open spec fn i32_be(v: i32) -> Seq<u8> {
    be32(v as u32)
}

pub open spec fn parse_i32_be(b: Seq<u8>, pos: int) -> Option<(i32, int)> {
    match parse_u32_be(b, pos) {
        Some((v, p)) => Some((v as i32, p)),
        None => None,
    }
}

pub proof fn lemma_i32_u32_roundtrip(x: i32)
    ensures
        ((x as u32) as i32) == x,
{
    assert(((x as u32) as i32) == x) by (bit_vector);
}

pub proof fn lemma_parse_i32_le(b: Seq<u8>, pos: int, v: i32)
    requires
        0 <= pos,
        pos + 4 <= b.len(),
        b.subrange(pos, pos + 4) == i32_le(v),
    ensures
        parse_i32_le(b, pos) == Some((v, pos + 4)),
{
    lemma_parse_u32_le(b, pos, v as u32);
    lemma_i32_u32_roundtrip(v);
}

pub proof fn lemma_parse_i32_be(b: Seq<u8>, pos: int, v: i32)
    requires
        0 <= pos,
        pos + 4 <= b.len(),
        b.subrange(pos, pos + 4) == i32_be(v),
    ensures
        parse_i32_be(b, pos) == Some((v, pos + 4)),
{
    lemma_parse_u32_be(b, pos, v as u32);
    lemma_i32_u32_roundtrip(v);
}

// ---------------------------------------------------------------------
// Single bytes
// ---------------------------------------------------------------------

pub open spec fn parse_u8(b: Seq<u8>, pos: int) -> Option<(u8, int)> {
    if 0 <= pos && pos + 1 <= b.len() {
        Some((b[pos], pos + 1))
    } else {
        None
    }
}

// ---------------------------------------------------------------------
// Characters: one Unicode scalar value as a fixed-width 32-bit integer
// ---------------------------------------------------------------------

pub open spec fn enc_char_le(c: char) -> Seq<u8> {
    le32(c as u32)
}

pub open spec fn parse_char_le(b: Seq<u8>, pos: int) -> Option<(char, int)> {
    match parse_u32_le(b, pos) {
        Some((v, p)) => if is_scalar_value(v) {
            Some((v as char, p))
        } else {
            None
        },
        None => None,
    }
}

pub open spec fn enc_char_be(c: char) -> Seq<u8> {
    be32(c as u32)
}

pub open spec fn parse_char_be(b: Seq<u8>, pos: int) -> Option<(char, int)> {
    match parse_u32_be(b, pos) {
        Some((v, p)) => if is_scalar_value(v) {
            Some((v as char, p))
        } else {
            None
        },
        None => None,
    }
}

pub proof fn lemma_parse_char_le(b: Seq<u8>, pos: int, c: char)
    requires
        0 <= pos,
        pos + 4 <= b.len(),
        b.subrange(pos, pos + 4) == enc_char_le(c),
    ensures
        parse_char_le(b, pos) == Some((c, pos + 4)),
{
    lemma_parse_u32_le(b, pos, c as u32);
}

pub proof fn lemma_parse_char_be(b: Seq<u8>, pos: int, c: char)
    requires
        0 <= pos,
        pos + 4 <= b.len(),
        b.subrange(pos, pos + 4) == enc_char_be(c),
    ensures
        parse_char_be(b, pos) == Some((c, pos + 4)),
{
    lemma_parse_u32_be(b, pos, c as u32);
}

// ---------------------------------------------------------------------
// Homogeneous lists (no count prefix; the caller encodes the count)
// ---------------------------------------------------------------------

pub open spec fn enc_list<T>(elems: Seq<T>, enc: spec_fn(T) -> Seq<u8>) -> Seq<u8>
    decreases elems.len(),
{
    if elems.len() == 0 {
        Seq::empty()
    } else {
        enc(elems[0]) + enc_list(elems.skip(1), enc)
    }
}

pub open spec fn parse_list<T>(
    b: Seq<u8>,
    pos: int,
    n: int,
    p: spec_fn(Seq<u8>, int) -> Option<(T, int)>,
) -> Option<(Seq<T>, int)>
    decreases n,
{
    if n <= 0 {
        Some((Seq::empty(), pos))
    } else {
        match p(b, pos) {
            Some((t, next)) => match parse_list(b, next, n - 1, p) {
                Some((rest, end)) => Some((seq![t] + rest, end)),
                None => None,
            },
            None => None,
        }
    }
}

/// Appending one element to a list appends its encoding to the list's.
pub proof fn lemma_enc_list_push<T>(elems: Seq<T>, t: T, enc: spec_fn(T) -> Seq<u8>)
    ensures
        enc_list(elems.push(t), enc) == enc_list(elems, enc) + enc(t),
    decreases elems.len(),
{
    if elems.len() == 0 {
        assert(elems.push(t)[0] == t);
        assert(elems.push(t).skip(1) =~= Seq::<T>::empty());
        assert(enc_list(Seq::<T>::empty(), enc) == Seq::<u8>::empty());
        assert(enc_list(elems.push(t), enc) == enc(t) + Seq::<u8>::empty());
        assert(enc(t) + Seq::<u8>::empty() =~= enc(t));
        assert(enc_list(elems, enc) + enc(t) =~= enc(t));
    } else {
        assert(elems.push(t)[0] == elems[0]);
        assert(elems.push(t).skip(1) =~= elems.skip(1).push(t));
        lemma_enc_list_push(elems.skip(1), t, enc);
        assert(enc(elems[0]) + (enc_list(elems.skip(1), enc) + enc(t)) =~= (enc(elems[0])
            + enc_list(elems.skip(1), enc)) + enc(t));
    }
}

/// A parser that recognises each element's encoding anywhere in `b`
/// recognises, element by element, a whole list's encoding.
pub proof fn lemma_parse_list<T>(
    b: Seq<u8>,
    pos: int,
    elems: Seq<T>,
    enc: spec_fn(T) -> Seq<u8>,
    p: spec_fn(Seq<u8>, int) -> Option<(T, int)>,
)
    requires
        0 <= pos,
        pos + enc_list(elems, enc).len() <= b.len(),
        b.subrange(pos, pos + enc_list(elems, enc).len()) == enc_list(elems, enc),
        forall|i: int, pos2: int|
            0 <= i < elems.len() && 0 <= pos2 && pos2 + enc(elems[i]).len() <= b.len()
                && #[trigger] b.subrange(pos2, pos2 + enc(elems[i]).len()) == enc(elems[i]) ==> p(
                b,
                pos2,
            ) == Some((elems[i], pos2 + enc(elems[i]).len())),
    ensures
        parse_list(b, pos, elems.len() as int, p) == Some((
            elems,
            pos + enc_list(elems, enc).len(),
        )),
    decreases elems.len(),
{
    if elems.len() == 0 {
        assert(parse_list(b, pos, 0, p) == Some((Seq::<T>::empty(), pos)));
        assert(elems =~= Seq::<T>::empty());
    } else {
        let e0 = elems[0];
        let rest = elems.skip(1);
        let k = enc(e0).len() as int;
        let m = enc_list(rest, enc).len() as int;
        assert(enc_list(elems, enc) == enc(e0) + enc_list(rest, enc));
        assert(b.subrange(pos, pos + enc(e0).len()) =~= enc(e0)) by {
            assert(forall|i: int|
                0 <= i < k ==> #[trigger] b.subrange(pos, pos + k)[i] == b.subrange(pos, pos + k + m)[i]);
        }
        assert(p(b, pos) == Some((e0, pos + k)));
        assert(b.subrange(pos + k, pos + k + m) =~= enc_list(rest, enc)) by {
            assert(forall|i: int|
                0 <= i < m ==> #[trigger] b.subrange(pos + k, pos + k + m)[i] == b.subrange(
                    pos,
                    pos + k + m,
                )[i + k]);
        }
        assert forall|i: int, pos2: int|
            0 <= i < rest.len() && 0 <= pos2 && pos2 + enc(rest[i]).len() <= b.len()
                && #[trigger] b.subrange(pos2, pos2 + enc(rest[i]).len()) == enc(rest[i]) implies p(
            b,
            pos2,
        ) == Some((rest[i], pos2 + enc(rest[i]).len())) by {
            assert(rest[i] == elems[i + 1]);
        }
        lemma_parse_list(b, pos + k, rest, enc, p);
        assert(seq![e0] + rest =~= elems);
    }
}

// ---------------------------------------------------------------------
// Strings: a 64-bit character count, then one fixed-width scalar each
// ---------------------------------------------------------------------

pub open spec fn enc_char_le_fn() -> spec_fn(char) -> Seq<u8> {
    |c: char| enc_char_le(c)
}

pub open spec fn enc_char_be_fn() -> spec_fn(char) -> Seq<u8> {
    |c: char| enc_char_be(c)
}

pub open spec fn parse_char_le_fn() -> spec_fn(Seq<u8>, int) -> Option<(char, int)> {
    |b: Seq<u8>, pos: int| parse_char_le(b, pos)
}

pub open spec fn parse_char_be_fn() -> spec_fn(Seq<u8>, int) -> Option<(char, int)> {
    |b: Seq<u8>, pos: int| parse_char_be(b, pos)
}

pub open spec fn enc_str_le(s: Seq<char>) -> Seq<u8> {
    le64(s.len() as u64) + enc_list(s, enc_char_le_fn())
}

pub open spec fn parse_str_le(b: Seq<u8>, pos: int) -> Option<(Seq<char>, int)> {
    match parse_u64_le(b, pos) {
        Some((n, p)) => parse_list(b, p, n as int, parse_char_le_fn()),
        None => None,
    }
}

pub open spec fn enc_str_be(s: Seq<char>) -> Seq<u8> {
    be64(s.len() as u64) + enc_list(s, enc_char_be_fn())
}

pub open spec fn parse_str_be(b: Seq<u8>, pos: int) -> Option<(Seq<char>, int)> {
    match parse_u64_be(b, pos) {
        Some((n, p)) => parse_list(b, p, n as int, parse_char_be_fn()),
        None => None,
    }
}

/// Encodings of fixed-width elements have length `k` per element.
pub proof fn lemma_enc_list_fixed_len<T>(elems: Seq<T>, enc: spec_fn(T) -> Seq<u8>, k: int)
    requires
        forall|t: T| (#[trigger] enc(t)).len() == k,
    ensures
        enc_list(elems, enc).len() == k * elems.len(),
    decreases elems.len(),
{
    if elems.len() == 0 {
    } else {
        lemma_enc_list_fixed_len(elems.skip(1), enc, k);
        assert(k * ((elems.len() - 1) + 1) == k * (elems.len() - 1) + k) by (nonlinear_arith);
    }
}

pub proof fn lemma_parse_str_le(b: Seq<u8>, pos: int, s: Seq<char>)
    requires
        0 <= pos,
        s.len() <= u64::MAX,
        pos + enc_str_le(s).len() <= b.len(),
        b.subrange(pos, pos + enc_str_le(s).len()) == enc_str_le(s),
    ensures
        parse_str_le(b, pos) == Some((s, pos + enc_str_le(s).len())),
{
    let chars = enc_list(s, enc_char_le_fn());
    assert(forall|c: char| (#[trigger] enc_char_le_fn()(c)).len() == 4);
    lemma_enc_list_fixed_len(s, enc_char_le_fn(), 4);
    assert(b.subrange(pos, pos + 8) =~= le64(s.len() as u64)) by {
        assert(forall|i: int|
            0 <= i < 8 ==> #[trigger] b.subrange(pos, pos + 8)[i] == b.subrange(
                pos,
                pos + enc_str_le(s).len(),
            )[i]);
    }
    lemma_parse_u64_le(b, pos, s.len() as u64);
    assert(b.subrange(pos + 8, pos + 8 + chars.len()) =~= chars) by {
        assert(forall|i: int|
            0 <= i < chars.len() ==> #[trigger] b.subrange(pos + 8, pos + 8 + chars.len())[i] == b.subrange(
                pos,
                pos + enc_str_le(s).len(),
            )[i + 8]);
    }
    assert forall|i: int, pos2: int|
        0 <= i < s.len() && 0 <= pos2 && pos2 + enc_char_le_fn()(s[i]).len() <= b.len()
            && #[trigger] b.subrange(pos2, pos2 + enc_char_le_fn()(s[i]).len()) == enc_char_le_fn()(
            s[i],
        ) implies parse_char_le_fn()(b, pos2) == Some((
        s[i],
        pos2 + enc_char_le_fn()(s[i]).len(),
    )) by {
        lemma_parse_char_le(b, pos2, s[i]);
    }
    lemma_parse_list(b, pos + 8, s, enc_char_le_fn(), parse_char_le_fn());
    assert((s.len() as u64) as int == s.len() as int);
}

pub proof fn lemma_parse_str_be(b: Seq<u8>, pos: int, s: Seq<char>)
    requires
        0 <= pos,
        s.len() <= u64::MAX,
        pos + enc_str_be(s).len() <= b.len(),
        b.subrange(pos, pos + enc_str_be(s).len()) == enc_str_be(s),
    ensures
        parse_str_be(b, pos) == Some((s, pos + enc_str_be(s).len())),
{
    let chars = enc_list(s, enc_char_be_fn());
    assert(forall|c: char| (#[trigger] enc_char_be_fn()(c)).len() == 4);
    lemma_enc_list_fixed_len(s, enc_char_be_fn(), 4);
    assert(b.subrange(pos, pos + 8) =~= be64(s.len() as u64)) by {
        assert(forall|i: int|
            0 <= i < 8 ==> #[trigger] b.subrange(pos, pos + 8)[i] == b.subrange(
                pos,
                pos + enc_str_be(s).len(),
            )[i]);
    }
    lemma_parse_u64_be(b, pos, s.len() as u64);
    assert(b.subrange(pos + 8, pos + 8 + chars.len()) =~= chars) by {
        assert(forall|i: int|
            0 <= i < chars.len() ==> #[trigger] b.subrange(pos + 8, pos + 8 + chars.len())[i] == b.subrange(
                pos,
                pos + enc_str_be(s).len(),
            )[i + 8]);
    }
    assert forall|i: int, pos2: int|
        0 <= i < s.len() && 0 <= pos2 && pos2 + enc_char_be_fn()(s[i]).len() <= b.len()
            && #[trigger] b.subrange(pos2, pos2 + enc_char_be_fn()(s[i]).len()) == enc_char_be_fn()(
            s[i],
        ) implies parse_char_be_fn()(b, pos2) == Some((
        s[i],
        pos2 + enc_char_be_fn()(s[i]).len(),
    )) by {
        lemma_parse_char_be(b, pos2, s[i]);
    }
    lemma_parse_list(b, pos + 8, s, enc_char_be_fn(), parse_char_be_fn());
    assert((s.len() as u64) as int == s.len() as int);
}

/// Extracting the middle piece of a three-way concatenation.
pub proof fn lemma_concat_subrange<T>(b: Seq<T>, pre: Seq<T>, mid: Seq<T>, post: Seq<T>)
    requires
        b == pre + mid + post,
    ensures
        b.subrange(pre.len() as int, pre.len() as int + mid.len() as int) == mid,
{
    assert(b.subrange(pre.len() as int, pre.len() as int + mid.len() as int) =~= mid);
}

/// Splitting a known two-part window of a buffer into its parts.
pub proof fn lemma_split_at<T>(b: Seq<T>, pos: int, x: Seq<T>, y: Seq<T>)
    requires
        0 <= pos,
        pos + x.len() + y.len() <= b.len(),
        b.subrange(pos, pos + x.len() + y.len()) == x + y,
    ensures
        b.subrange(pos, pos + x.len()) == x,
        b.subrange(pos + x.len(), pos + x.len() + y.len()) == y,
{
    assert(b.subrange(pos, pos + x.len() as int) =~= x) by {
        assert(forall|i: int|
            0 <= i < x.len() ==> #[trigger] b.subrange(pos, pos + x.len() as int)[i]
                == b.subrange(pos, pos + x.len() + y.len())[i]);
    }
    assert(b.subrange(pos + x.len(), pos + x.len() + y.len()) =~= y) by {
        assert(forall|i: int|
            0 <= i < y.len() ==> #[trigger] b.subrange(pos + x.len(), pos + x.len() + y.len())[i]
                == b.subrange(pos, pos + x.len() + y.len())[i + x.len()]);
    }
}

// ---------------------------------------------------------------------
// Executable encoders
// ---------------------------------------------------------------------

pub fn push_u32_le(out: &mut Vec<u8>, v: u32)
    ensures
        final(out)@ == old(out)@ + le32(v),
{
    out.push((v & 0xff) as u8);
    out.push(((v >> 8) & 0xff) as u8);
    out.push(((v >> 16) & 0xff) as u8);
    out.push(((v >> 24) & 0xff) as u8);
    proof {
        assert(out@ =~= old(out)@ + le32(v));
    }
}

pub fn push_u64_le(out: &mut Vec<u8>, v: u64)
    ensures
        final(out)@ == old(out)@ + le64(v),
{
    out.push((v & 0xff) as u8);
    out.push(((v >> 8) & 0xff) as u8);
    out.push(((v >> 16) & 0xff) as u8);
    out.push(((v >> 24) & 0xff) as u8);
    out.push(((v >> 32) & 0xff) as u8);
    out.push(((v >> 40) & 0xff) as u8);
    out.push(((v >> 48) & 0xff) as u8);
    out.push(((v >> 56) & 0xff) as u8);
    proof {
        assert(out@ =~= old(out)@ + le64(v));
    }
}

pub fn push_u32_be(out: &mut Vec<u8>, v: u32)
    ensures
        final(out)@ == old(out)@ + be32(v),
{
    out.push(((v >> 24) & 0xff) as u8);
    out.push(((v >> 16) & 0xff) as u8);
    out.push(((v >> 8) & 0xff) as u8);
    out.push((v & 0xff) as u8);
    proof {
        assert(out@ =~= old(out)@ + be32(v));
    }
}

pub fn push_u64_be(out: &mut Vec<u8>, v: u64)
    ensures
        final(out)@ == old(out)@ + be64(v),
{
    out.push(((v >> 56) & 0xff) as u8);
    out.push(((v >> 48) & 0xff) as u8);
    out.push(((v >> 40) & 0xff) as u8);
    out.push(((v >> 32) & 0xff) as u8);
    out.push(((v >> 24) & 0xff) as u8);
    out.push(((v >> 16) & 0xff) as u8);
    out.push(((v >> 8) & 0xff) as u8);
    out.push((v & 0xff) as u8);
    proof {
        assert(out@ =~= old(out)@ + be64(v));
    }
}

pub fn push_u128_be(out: &mut Vec<u8>, v: u128)
    ensures
        final(out)@ == old(out)@ + be128(v),
{
    push_u64_be(out, (v >> 64) as u64);
    push_u64_be(out, (v & 0xffff_ffff_ffff_ffff) as u64);
    proof {
        assert(out@ =~= old(out)@ + be128(v));
    }
}

pub fn push_i32_le(out: &mut Vec<u8>, v: i32)
    ensures
        final(out)@ == old(out)@ + i32_le(v),
{
    push_u32_le(out, v as u32);
}

pub fn push_i32_be(out: &mut Vec<u8>, v: i32)
    ensures
        final(out)@ == old(out)@ + i32_be(v),
{
    push_u32_be(out, v as u32);
}

pub fn push_str_le(out: &mut Vec<u8>, s: &str)
    ensures
        final(out)@ == old(out)@ + enc_str_le(s@),
        s@.len() <= usize::MAX,
{
    let n = s.unicode_len();
    push_u64_le(out, n as u64);
    let mut i: usize = 0;
    while i < n
        invariant
            n == s@.len(),
            i <= n,
            out@ == old(out)@ + le64(n as u64) + enc_list(s@.take(i as int), enc_char_le_fn()),
        decreases n - i,
    {
        let c = s.get_char(i);
        push_u32_le(out, c as u32);
        proof {
            assert(s@.take(i + 1) =~= s@.take(i as int).push(s@[i as int]));
            lemma_enc_list_push(s@.take(i as int), s@[i as int], enc_char_le_fn());
            assert(out@ =~= old(out)@ + le64(n as u64) + enc_list(
                s@.take(i + 1),
                enc_char_le_fn(),
            ));
        }
        i += 1;
    }
    proof {
        assert(s@.take(n as int) =~= s@);
        assert(out@ =~= old(out)@ + enc_str_le(s@));
    }
}

pub fn push_str_be(out: &mut Vec<u8>, s: &str)
    ensures
        final(out)@ == old(out)@ + enc_str_be(s@),
        s@.len() <= usize::MAX,
{
    let n = s.unicode_len();
    push_u64_be(out, n as u64);
    let mut i: usize = 0;
    while i < n
        invariant
            n == s@.len(),
            i <= n,
            out@ == old(out)@ + be64(n as u64) + enc_list(s@.take(i as int), enc_char_be_fn()),
        decreases n - i,
    {
        let c = s.get_char(i);
        push_u32_be(out, c as u32);
        proof {
            assert(s@.take(i + 1) =~= s@.take(i as int).push(s@[i as int]));
            lemma_enc_list_push(s@.take(i as int), s@[i as int], enc_char_be_fn());
            assert(out@ =~= old(out)@ + be64(n as u64) + enc_list(
                s@.take(i + 1),
                enc_char_be_fn(),
            ));
        }
        i += 1;
    }
    proof {
        assert(s@.take(n as int) =~= s@);
        assert(out@ =~= old(out)@ + enc_str_be(s@));
    }
}

// ---------------------------------------------------------------------
// Executable decoders
// ---------------------------------------------------------------------

pub fn read_u8(b: &Vec<u8>, pos: usize) -> (r: Option<(u8, usize)>)
    ensures
        r is Some <==> parse_u8(b@, pos as int) is Some,
        r matches Some((v, np)) ==> parse_u8(b@, pos as int) == Some((v, np as int)),
{
    if pos < b.len() {
        Some((b[pos], pos + 1))
    } else {
        None
    }
}

pub fn read_u32_le(b: &Vec<u8>, pos: usize) -> (r: Option<(u32, usize)>)
    ensures
        r is Some <==> parse_u32_le(b@, pos as int) is Some,
        r matches Some((v, np)) ==> parse_u32_le(b@, pos as int) == Some((v, np as int)),
{
    if b.len() >= 4 && pos <= b.len() - 4 {
        let v = (b[pos] as u32) | ((b[pos + 1] as u32) << 8) | ((b[pos + 2] as u32) << 16) | ((b[pos
            + 3] as u32) << 24);
        Some((v, pos + 4))
    } else {
        None
    }
}

pub fn read_u64_le(b: &Vec<u8>, pos: usize) -> (r: Option<(u64, usize)>)
    ensures
        r is Some <==> parse_u64_le(b@, pos as int) is Some,
        r matches Some((v, np)) ==> parse_u64_le(b@, pos as int) == Some((v, np as int)),
{
    if b.len() >= 8 && pos <= b.len() - 8 {
        let v = (b[pos] as u64) | ((b[pos + 1] as u64) << 8) | ((b[pos + 2] as u64) << 16) | ((b[pos
            + 3] as u64) << 24) | ((b[pos + 4] as u64) << 32) | ((b[pos + 5] as u64) << 40) | ((b[pos
            + 6] as u64) << 48) | ((b[pos + 7] as u64) << 56);
        Some((v, pos + 8))
    } else {
        None
    }
}

pub fn read_u32_be(b: &Vec<u8>, pos: usize) -> (r: Option<(u32, usize)>)
    ensures
        r is Some <==> parse_u32_be(b@, pos as int) is Some,
        r matches Some((v, np)) ==> parse_u32_be(b@, pos as int) == Some((v, np as int)),
{
    if b.len() >= 4 && pos <= b.len() - 4 {
        let v = ((b[pos] as u32) << 24) | ((b[pos + 1] as u32) << 16) | ((b[pos + 2] as u32) << 8)
            | (b[pos + 3] as u32);
        Some((v, pos + 4))
    } else {
        None
    }
}

pub fn read_u64_be(b: &Vec<u8>, pos: usize) -> (r: Option<(u64, usize)>)
    ensures
        r is Some <==> parse_u64_be(b@, pos as int) is Some,
        r matches Some((v, np)) ==> parse_u64_be(b@, pos as int) == Some((v, np as int)),
{
    if b.len() >= 8 && pos <= b.len() - 8 {
        let v = ((b[pos] as u64) << 56) | ((b[pos + 1] as u64) << 48) | ((b[pos + 2] as u64) << 40)
            | ((b[pos + 3] as u64) << 32) | ((b[pos + 4] as u64) << 24) | ((b[pos
            + 5] as u64) << 16) | ((b[pos + 6] as u64) << 8) | (b[pos + 7] as u64);
        Some((v, pos + 8))
    } else {
        None
    }
}

pub fn read_u128_be(b: &Vec<u8>, pos: usize) -> (r: Option<(u128, usize)>)
    ensures
        r is Some <==> parse_u128_be(b@, pos as int) is Some,
        r matches Some((v, np)) ==> parse_u128_be(b@, pos as int) == Some((v, np as int)),
{
    match read_u64_be(b, pos) {
        Some((hi, p1)) => match read_u64_be(b, p1) {
            Some((lo, p2)) => Some((((hi as u128) << 64) | (lo as u128), p2)),
            None => None,
        },
        None => None,
    }
}

pub fn read_i32_le(b: &Vec<u8>, pos: usize) -> (r: Option<(i32, usize)>)
    ensures
        r is Some <==> parse_i32_le(b@, pos as int) is Some,
        r matches Some((v, np)) ==> parse_i32_le(b@, pos as int) == Some((v, np as int)),
{
    match read_u32_le(b, pos) {
        Some((v, np)) => Some((v as i32, np)),
        None => None,
    }
}

pub fn read_i32_be(b: &Vec<u8>, pos: usize) -> (r: Option<(i32, usize)>)
    ensures
        r is Some <==> parse_i32_be(b@, pos as int) is Some,
        r matches Some((v, np)) ==> parse_i32_be(b@, pos as int) == Some((v, np as int)),
{
    match read_u32_be(b, pos) {
        Some((v, np)) => Some((v as i32, np)),
        None => None,
    }
}

pub fn read_str_le(b: &Vec<u8>, pos: usize) -> (r: Option<(String, usize)>)
    ensures
        r is Some <==> parse_str_le(b@, pos as int) is Some,
        r matches Some((s, np)) ==> parse_str_le(b@, pos as int) == Some((s@, np as int))
            && np <= b@.len(),
{
    let (n, mut cur) = match read_u64_le(b, pos) {
        Some(x) => x,
        None => {
            return None;
        },
    };
    let ghost start = cur as int;
    let mut s = String::new();
    let mut i: u64 = 0;
    while i < n
        invariant
            i <= n,
            cur <= b@.len(),
            parse_u64_le(b@, pos as int) == Some((n, start)),
            parse_list(b@, start, n as int, parse_char_le_fn()) == (match parse_list(
                b@,
                cur as int,
                n - i,
                parse_char_le_fn(),
            ) {
                Some((rest, end)) => Some((s@ + rest, end)),
                None => None::<(Seq<char>, int)>,
            }),
        decreases n - i,
    {
        let (v, np) = match read_u32_le(b, cur) {
            Some(x) => x,
            None => {
                proof {
                    assert(parse_char_le_fn()(b@, cur as int) is None);
                    assert(parse_list(b@, cur as int, n - i, parse_char_le_fn()) is None);
                }
                return None;
            },
        };
        let c = match char_from_u32(v) {
            Some(c) => c,
            None => {
                proof {
                    assert(parse_char_le_fn()(b@, cur as int) is None);
                    assert(parse_list(b@, cur as int, n - i, parse_char_le_fn()) is None);
                }
                return None;
            },
        };
        proof {
            assert(parse_char_le_fn()(b@, cur as int) == Some((c, np as int)));
            assert((s@ + seq![c]) =~= s@.push(c));
            assert forall|rest: Seq<char>| true implies s@ + (seq![c] + rest) =~= s@.push(c)
                + rest by {
                assert(s@ + (seq![c] + rest) =~= s@.push(c) + rest);
            }
        }
        push_char(&mut s, c);
        cur = np;
        i += 1;
    }
    proof {
        assert(parse_list(b@, cur as int, 0, parse_char_le_fn()) == Some((
            Seq::<char>::empty(),
            cur as int,
        )));
        assert(s@ + Seq::<char>::empty() =~= s@);
    }
    Some((s, cur))
}

pub fn read_str_be(b: &Vec<u8>, pos: usize) -> (r: Option<(String, usize)>)
    ensures
        r is Some <==> parse_str_be(b@, pos as int) is Some,
        r matches Some((s, np)) ==> parse_str_be(b@, pos as int) == Some((s@, np as int))
            && np <= b@.len(),
{
    let (n, mut cur) = match read_u64_be(b, pos) {
        Some(x) => x,
        None => {
            return None;
        },
    };
    let ghost start = cur as int;
    let mut s = String::new();
    let mut i: u64 = 0;
    while i < n
        invariant
            i <= n,
            cur <= b@.len(),
            parse_u64_be(b@, pos as int) == Some((n, start)),
            parse_list(b@, start, n as int, parse_char_be_fn()) == (match parse_list(
                b@,
                cur as int,
                n - i,
                parse_char_be_fn(),
            ) {
                Some((rest, end)) => Some((s@ + rest, end)),
                None => None::<(Seq<char>, int)>,
            }),
        decreases n - i,
    {
        let (v, np) = match read_u32_be(b, cur) {
            Some(x) => x,
            None => {
                proof {
                    assert(parse_char_be_fn()(b@, cur as int) is None);
                    assert(parse_list(b@, cur as int, n - i, parse_char_be_fn()) is None);
                }
                return None;
            },
        };
        let c = match char_from_u32(v) {
            Some(c) => c,
            None => {
                proof {
                    assert(parse_char_be_fn()(b@, cur as int) is None);
                    assert(parse_list(b@, cur as int, n - i, parse_char_be_fn()) is None);
                }
                return None;
            },
        };
        proof {
            assert(parse_char_be_fn()(b@, cur as int) == Some((c, np as int)));
            assert((s@ + seq![c]) =~= s@.push(c));
            assert forall|rest: Seq<char>| true implies s@ + (seq![c] + rest) =~= s@.push(c)
                + rest by {
                assert(s@ + (seq![c] + rest) =~= s@.push(c) + rest);
            }
        }
        push_char(&mut s, c);
        cur = np;
        i += 1;
    }
    proof {
        assert(parse_list(b@, cur as int, 0, parse_char_be_fn()) == Some((
            Seq::<char>::empty(),
            cur as int,
        )));
        assert(s@ + Seq::<char>::empty() =~= s@);
    }
    Some((s, cur))
}

} // verus!
