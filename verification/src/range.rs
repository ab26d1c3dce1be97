//! The bounds of a range read over a store keyed by bytes: ids are kept
//! under their 8 big-endian bytes, addresses under their own bytes.

use vstd::prelude::*;
use crate::keys::bytes_lt;

verus! {

/// The byte of `id` at bit offset `shift`.
pub open spec fn byte_at(id: u64, shift: u64) -> u64 {
    (id >> shift) & 0xff
}

/// The 8 big-endian bytes of an id: the key under which a store keeps it.
pub open spec fn be_bytes(id: u64) -> Seq<u8> {
    seq![
        byte_at(id, 56) as u8,
        byte_at(id, 48) as u8,
        byte_at(id, 40) as u8,
        byte_at(id, 32) as u8,
        byte_at(id, 24) as u8,
        byte_at(id, 16) as u8,
        byte_at(id, 8) as u8,
        byte_at(id, 0) as u8,
    ]
}

/// `id.to_be_bytes()`.
pub fn to_be_bytes(id: u64) -> (v: Vec<u8>)
    ensures
        v@ == be_bytes(id),
{
    let mut v: Vec<u8> = Vec::new();
    v.push(((id >> 56u64) & 0xffu64) as u8);
    v.push(((id >> 48u64) & 0xffu64) as u8);
    v.push(((id >> 40u64) & 0xffu64) as u8);
    v.push(((id >> 32u64) & 0xffu64) as u8);
    v.push(((id >> 24u64) & 0xffu64) as u8);
    v.push(((id >> 16u64) & 0xffu64) as u8);
    v.push(((id >> 8u64) & 0xffu64) as u8);
    v.push(((id >> 0u64) & 0xffu64) as u8);
    assert(v@ =~= be_bytes(id));
    v
}

/// The key from which an ascending read starts so as to begin right after
/// `start_after`: its bytes with a 1 byte appended.
pub fn calc_range_start(start_after: Option<u64>) -> (r: Option<Vec<u8>>)
    ensures
        match start_after {
            None => r is None,
            Some(id) => r matches Some(v) && v@ == be_bytes(id).push(1u8),
        },
{
    match start_after {
        Some(id) => {
            let mut v = to_be_bytes(id);
            v.push(1u8);
            Some(v)
        },
        None => None,
    }
}

/// The key at which a descending read starts (that key excluded): the bytes
/// of `start_after`.
pub fn calc_range_end(start_after: Option<u64>) -> (r: Option<Vec<u8>>)
    ensures
        match start_after {
            None => r is None,
            Some(id) => r matches Some(v) && v@ == be_bytes(id),
        },
{
    match start_after {
        Some(id) => Some(to_be_bytes(id)),
        None => None,
    }
}

/// The key from which an ascending read over addresses starts so as to begin
/// right after `start_after`: its bytes with a 1 byte appended.
pub fn calc_range_start_addr(start_after: Option<Vec<u8>>) -> (r: Option<Vec<u8>>)
    ensures
        match start_after {
            None => r is None,
            Some(a) => r matches Some(v) && v@ == a@.push(1u8),
        },
{
    match start_after {
        Some(a) => {
            let mut v = a;
            v.push(1u8);
            Some(v)
        },
        None => None,
    }
}

/// The key at which a descending read over addresses starts (that key
/// excluded): the bytes of `start_after`.
pub fn calc_range_end_addr(start_after: Option<Vec<u8>>) -> (r: Option<Vec<u8>>)
    ensures
        match start_after {
            None => r is None,
            Some(a) => r matches Some(v) && v@ == a@,
        },
{
    start_after
}

/// `x < y` read byte by byte from the byte at `shift` down.
pub open spec fn lex_from_0(x: u64, y: u64) -> bool {
    byte_at(x, 0) < byte_at(y, 0)
}

pub open spec fn lex_from_8(x: u64, y: u64) -> bool {
    byte_at(x, 8) < byte_at(y, 8) || (byte_at(x, 8) == byte_at(y, 8) && lex_from_0(x, y))
}

pub open spec fn lex_from_16(x: u64, y: u64) -> bool {
    byte_at(x, 16) < byte_at(y, 16) || (byte_at(x, 16) == byte_at(y, 16) && lex_from_8(x, y))
}

pub open spec fn lex_from_24(x: u64, y: u64) -> bool {
    byte_at(x, 24) < byte_at(y, 24) || (byte_at(x, 24) == byte_at(y, 24) && lex_from_16(x, y))
}

pub open spec fn lex_from_32(x: u64, y: u64) -> bool {
    byte_at(x, 32) < byte_at(y, 32) || (byte_at(x, 32) == byte_at(y, 32) && lex_from_24(x, y))
}

pub open spec fn lex_from_40(x: u64, y: u64) -> bool {
    byte_at(x, 40) < byte_at(y, 40) || (byte_at(x, 40) == byte_at(y, 40) && lex_from_32(x, y))
}

pub open spec fn lex_from_48(x: u64, y: u64) -> bool {
    byte_at(x, 48) < byte_at(y, 48) || (byte_at(x, 48) == byte_at(y, 48) && lex_from_40(x, y))
}

/// `x < y` read byte by byte from the most significant byte down.
pub open spec fn lex_u64_lt(x: u64, y: u64) -> bool {
    byte_at(x, 56) < byte_at(y, 56) || (byte_at(x, 56) == byte_at(y, 56) && lex_from_48(x, y))
}

proof fn lemma_lex_u64(x: u64, y: u64)
    by (bit_vector)
    ensures
        (x < y) == lex_u64_lt(x, y),
{
}

proof fn lemma_bytes_below_256(x: u64)
    by (bit_vector)
    ensures
        byte_at(x, 56) < 256,
        byte_at(x, 48) < 256,
        byte_at(x, 40) < 256,
        byte_at(x, 32) < 256,
        byte_at(x, 24) < 256,
        byte_at(x, 16) < 256,
        byte_at(x, 8) < 256,
        byte_at(x, 0) < 256,
{
}

/// Byte order on two sequences of equal length `n` is the order at their
/// first differing byte.
proof fn lemma_bytes_lt_same_len(a: Seq<u8>, b: Seq<u8>)
    requires
        a.len() == b.len(),
    ensures
        bytes_lt(a, b) == (a.len() > 0 && (a[0] < b[0] || (a[0] == b[0] && bytes_lt(a.drop_first(), b.drop_first())))),
{
}

/// Ids in the store are ordered as numbers: the byte order on their big-endian
/// keys is the order of the ids.
pub proof fn lemma_be_bytes_order(x: u64, y: u64)
    ensures
        bytes_lt(be_bytes(x), be_bytes(y)) == (x < y),
{
    lemma_lex_u64(x, y);
    lemma_bytes_below_256(x);
    lemma_bytes_below_256(y);
    let a = be_bytes(x);
    let b = be_bytes(y);
    assert(a.skip(8) =~= Seq::<u8>::empty());
    assert(b.skip(8) =~= Seq::<u8>::empty());
    assert(!bytes_lt(a.skip(8), b.skip(8)));
    assert forall|i: int| 0 <= i < 8 implies #[trigger] a.skip(i).drop_first() =~= a.skip(i + 1) && b.skip(i).drop_first() =~= b.skip(i + 1) by {}
    lemma_bytes_lt_same_len(a.skip(7), b.skip(7));
    lemma_bytes_lt_same_len(a.skip(6), b.skip(6));
    lemma_bytes_lt_same_len(a.skip(5), b.skip(5));
    lemma_bytes_lt_same_len(a.skip(4), b.skip(4));
    lemma_bytes_lt_same_len(a.skip(3), b.skip(3));
    lemma_bytes_lt_same_len(a.skip(2), b.skip(2));
    lemma_bytes_lt_same_len(a.skip(1), b.skip(1));
    lemma_bytes_lt_same_len(a.skip(0), b.skip(0));
    assert(a.skip(0) =~= a);
    assert(b.skip(0) =~= b);
}

/// A byte string with a 1 byte appended lies between that string and every
/// key of the same length above it; so an ascending read from it begins with
/// the first key after the string.
pub proof fn lemma_start_after_bytes(a: Seq<u8>, k: Seq<u8>)
    requires
        k.len() == a.len(),
    ensures
        !bytes_lt(k, a.push(1u8)) == bytes_lt(a, k),
    decreases a.len(),
{
    if a.len() == 0 {
        assert(k =~= a);
    } else {
        assert(a.push(1u8).drop_first() =~= a.drop_first().push(1u8));
        lemma_start_after_bytes(a.drop_first(), k.drop_first());
    }
}

/// An ascending read of ids from `calc_range_start(Some(id))` returns exactly
/// the ids after `id`; a descending read ending at `calc_range_end(Some(id))`
/// (excluded) returns exactly the ids before it.
pub proof fn lemma_range_bounds(id: u64, k: u64)
    ensures
        !bytes_lt(be_bytes(k), be_bytes(id).push(1u8)) == (id < k),
        bytes_lt(be_bytes(k), be_bytes(id)) == (k < id),
{
    lemma_start_after_bytes(be_bytes(id), be_bytes(k));
    lemma_be_bytes_order(id, k);
    lemma_be_bytes_order(k, id);
}

} // verus!
