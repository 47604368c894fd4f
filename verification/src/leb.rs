//! Unsigned LEB128: the mathematical model of the encoding, and the decoder.

use vstd::prelude::*;

verus! {

/// The unsigned LEB128 encoding of `v`: seven bits a byte, low bits first,
/// the top bit set on every byte but the last.
pub open spec fn leb128_encode(v: nat) -> Seq<u8>
    decreases v,
{
    if v < 128 {
        seq![v as u8]
    } else {
        seq![(v % 128 + 128) as u8] + leb128_encode(v / 128)
    }
}

/// The number of bytes in the encoding of `v`.
pub open spec fn leb128_len(v: nat) -> nat
    decreases v,
{
    if v < 128 {
        1
    } else {
        1 + leb128_len(v / 128)
    }
}

/// What a decoder reads from the front of `b`, where `b[0]` is byte number
/// `index` of the number being read: the value, or `None` where the bytes end
/// before a byte without the top bit, or where the tenth byte carries more
/// than the one bit that is left of 64.
pub open spec fn leb128_decode(b: Seq<u8>, index: nat) -> Option<nat>
    decreases b.len(),
{
    if b.len() == 0 {
        None
    } else if index == 9 && b[0] != 0 && b[0] != 1 {
        None
    } else if b[0] < 128 {
        Some(b[0] as nat)
    } else {
        match leb128_decode(b.skip(1), index + 1) {
            Some(rest) => Some((b[0] - 128) as nat + 128 * rest),
            None => None,
        }
    }
}


/// The largest value, plus one, that can still follow at byte number `index`
/// of a 64-bit number: `2^(64 - 7 * index)`.
pub open spec fn leb128_room(index: nat) -> nat
    decreases 9 - index,
{
    if index >= 9 {
        2
    } else {
        128 * leb128_room(index + 1)
    }
}

/// The encoding has as many bytes as `leb128_len` says.
pub proof fn lemma_encode_len(v: nat)
    ensures
        leb128_encode(v).len() == leb128_len(v),
        leb128_len(v) >= 1,
    decreases v,
{
    if v >= 128 {
        lemma_encode_len(v / 128);
    }
}

/// A value with room at byte number `index` needs at most `10 - index` bytes.
pub proof fn lemma_len_bound(v: nat, index: nat)
    requires
        index <= 9,
        v < leb128_room(index),
    ensures
        leb128_len(v) <= 10 - index,
    decreases v,
{
    if v >= 128 {
        lemma_len_bound(v / 128, index + 1);
    }
}

/// The room at the first byte is all of 64 bits.
pub proof fn lemma_room_zero()
    ensures
        leb128_room(0) == 0x1_0000_0000_0000_0000,
{
    reveal_with_fuel(leb128_room, 11);
}

/// A 64-bit value is encoded in at most ten bytes.
pub proof fn lemma_len_u64(v: u64)
    ensures
        1 <= leb128_len(v as nat) <= 10,
        leb128_encode(v as nat).len() == leb128_len(v as nat),
{
    lemma_room_zero();
    lemma_len_bound(v as nat, 0);
    lemma_encode_len(v as nat);
}

/// A larger value never has a shorter encoding.
pub proof fn lemma_len_monotone(a: nat, b: nat)
    requires
        a <= b,
    ensures
        leb128_len(a) <= leb128_len(b),
    decreases b,
{
    if a >= 128 {
        lemma_len_monotone(a / 128, b / 128);
    }
}

/// Decoding reads back what was encoded, whatever bytes follow.
pub proof fn lemma_decode_encode_at(v: nat, rest: Seq<u8>, index: nat)
    requires
        index <= 9,
        v < leb128_room(index),
    ensures
        leb128_decode(leb128_encode(v) + rest, index) == Some(v),
    decreases v,
{
    let b = leb128_encode(v) + rest;
    if v < 128 {
        assert(b[0] == v as u8);
    } else {
        assert(b[0] == (v % 128 + 128) as u8);
        assert(b.skip(1) =~= leb128_encode(v / 128) + rest);
        lemma_decode_encode_at(v / 128, rest, index + 1);
    }
}

/// Decoding the encoding of a 64-bit value gives the value back.
pub proof fn lemma_decode_encode(v: u64, rest: Seq<u8>)
    ensures
        leb128_decode(leb128_encode(v as nat) + rest, 0) == Some(v as nat),
{
    lemma_room_zero();
    lemma_decode_encode_at(v as nat, rest, 0);
}

/// Whatever a decoder reads at byte number `index` has room there, so a
/// number read from the first byte fits in 64 bits.
pub proof fn lemma_decode_bound(b: Seq<u8>, index: nat)
    requires
        index <= 9,
        leb128_decode(b, index) is Some,
    ensures
        leb128_decode(b, index).unwrap() < leb128_room(index),
    decreases b.len(),
{
    reveal_with_fuel(leb128_room, 2);
    if b[0] >= 128 {
        lemma_decode_bound(b.skip(1), index + 1);
    } else {
        lemma_room_at_least(index);
    }
}

/// Every byte position has room for at least one bit, and the positions
/// before the tenth for a whole byte's seven.
pub proof fn lemma_room_at_least(index: nat)
    ensures
        leb128_room(index) >= 2,
        index < 9 ==> leb128_room(index) >= 128,
    decreases 9 - index,
{
    if index < 9 {
        lemma_room_at_least(index + 1);
    }
}

/// The error of the outside decoder: the bytes ended early, or the number
/// does not fit in 64 bits.
#[verifier::external_type_specification]
#[verifier::external_body]
pub struct ExReadError(leb128::read::Error);

/// Calls `leb128::read::unsigned` on a cursor over `bytes`. It reads byte by
/// byte up to the first one without the top bit and sums their low seven
/// bits, each shifted by seven more than the one before; it fails where the
/// bytes end first, and where the tenth byte is neither 0 nor 1. Bytes after
/// the number are left unread.
#[verifier::external_body]
pub(crate) fn read_unsigned(bytes: &Vec<u8>) -> (r: Result<u64, leb128::read::Error>)
    ensures
        r is Ok <==> leb128_decode(bytes@, 0) is Some,
        r is Ok ==> r.unwrap() as nat == leb128_decode(bytes@, 0).unwrap(),
{
    leb128::read::unsigned(&mut std::io::Cursor::new(bytes))
}

/// Decodes an unsigned LEB128 number from the front of `bytes`.
pub fn decode_unsigned(bytes: &Vec<u8>) -> (r: Option<u64>)
    ensures
        r is Some <==> leb128_decode(bytes@, 0) is Some,
        r is Some ==> r.unwrap() as nat == leb128_decode(bytes@, 0).unwrap(),
{
    match read_unsigned(bytes) {
        Ok(v) => Some(v),
        Err(_) => None,
    }
}

} // verus!
