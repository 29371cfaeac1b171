//! Little-endian byte layout of unsigned bit patterns, as spec functions,
//! with the executable assembly and disassembly proved against them.

use vstd::prelude::*;

verus! {

/// The one byte of an 8-bit pattern.
pub open spec fn le_bytes8(n: u8) -> Seq<u8> {
    seq![n]
}

/// The 8-bit pattern held by a one-byte sequence.
pub open spec fn le_value8(b: Seq<u8>) -> u8 {
    b[0]
}

/// Decoding the byte of `n` gives `n`; encoding the value of one byte gives that byte.
pub proof fn lemma_le8(n: u8, b: Seq<u8>)
    ensures
        le_bytes8(n).len() == 1,
        le_value8(le_bytes8(n)) == n,
        b.len() == 1 ==> le_bytes8(le_value8(b)) == b,
{
    if b.len() == 1 {
        assert(le_bytes8(le_value8(b)) =~= b);
    }
}

/// The 2 bytes of a 16-bit pattern, least significant first.
pub open spec fn le_bytes16(n: u16) -> Seq<u8> {
    seq![n as u8, (n >> 8u16) as u8]
}

/// The 16-bit pattern whose bytes, least significant first, are the first 2 of `b`.
pub open spec fn le_value16(b: Seq<u8>) -> u16 {
    (b[0] as u16) | ((b[1] as u16) << 8u16)
}

/// Decoding the bytes of `n` gives `n`; encoding the value of 2 bytes gives those bytes.
pub proof fn lemma_le16(n: u16, b: Seq<u8>)
    ensures
        le_bytes16(n).len() == 2,
        le_value16(le_bytes16(n)) == n,
        b.len() == 2 ==> le_bytes16(le_value16(b)) == b,
{
    assert(((n as u8) as u16) | ((((n >> 8u16) as u8) as u16) << 8u16) == n) by (bit_vector);
    let b0 = b[0];
    let b1 = b[1];
    let v = le_value16(b);
    assert((v as u8) == b0 && ((v >> 8u16) as u8) == b1) by (bit_vector)
        requires
            v == (b0 as u16) | ((b1 as u16) << 8u16),
    ;
    if b.len() == 2 {
        assert(le_bytes16(v) =~= b);
    }
}

/// Assembles a 16-bit pattern from 2 bytes, least significant first.
pub fn le_assemble16(b: &[u8; 2]) -> (r: u16)
    ensures
        r == le_value16(b@),
{
    (b[0] as u16) | ((b[1] as u16) << 8)
}

/// Splits a 16-bit pattern into 2 bytes, least significant first.
pub fn le_split16(n: u16) -> (r: [u8; 2])
    ensures
        r@ == le_bytes16(n),
{
    let r: [u8; 2] = [n as u8, (n >> 8) as u8];
    assert(r@ =~= le_bytes16(n));
    r
}

/// The 4 bytes of a 32-bit pattern, least significant first.
pub open spec fn le_bytes32(n: u32) -> Seq<u8> {
    seq![n as u8, (n >> 8u32) as u8, (n >> 16u32) as u8, (n >> 24u32) as u8]
}

/// The 32-bit pattern whose bytes, least significant first, are the first 4 of `b`.
pub open spec fn le_value32(b: Seq<u8>) -> u32 {
    (b[0] as u32) | ((b[1] as u32) << 8u32) | ((b[2] as u32) << 16u32) | ((b[3] as u32) << 24u32)
}

/// Decoding the bytes of `n` gives `n`; encoding the value of 4 bytes gives those bytes.
pub proof fn lemma_le32(n: u32, b: Seq<u8>)
    ensures
        le_bytes32(n).len() == 4,
        le_value32(le_bytes32(n)) == n,
        b.len() == 4 ==> le_bytes32(le_value32(b)) == b,
{
    assert(((n as u8) as u32) | ((((n >> 8u32) as u8) as u32) << 8u32) | ((((n >> 16u32) as u8) as u32) << 16u32) | ((((n >> 24u32) as u8) as u32) << 24u32) == n) by (bit_vector);
    let b0 = b[0];
    let b1 = b[1];
    let b2 = b[2];
    let b3 = b[3];
    let v = le_value32(b);
    assert((v as u8) == b0 && ((v >> 8u32) as u8) == b1 && ((v >> 16u32) as u8) == b2 && ((v >> 24u32) as u8) == b3) by (bit_vector)
        requires
            v == (b0 as u32) | ((b1 as u32) << 8u32) | ((b2 as u32) << 16u32) | ((b3 as u32) << 24u32),
    ;
    if b.len() == 4 {
        assert(le_bytes32(v) =~= b);
    }
}

/// Assembles a 32-bit pattern from 4 bytes, least significant first.
pub fn le_assemble32(b: &[u8; 4]) -> (r: u32)
    ensures
        r == le_value32(b@),
{
    (b[0] as u32) | ((b[1] as u32) << 8) | ((b[2] as u32) << 16) | ((b[3] as u32) << 24)
}

/// Splits a 32-bit pattern into 4 bytes, least significant first.
pub fn le_split32(n: u32) -> (r: [u8; 4])
    ensures
        r@ == le_bytes32(n),
{
    let r: [u8; 4] = [n as u8, (n >> 8) as u8, (n >> 16) as u8, (n >> 24) as u8];
    assert(r@ =~= le_bytes32(n));
    r
}

/// The 8 bytes of a 64-bit pattern, least significant first.
pub open spec fn le_bytes64(n: u64) -> Seq<u8> {
    seq![n as u8, (n >> 8u64) as u8, (n >> 16u64) as u8, (n >> 24u64) as u8, (n >> 32u64) as u8, (n >> 40u64) as u8, (n >> 48u64) as u8, (n >> 56u64) as u8]
}

/// The 64-bit pattern whose bytes, least significant first, are the first 8 of `b`.
pub open spec fn le_value64(b: Seq<u8>) -> u64 {
    (b[0] as u64) | ((b[1] as u64) << 8u64) | ((b[2] as u64) << 16u64) | ((b[3] as u64) << 24u64) | ((b[4] as u64) << 32u64) | ((b[5] as u64) << 40u64) | ((b[6] as u64) << 48u64) | ((b[7] as u64) << 56u64)
}

/// Decoding the bytes of `n` gives `n`; encoding the value of 8 bytes gives those bytes.
pub proof fn lemma_le64(n: u64, b: Seq<u8>)
    ensures
        le_bytes64(n).len() == 8,
        le_value64(le_bytes64(n)) == n,
        b.len() == 8 ==> le_bytes64(le_value64(b)) == b,
{
    assert(((n as u8) as u64) | ((((n >> 8u64) as u8) as u64) << 8u64) | ((((n >> 16u64) as u8) as u64) << 16u64) | ((((n >> 24u64) as u8) as u64) << 24u64) | ((((n >> 32u64) as u8) as u64) << 32u64) | ((((n >> 40u64) as u8) as u64) << 40u64) | ((((n >> 48u64) as u8) as u64) << 48u64) | ((((n >> 56u64) as u8) as u64) << 56u64) == n) by (bit_vector);
    let b0 = b[0];
    let b1 = b[1];
    let b2 = b[2];
    let b3 = b[3];
    let b4 = b[4];
    let b5 = b[5];
    let b6 = b[6];
    let b7 = b[7];
    let v = le_value64(b);
    assert((v as u8) == b0 && ((v >> 8u64) as u8) == b1 && ((v >> 16u64) as u8) == b2 && ((v >> 24u64) as u8) == b3 && ((v >> 32u64) as u8) == b4 && ((v >> 40u64) as u8) == b5 && ((v >> 48u64) as u8) == b6 && ((v >> 56u64) as u8) == b7) by (bit_vector)
        requires
            v == (b0 as u64) | ((b1 as u64) << 8u64) | ((b2 as u64) << 16u64) | ((b3 as u64) << 24u64) | ((b4 as u64) << 32u64) | ((b5 as u64) << 40u64) | ((b6 as u64) << 48u64) | ((b7 as u64) << 56u64),
    ;
    if b.len() == 8 {
        assert(le_bytes64(v) =~= b);
    }
}

/// Assembles a 64-bit pattern from 8 bytes, least significant first.
pub fn le_assemble64(b: &[u8; 8]) -> (r: u64)
    ensures
        r == le_value64(b@),
{
    (b[0] as u64) | ((b[1] as u64) << 8) | ((b[2] as u64) << 16) | ((b[3] as u64) << 24) | ((b[4] as u64) << 32) | ((b[5] as u64) << 40) | ((b[6] as u64) << 48) | ((b[7] as u64) << 56)
}

/// Splits a 64-bit pattern into 8 bytes, least significant first.
pub fn le_split64(n: u64) -> (r: [u8; 8])
    ensures
        r@ == le_bytes64(n),
{
    let r: [u8; 8] = [n as u8, (n >> 8) as u8, (n >> 16) as u8, (n >> 24) as u8, (n >> 32) as u8, (n >> 40) as u8, (n >> 48) as u8, (n >> 56) as u8];
    assert(r@ =~= le_bytes64(n));
    r
}

} // verus!
