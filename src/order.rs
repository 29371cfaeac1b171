//! Byte-order policies and the conversions of each integer type under them.

use vstd::prelude::*;
use crate::codec::{
    le_assemble16, le_assemble32, le_assemble64, le_bytes16, le_bytes32, le_bytes64, le_bytes8,
    le_split16, le_split32, le_split64, le_value16, le_value32, le_value64, le_value8, lemma_le16,
    lemma_le32, lemma_le64, lemma_le8,
};

verus! {

/// A fixed-size buffer that can be seen as a sequence of items.
pub trait AsSlice<T> {
    /// The items of the buffer, in order.
    spec fn items(&self) -> Seq<T>;

    /// The items as a slice.
    fn as_slice(&self) -> (r: &[T])
        ensures
            r@ == self.items(),
    ;

    /// Replaces the item at `i` by `v`.
    fn put(&mut self, i: usize, v: T)
        requires
            i < old(self).items().len(),
        ensures
            final(self).items() == old(self).items().update(i as int, v),
    ;
}

impl<T: Copy, const N: usize> AsSlice<T> for [T; N] {
    open spec fn items(&self) -> Seq<T> {
        self@
    }

    fn as_slice(&self) -> (r: &[T]) {
        self
    }

    fn put(&mut self, i: usize, v: T) {
        self[i] = v;
    }
}

/// Conversion of a fixed-width value `T` to a byte buffer and back, in one byte order.
///
/// `encode` and `decode` say which bytes stand for which value; the executable
/// conversions are held to them.
pub trait ByteOrder<T> {
    /// Conversion buffer type: exactly `width()` bytes.
    type Buffer: AsSlice<u8>;

    /// The number of bytes of a `T`.
    spec fn width() -> nat;

    /// The bytes of `n`, in this byte order.
    spec fn encode(n: T) -> Seq<u8>;

    /// The value whose bytes, in this byte order, are `b`.
    spec fn decode(b: Seq<u8>) -> T;

    /// `encode` and `decode` are inverse bijections between values and `width()` bytes.
    proof fn lemma_codec(n: T, b: Seq<u8>)
        ensures
            Self::width() > 0,
            Self::encode(n).len() == Self::width(),
            Self::decode(Self::encode(n)) == n,
            b.len() == Self::width() ==> Self::encode(Self::decode(b)) == b,
    ;

    /// Every buffer holds exactly `width()` bytes.
    proof fn lemma_buffer(buf: Self::Buffer)
        ensures
            buf.items().len() == Self::width(),
    ;

    /// Converts the byte array `buf` into a `T`.
    fn from_bytes(buf: Self::Buffer) -> (r: T)
        ensures
            r == Self::decode(buf.items()),
    ;

    /// Converts `n` into a byte array.
    fn into_bytes(n: T) -> (r: Self::Buffer)
        ensures
            r.items() == Self::encode(n),
    ;

    /// Returns a zeroed conversion buffer.
    fn buffer() -> (r: Self::Buffer)
        ensures
            r.items() == Seq::new(Self::width(), |i: int| 0u8),
    ;
}

/// Little endian byte order: least significant byte first.
///
/// A zero-sized tag, used as a type parameter only.
pub enum LittleEndian {
    Tag,
}

/// Little endian byte order.
pub type LE = LittleEndian;

/// Big endian byte order: most significant byte first.
///
/// A zero-sized tag, used as a type parameter only.
pub enum BigEndian {
    Tag,
}

/// Big endian byte order.
pub type BE = BigEndian;

/// Network byte order: most significant byte first.
pub type NetworkByteOrder = BigEndian;

impl ByteOrder<u8> for LittleEndian {
    type Buffer = [u8; 1];

    open spec fn width() -> nat {
        1
    }

    open spec fn encode(n: u8) -> Seq<u8> {
        le_bytes8(n)
    }

    open spec fn decode(b: Seq<u8>) -> u8 {
        le_value8(b)
    }

    proof fn lemma_codec(n: u8, b: Seq<u8>) {
        lemma_le8(n, b);
    }

    proof fn lemma_buffer(buf: [u8; 1]) {
    }

    fn from_bytes(buf: [u8; 1]) -> (r: u8) {
        buf[0]
    }

    fn into_bytes(n: u8) -> (r: [u8; 1]) {
        let le: [u8; 1] = [n];
        assert(le@ =~= le_bytes8(n));
        le
    }

    fn buffer() -> (r: [u8; 1]) {
        let r: [u8; 1] = [0; 1];
        assert(r@ =~= Seq::new(1, |i: int| 0u8));
        r
    }
}

impl ByteOrder<u8> for BigEndian {
    type Buffer = [u8; 1];

    open spec fn width() -> nat {
        1
    }

    open spec fn encode(n: u8) -> Seq<u8> {
        le_bytes8(n).reverse()
    }

    open spec fn decode(b: Seq<u8>) -> u8 {
        le_value8(b.reverse())
    }

    proof fn lemma_codec(n: u8, b: Seq<u8>) {
        lemma_le8(n, b.reverse());
        assert(b.reverse().reverse() =~= b);
        assert(le_bytes8(n).reverse().reverse() =~= le_bytes8(n));
    }

    proof fn lemma_buffer(buf: [u8; 1]) {
    }

    fn from_bytes(buf: [u8; 1]) -> (r: u8) {
        assert(buf@.reverse() =~= buf@);
        buf[0]
    }

    fn into_bytes(n: u8) -> (r: [u8; 1]) {
        let r: [u8; 1] = [n];
        assert(r@ =~= le_bytes8(n).reverse());
        r
    }

    fn buffer() -> (r: [u8; 1]) {
        let r: [u8; 1] = [0; 1];
        assert(r@ =~= Seq::new(1, |i: int| 0u8));
        r
    }
}

impl ByteOrder<u16> for LittleEndian {
    type Buffer = [u8; 2];

    open spec fn width() -> nat {
        2
    }

    open spec fn encode(n: u16) -> Seq<u8> {
        le_bytes16(n)
    }

    open spec fn decode(b: Seq<u8>) -> u16 {
        le_value16(b)
    }

    proof fn lemma_codec(n: u16, b: Seq<u8>) {
        lemma_le16(n, b);
    }

    proof fn lemma_buffer(buf: [u8; 2]) {
    }

    fn from_bytes(buf: [u8; 2]) -> (r: u16) {
        le_assemble16(&buf)
    }

    fn into_bytes(n: u16) -> (r: [u8; 2]) {
        le_split16(n)
    }

    fn buffer() -> (r: [u8; 2]) {
        let r: [u8; 2] = [0; 2];
        assert(r@ =~= Seq::new(2, |i: int| 0u8));
        r
    }
}

impl ByteOrder<u16> for BigEndian {
    type Buffer = [u8; 2];

    open spec fn width() -> nat {
        2
    }

    open spec fn encode(n: u16) -> Seq<u8> {
        le_bytes16(n).reverse()
    }

    open spec fn decode(b: Seq<u8>) -> u16 {
        le_value16(b.reverse())
    }

    proof fn lemma_codec(n: u16, b: Seq<u8>) {
        lemma_le16(n, b.reverse());
        assert(b.reverse().reverse() =~= b);
        assert(le_bytes16(n).reverse().reverse() =~= le_bytes16(n));
    }

    proof fn lemma_buffer(buf: [u8; 2]) {
    }

    fn from_bytes(buf: [u8; 2]) -> (r: u16) {
        let le: [u8; 2] = [buf[1], buf[0]];
        assert(le@ =~= buf@.reverse());
        le_assemble16(&le)
    }

    fn into_bytes(n: u16) -> (r: [u8; 2]) {
        let le = le_split16(n);
        let r: [u8; 2] = [le[1], le[0]];
        assert(r@ =~= le_bytes16(n).reverse());
        r
    }

    fn buffer() -> (r: [u8; 2]) {
        let r: [u8; 2] = [0; 2];
        assert(r@ =~= Seq::new(2, |i: int| 0u8));
        r
    }
}

impl ByteOrder<u32> for LittleEndian {
    type Buffer = [u8; 4];

    open spec fn width() -> nat {
        4
    }

    open spec fn encode(n: u32) -> Seq<u8> {
        le_bytes32(n)
    }

    open spec fn decode(b: Seq<u8>) -> u32 {
        le_value32(b)
    }

    proof fn lemma_codec(n: u32, b: Seq<u8>) {
        lemma_le32(n, b);
    }

    proof fn lemma_buffer(buf: [u8; 4]) {
    }

    fn from_bytes(buf: [u8; 4]) -> (r: u32) {
        le_assemble32(&buf)
    }

    fn into_bytes(n: u32) -> (r: [u8; 4]) {
        le_split32(n)
    }

    fn buffer() -> (r: [u8; 4]) {
        let r: [u8; 4] = [0; 4];
        assert(r@ =~= Seq::new(4, |i: int| 0u8));
        r
    }
}

impl ByteOrder<u32> for BigEndian {
    type Buffer = [u8; 4];

    open spec fn width() -> nat {
        4
    }

    open spec fn encode(n: u32) -> Seq<u8> {
        le_bytes32(n).reverse()
    }

    open spec fn decode(b: Seq<u8>) -> u32 {
        le_value32(b.reverse())
    }

    proof fn lemma_codec(n: u32, b: Seq<u8>) {
        lemma_le32(n, b.reverse());
        assert(b.reverse().reverse() =~= b);
        assert(le_bytes32(n).reverse().reverse() =~= le_bytes32(n));
    }

    proof fn lemma_buffer(buf: [u8; 4]) {
    }

    fn from_bytes(buf: [u8; 4]) -> (r: u32) {
        let le: [u8; 4] = [buf[3], buf[2], buf[1], buf[0]];
        assert(le@ =~= buf@.reverse());
        le_assemble32(&le)
    }

    fn into_bytes(n: u32) -> (r: [u8; 4]) {
        let le = le_split32(n);
        let r: [u8; 4] = [le[3], le[2], le[1], le[0]];
        assert(r@ =~= le_bytes32(n).reverse());
        r
    }

    fn buffer() -> (r: [u8; 4]) {
        let r: [u8; 4] = [0; 4];
        assert(r@ =~= Seq::new(4, |i: int| 0u8));
        r
    }
}

impl ByteOrder<u64> for LittleEndian {
    type Buffer = [u8; 8];

    open spec fn width() -> nat {
        8
    }

    open spec fn encode(n: u64) -> Seq<u8> {
        le_bytes64(n)
    }

    open spec fn decode(b: Seq<u8>) -> u64 {
        le_value64(b)
    }

    proof fn lemma_codec(n: u64, b: Seq<u8>) {
        lemma_le64(n, b);
    }

    proof fn lemma_buffer(buf: [u8; 8]) {
    }

    fn from_bytes(buf: [u8; 8]) -> (r: u64) {
        le_assemble64(&buf)
    }

    fn into_bytes(n: u64) -> (r: [u8; 8]) {
        le_split64(n)
    }

    fn buffer() -> (r: [u8; 8]) {
        let r: [u8; 8] = [0; 8];
        assert(r@ =~= Seq::new(8, |i: int| 0u8));
        r
    }
}

impl ByteOrder<u64> for BigEndian {
    type Buffer = [u8; 8];

    open spec fn width() -> nat {
        8
    }

    open spec fn encode(n: u64) -> Seq<u8> {
        le_bytes64(n).reverse()
    }

    open spec fn decode(b: Seq<u8>) -> u64 {
        le_value64(b.reverse())
    }

    proof fn lemma_codec(n: u64, b: Seq<u8>) {
        lemma_le64(n, b.reverse());
        assert(b.reverse().reverse() =~= b);
        assert(le_bytes64(n).reverse().reverse() =~= le_bytes64(n));
    }

    proof fn lemma_buffer(buf: [u8; 8]) {
    }

    fn from_bytes(buf: [u8; 8]) -> (r: u64) {
        let le: [u8; 8] = [buf[7], buf[6], buf[5], buf[4], buf[3], buf[2], buf[1], buf[0]];
        assert(le@ =~= buf@.reverse());
        le_assemble64(&le)
    }

    fn into_bytes(n: u64) -> (r: [u8; 8]) {
        let le = le_split64(n);
        let r: [u8; 8] = [le[7], le[6], le[5], le[4], le[3], le[2], le[1], le[0]];
        assert(r@ =~= le_bytes64(n).reverse());
        r
    }

    fn buffer() -> (r: [u8; 8]) {
        let r: [u8; 8] = [0; 8];
        assert(r@ =~= Seq::new(8, |i: int| 0u8));
        r
    }
}

impl ByteOrder<i8> for LittleEndian {
    type Buffer = [u8; 1];

    open spec fn width() -> nat {
        1
    }

    open spec fn encode(n: i8) -> Seq<u8> {
        le_bytes8(n as u8)
    }

    open spec fn decode(b: Seq<u8>) -> i8 {
        le_value8(b) as i8
    }

    proof fn lemma_codec(n: i8, b: Seq<u8>) {
        lemma_le8(n as u8, b);
        assert((n as u8) as i8 == n) by (bit_vector);
        let v = le_value8(b);
        assert((v as i8) as u8 == v) by (bit_vector);
    }

    proof fn lemma_buffer(buf: [u8; 1]) {
    }

    fn from_bytes(buf: [u8; 1]) -> (r: i8) {
        buf[0] as i8
    }

    fn into_bytes(n: i8) -> (r: [u8; 1]) {
        let le: [u8; 1] = [n as u8];
        assert(le@ =~= le_bytes8(n as u8));
        le
    }

    fn buffer() -> (r: [u8; 1]) {
        let r: [u8; 1] = [0; 1];
        assert(r@ =~= Seq::new(1, |i: int| 0u8));
        r
    }
}

impl ByteOrder<i8> for BigEndian {
    type Buffer = [u8; 1];

    open spec fn width() -> nat {
        1
    }

    open spec fn encode(n: i8) -> Seq<u8> {
        le_bytes8(n as u8).reverse()
    }

    open spec fn decode(b: Seq<u8>) -> i8 {
        le_value8(b.reverse()) as i8
    }

    proof fn lemma_codec(n: i8, b: Seq<u8>) {
        lemma_le8(n as u8, b.reverse());
        assert(b.reverse().reverse() =~= b);
        assert(le_bytes8(n as u8).reverse().reverse() =~= le_bytes8(n as u8));
        assert((n as u8) as i8 == n) by (bit_vector);
        let v = le_value8(b.reverse());
        assert((v as i8) as u8 == v) by (bit_vector);
    }

    proof fn lemma_buffer(buf: [u8; 1]) {
    }

    fn from_bytes(buf: [u8; 1]) -> (r: i8) {
        assert(buf@.reverse() =~= buf@);
        buf[0] as i8
    }

    fn into_bytes(n: i8) -> (r: [u8; 1]) {
        let r: [u8; 1] = [n as u8];
        assert(r@ =~= le_bytes8(n as u8).reverse());
        r
    }

    fn buffer() -> (r: [u8; 1]) {
        let r: [u8; 1] = [0; 1];
        assert(r@ =~= Seq::new(1, |i: int| 0u8));
        r
    }
}

impl ByteOrder<i16> for LittleEndian {
    type Buffer = [u8; 2];

    open spec fn width() -> nat {
        2
    }

    open spec fn encode(n: i16) -> Seq<u8> {
        le_bytes16(n as u16)
    }

    open spec fn decode(b: Seq<u8>) -> i16 {
        le_value16(b) as i16
    }

    proof fn lemma_codec(n: i16, b: Seq<u8>) {
        lemma_le16(n as u16, b);
        assert((n as u16) as i16 == n) by (bit_vector);
        let v = le_value16(b);
        assert((v as i16) as u16 == v) by (bit_vector);
    }

    proof fn lemma_buffer(buf: [u8; 2]) {
    }

    fn from_bytes(buf: [u8; 2]) -> (r: i16) {
        le_assemble16(&buf) as i16
    }

    fn into_bytes(n: i16) -> (r: [u8; 2]) {
        le_split16(n as u16)
    }

    fn buffer() -> (r: [u8; 2]) {
        let r: [u8; 2] = [0; 2];
        assert(r@ =~= Seq::new(2, |i: int| 0u8));
        r
    }
}

impl ByteOrder<i16> for BigEndian {
    type Buffer = [u8; 2];

    open spec fn width() -> nat {
        2
    }

    open spec fn encode(n: i16) -> Seq<u8> {
        le_bytes16(n as u16).reverse()
    }

    open spec fn decode(b: Seq<u8>) -> i16 {
        le_value16(b.reverse()) as i16
    }

    proof fn lemma_codec(n: i16, b: Seq<u8>) {
        lemma_le16(n as u16, b.reverse());
        assert(b.reverse().reverse() =~= b);
        assert(le_bytes16(n as u16).reverse().reverse() =~= le_bytes16(n as u16));
        assert((n as u16) as i16 == n) by (bit_vector);
        let v = le_value16(b.reverse());
        assert((v as i16) as u16 == v) by (bit_vector);
    }

    proof fn lemma_buffer(buf: [u8; 2]) {
    }

    fn from_bytes(buf: [u8; 2]) -> (r: i16) {
        let le: [u8; 2] = [buf[1], buf[0]];
        assert(le@ =~= buf@.reverse());
        le_assemble16(&le) as i16
    }

    fn into_bytes(n: i16) -> (r: [u8; 2]) {
        let le = le_split16(n as u16);
        let r: [u8; 2] = [le[1], le[0]];
        assert(r@ =~= le_bytes16(n as u16).reverse());
        r
    }

    fn buffer() -> (r: [u8; 2]) {
        let r: [u8; 2] = [0; 2];
        assert(r@ =~= Seq::new(2, |i: int| 0u8));
        r
    }
}

impl ByteOrder<i32> for LittleEndian {
    type Buffer = [u8; 4];

    open spec fn width() -> nat {
        4
    }

    open spec fn encode(n: i32) -> Seq<u8> {
        le_bytes32(n as u32)
    }

    open spec fn decode(b: Seq<u8>) -> i32 {
        le_value32(b) as i32
    }

    proof fn lemma_codec(n: i32, b: Seq<u8>) {
        lemma_le32(n as u32, b);
        assert((n as u32) as i32 == n) by (bit_vector);
        let v = le_value32(b);
        assert((v as i32) as u32 == v) by (bit_vector);
    }

    proof fn lemma_buffer(buf: [u8; 4]) {
    }

    fn from_bytes(buf: [u8; 4]) -> (r: i32) {
        le_assemble32(&buf) as i32
    }

    fn into_bytes(n: i32) -> (r: [u8; 4]) {
        le_split32(n as u32)
    }

    fn buffer() -> (r: [u8; 4]) {
        let r: [u8; 4] = [0; 4];
        assert(r@ =~= Seq::new(4, |i: int| 0u8));
        r
    }
}

impl ByteOrder<i32> for BigEndian {
    type Buffer = [u8; 4];

    open spec fn width() -> nat {
        4
    }

    open spec fn encode(n: i32) -> Seq<u8> {
        le_bytes32(n as u32).reverse()
    }

    open spec fn decode(b: Seq<u8>) -> i32 {
        le_value32(b.reverse()) as i32
    }

    proof fn lemma_codec(n: i32, b: Seq<u8>) {
        lemma_le32(n as u32, b.reverse());
        assert(b.reverse().reverse() =~= b);
        assert(le_bytes32(n as u32).reverse().reverse() =~= le_bytes32(n as u32));
        assert((n as u32) as i32 == n) by (bit_vector);
        let v = le_value32(b.reverse());
        assert((v as i32) as u32 == v) by (bit_vector);
    }

    proof fn lemma_buffer(buf: [u8; 4]) {
    }

    fn from_bytes(buf: [u8; 4]) -> (r: i32) {
        let le: [u8; 4] = [buf[3], buf[2], buf[1], buf[0]];
        assert(le@ =~= buf@.reverse());
        le_assemble32(&le) as i32
    }

    fn into_bytes(n: i32) -> (r: [u8; 4]) {
        let le = le_split32(n as u32);
        let r: [u8; 4] = [le[3], le[2], le[1], le[0]];
        assert(r@ =~= le_bytes32(n as u32).reverse());
        r
    }

    fn buffer() -> (r: [u8; 4]) {
        let r: [u8; 4] = [0; 4];
        assert(r@ =~= Seq::new(4, |i: int| 0u8));
        r
    }
}

impl ByteOrder<i64> for LittleEndian {
    type Buffer = [u8; 8];

    open spec fn width() -> nat {
        8
    }

    open spec fn encode(n: i64) -> Seq<u8> {
        le_bytes64(n as u64)
    }

    open spec fn decode(b: Seq<u8>) -> i64 {
        le_value64(b) as i64
    }

    proof fn lemma_codec(n: i64, b: Seq<u8>) {
        lemma_le64(n as u64, b);
        assert((n as u64) as i64 == n) by (bit_vector);
        let v = le_value64(b);
        assert((v as i64) as u64 == v) by (bit_vector);
    }

    proof fn lemma_buffer(buf: [u8; 8]) {
    }

    fn from_bytes(buf: [u8; 8]) -> (r: i64) {
        le_assemble64(&buf) as i64
    }

    fn into_bytes(n: i64) -> (r: [u8; 8]) {
        le_split64(n as u64)
    }

    fn buffer() -> (r: [u8; 8]) {
        let r: [u8; 8] = [0; 8];
        assert(r@ =~= Seq::new(8, |i: int| 0u8));
        r
    }
}

impl ByteOrder<i64> for BigEndian {
    type Buffer = [u8; 8];

    open spec fn width() -> nat {
        8
    }

    open spec fn encode(n: i64) -> Seq<u8> {
        le_bytes64(n as u64).reverse()
    }

    open spec fn decode(b: Seq<u8>) -> i64 {
        le_value64(b.reverse()) as i64
    }

    proof fn lemma_codec(n: i64, b: Seq<u8>) {
        lemma_le64(n as u64, b.reverse());
        assert(b.reverse().reverse() =~= b);
        assert(le_bytes64(n as u64).reverse().reverse() =~= le_bytes64(n as u64));
        assert((n as u64) as i64 == n) by (bit_vector);
        let v = le_value64(b.reverse());
        assert((v as i64) as u64 == v) by (bit_vector);
    }

    proof fn lemma_buffer(buf: [u8; 8]) {
    }

    fn from_bytes(buf: [u8; 8]) -> (r: i64) {
        let le: [u8; 8] = [buf[7], buf[6], buf[5], buf[4], buf[3], buf[2], buf[1], buf[0]];
        assert(le@ =~= buf@.reverse());
        le_assemble64(&le) as i64
    }

    fn into_bytes(n: i64) -> (r: [u8; 8]) {
        let le = le_split64(n as u64);
        let r: [u8; 8] = [le[7], le[6], le[5], le[4], le[3], le[2], le[1], le[0]];
        assert(r@ =~= le_bytes64(n as u64).reverse());
        r
    }

    fn buffer() -> (r: [u8; 8]) {
        let r: [u8; 8] = [0; 8];
        assert(r@ =~= Seq::new(8, |i: int| 0u8));
        r
    }
}

/// Converting a value to its bytes and back gives the value itself, for every
/// type and byte order; and the bytes are always exactly `width()` many.
pub proof fn round_trip<T, B: ByteOrder<T>>(v: T)
    ensures
        B::decode(B::encode(v)) == v,
        B::encode(v).len() == B::width(),
{
    B::lemma_codec(v, Seq::empty());
}

/// The little-endian bytes of a `u16` are its big-endian bytes reversed, so the
/// two differ wherever those bytes are not a palindrome.
pub proof fn orders_mirror_u16(v: u16)
    ensures
        <LittleEndian as ByteOrder<u16>>::encode(v) == <BigEndian as ByteOrder<u16>>::encode(v).reverse(),
        <LittleEndian as ByteOrder<u16>>::encode(v) != <LittleEndian as ByteOrder<u16>>::encode(v).reverse()
            ==> <LittleEndian as ByteOrder<u16>>::encode(v) != <BigEndian as ByteOrder<u16>>::encode(v),
{
    let le = <LittleEndian as ByteOrder<u16>>::encode(v);
    assert(le.reverse().reverse() =~= le);
}

/// The little-endian bytes of a `u32` are its big-endian bytes reversed, so the
/// two differ wherever those bytes are not a palindrome.
pub proof fn orders_mirror_u32(v: u32)
    ensures
        <LittleEndian as ByteOrder<u32>>::encode(v) == <BigEndian as ByteOrder<u32>>::encode(v).reverse(),
        <LittleEndian as ByteOrder<u32>>::encode(v) != <LittleEndian as ByteOrder<u32>>::encode(v).reverse()
            ==> <LittleEndian as ByteOrder<u32>>::encode(v) != <BigEndian as ByteOrder<u32>>::encode(v),
{
    let le = <LittleEndian as ByteOrder<u32>>::encode(v);
    assert(le.reverse().reverse() =~= le);
}

/// The little-endian bytes of a `u64` are its big-endian bytes reversed, so the
/// two differ wherever those bytes are not a palindrome.
pub proof fn orders_mirror_u64(v: u64)
    ensures
        <LittleEndian as ByteOrder<u64>>::encode(v) == <BigEndian as ByteOrder<u64>>::encode(v).reverse(),
        <LittleEndian as ByteOrder<u64>>::encode(v) != <LittleEndian as ByteOrder<u64>>::encode(v).reverse()
            ==> <LittleEndian as ByteOrder<u64>>::encode(v) != <BigEndian as ByteOrder<u64>>::encode(v),
{
    let le = <LittleEndian as ByteOrder<u64>>::encode(v);
    assert(le.reverse().reverse() =~= le);
}

/// The little-endian bytes of a `i16` are its big-endian bytes reversed, so the
/// two differ wherever those bytes are not a palindrome.
pub proof fn orders_mirror_i16(v: i16)
    ensures
        <LittleEndian as ByteOrder<i16>>::encode(v) == <BigEndian as ByteOrder<i16>>::encode(v).reverse(),
        <LittleEndian as ByteOrder<i16>>::encode(v) != <LittleEndian as ByteOrder<i16>>::encode(v).reverse()
            ==> <LittleEndian as ByteOrder<i16>>::encode(v) != <BigEndian as ByteOrder<i16>>::encode(v),
{
    let le = <LittleEndian as ByteOrder<i16>>::encode(v);
    assert(le.reverse().reverse() =~= le);
}

/// The little-endian bytes of a `i32` are its big-endian bytes reversed, so the
/// two differ wherever those bytes are not a palindrome.
pub proof fn orders_mirror_i32(v: i32)
    ensures
        <LittleEndian as ByteOrder<i32>>::encode(v) == <BigEndian as ByteOrder<i32>>::encode(v).reverse(),
        <LittleEndian as ByteOrder<i32>>::encode(v) != <LittleEndian as ByteOrder<i32>>::encode(v).reverse()
            ==> <LittleEndian as ByteOrder<i32>>::encode(v) != <BigEndian as ByteOrder<i32>>::encode(v),
{
    let le = <LittleEndian as ByteOrder<i32>>::encode(v);
    assert(le.reverse().reverse() =~= le);
}

/// The little-endian bytes of a `i64` are its big-endian bytes reversed, so the
/// two differ wherever those bytes are not a palindrome.
pub proof fn orders_mirror_i64(v: i64)
    ensures
        <LittleEndian as ByteOrder<i64>>::encode(v) == <BigEndian as ByteOrder<i64>>::encode(v).reverse(),
        <LittleEndian as ByteOrder<i64>>::encode(v) != <LittleEndian as ByteOrder<i64>>::encode(v).reverse()
            ==> <LittleEndian as ByteOrder<i64>>::encode(v) != <BigEndian as ByteOrder<i64>>::encode(v),
{
    let le = <LittleEndian as ByteOrder<i64>>::encode(v);
    assert(le.reverse().reverse() =~= le);
}

} // verus!
