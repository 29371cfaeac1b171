//! Conversion of fixed-width integers to and from byte arrays in little-endian
//! or big-endian order, and reading and writing them through byte streams.
//!
//! Each byte order is a type implementing `ByteOrder<T>` for every integer
//! type `T`; its spec functions `encode` and `decode` state which bytes stand
//! for which value, and the conversions and stream operations are proved
//! against them. Network byte order is big-endian.

pub mod codec;
pub mod order;
pub mod stream;

pub use order::{AsSlice, BigEndian, ByteOrder, LittleEndian, NetworkByteOrder, BE, LE};
pub use stream::{
    ByteSink, ByteSource, ReadBytesExt, ReadError, SliceReader, WriteBytesExt, read_result,
};
