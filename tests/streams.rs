use byteio::{
    BigEndian, ByteSink, ByteSource, LittleEndian, ReadBytesExt, ReadError, SliceReader,
    WriteBytesExt,
};

#[test]
fn read_u16_from_source_in_each_order() {
    let mut src = SliceReader::new(vec![1, 2]);
    let v: u16 = src.read_as::<LittleEndian>().unwrap();
    assert_eq!(v, 513);
    let mut src = SliceReader::new(vec![1, 2]);
    let v: u16 = src.read_as::<BigEndian>().unwrap();
    assert_eq!(v, 258);
    assert_eq!(src.position(), 2);
    assert_eq!(src.remaining(), 0);
}

#[test]
fn write_u32_to_sink_in_each_order() {
    let mut sink: Vec<u8> = Vec::new();
    sink.write_as::<BigEndian>(0x01020304u32).unwrap();
    assert_eq!(sink, vec![1, 2, 3, 4]);
    let mut sink: Vec<u8> = Vec::new();
    sink.write_as::<LittleEndian>(0x01020304u32).unwrap();
    assert_eq!(sink, vec![4, 3, 2, 1]);
}

#[test]
fn write_appends_to_existing_bytes() {
    let mut sink: Vec<u8> = vec![9];
    sink.write_as::<BigEndian>(-2i16).unwrap();
    sink.write_as::<LittleEndian>(7u8).unwrap();
    assert_eq!(sink, vec![9, 0xff, 0xfe, 7]);
}

#[test]
fn stream_round_trip_of_mixed_values() {
    let mut sink: Vec<u8> = Vec::new();
    sink.write_as::<LittleEndian>(0xbeefu16).unwrap();
    sink.write_as::<BigEndian>(-123456i32).unwrap();
    sink.write_as::<LittleEndian>(u64::MAX - 5).unwrap();
    sink.write_as::<BigEndian>(i8::MIN).unwrap();
    sink.write_as::<BigEndian>(0x0102030405060708i64).unwrap();
    assert_eq!(sink.len(), 2 + 4 + 8 + 1 + 8);
    let mut src = SliceReader::new(sink);
    let a: u16 = src.read_as::<LittleEndian>().unwrap();
    let b: i32 = src.read_as::<BigEndian>().unwrap();
    let c: u64 = src.read_as::<LittleEndian>().unwrap();
    let d: i8 = src.read_as::<BigEndian>().unwrap();
    let e: i64 = src.read_as::<BigEndian>().unwrap();
    assert_eq!(a, 0xbeef);
    assert_eq!(b, -123456);
    assert_eq!(c, u64::MAX - 5);
    assert_eq!(d, i8::MIN);
    assert_eq!(e, 0x0102030405060708);
    assert_eq!(src.remaining(), 0);
}

#[test]
fn short_read_is_incomplete() {
    let mut src = SliceReader::new(vec![1]);
    let r: Result<u16, ReadError<()>> = src.read_as::<LittleEndian>();
    assert!(matches!(r, Err(ReadError::Incomplete)));
    assert_eq!(src.position(), 1);
}

#[test]
fn empty_source_is_incomplete() {
    let mut src = SliceReader::new(Vec::new());
    let r: Result<u8, ReadError<()>> = src.read_as::<BigEndian>();
    assert!(matches!(r, Err(ReadError::Incomplete)));
}

#[test]
fn short_read_after_full_reads() {
    let mut src = SliceReader::new(vec![0, 0, 0, 5, 1, 2, 3]);
    let v: u32 = src.read_as::<BigEndian>().unwrap();
    assert_eq!(v, 5);
    let r: Result<u64, ReadError<()>> = src.read_as::<BigEndian>();
    assert!(matches!(r, Err(ReadError::Incomplete)));
    assert_eq!(src.remaining(), 0);
}

#[test]
fn slice_reader_hands_out_what_fits() {
    let mut src = SliceReader::new(vec![1, 2, 3]);
    let mut buf: [u8; 2] = [0, 0];
    assert_eq!(src.read(&mut buf), Ok(2));
    assert_eq!(buf, [1, 2]);
    assert_eq!(src.read(&mut buf), Ok(1));
    assert_eq!(buf, [3, 2]);
    assert_eq!(src.read(&mut buf), Ok(0));
}

#[test]
fn vec_sink_accepts_all_bytes() {
    let mut sink: Vec<u8> = vec![1];
    assert_eq!(sink.write_all(&[2, 3]), Ok(()));
    assert_eq!(sink.write_all(&[]), Ok(()));
    assert_eq!(sink, vec![1, 2, 3]);
}

#[test]
fn read_result_maps_each_outcome() {
    let r: Result<u16, ReadError<u8>> = byteio::read_result::<u16, u8, LittleEndian>(Ok(2), [1, 2]);
    assert!(matches!(r, Ok(513)));
    let r: Result<u16, ReadError<u8>> = byteio::read_result::<u16, u8, BigEndian>(Ok(2), [1, 2]);
    assert!(matches!(r, Ok(258)));
    let r: Result<u16, ReadError<u8>> = byteio::read_result::<u16, u8, BigEndian>(Ok(1), [1, 0]);
    assert!(matches!(r, Err(ReadError::Incomplete)));
    let r: Result<u16, ReadError<u8>> = byteio::read_result::<u16, u8, BigEndian>(Ok(0), [0, 0]);
    assert!(matches!(r, Err(ReadError::Incomplete)));
    let r: Result<u32, ReadError<u8>> = byteio::read_result::<u32, u8, LittleEndian>(Err(7), [0; 4]);
    assert!(matches!(r, Err(ReadError::Source(7))));
}

#[test]
fn read_leaves_the_rest_of_the_source() {
    let mut src = SliceReader::new(vec![0, 1, 9, 8]);
    let v: u16 = src.read_as::<BigEndian>().unwrap();
    assert_eq!(v, 1);
    assert_eq!(src.position(), 2);
    assert_eq!(src.remaining(), 2);
    let w: u16 = src.read_as::<LittleEndian>().unwrap();
    assert_eq!(w, 0x0809);
}
