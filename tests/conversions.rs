use byteio::{AsSlice, BigEndian, ByteOrder, LittleEndian, NetworkByteOrder, BE, LE};

#[test]
fn u16_from_bytes_in_each_order() {
    assert_eq!(<LittleEndian as ByteOrder<u16>>::from_bytes([1, 2]), 513);
    assert_eq!(<BigEndian as ByteOrder<u16>>::from_bytes([1, 2]), 258);
}

#[test]
fn u32_into_bytes_in_each_order() {
    assert_eq!(<BigEndian as ByteOrder<u32>>::into_bytes(0x01020304), [1, 2, 3, 4]);
    assert_eq!(<LittleEndian as ByteOrder<u32>>::into_bytes(0x01020304), [4, 3, 2, 1]);
}

#[test]
fn u64_exact_layout() {
    let n: u64 = 0x0102030405060708;
    assert_eq!(<BE as ByteOrder<u64>>::into_bytes(n), [1, 2, 3, 4, 5, 6, 7, 8]);
    assert_eq!(<LE as ByteOrder<u64>>::into_bytes(n), [8, 7, 6, 5, 4, 3, 2, 1]);
    assert_eq!(<LE as ByteOrder<u64>>::from_bytes([8, 7, 6, 5, 4, 3, 2, 1]), n);
    assert_eq!(<BE as ByteOrder<u64>>::from_bytes([1, 2, 3, 4, 5, 6, 7, 8]), n);
}

#[test]
fn signed_values_use_twos_complement() {
    assert_eq!(<LE as ByteOrder<i8>>::into_bytes(-1), [0xff]);
    assert_eq!(<LE as ByteOrder<i16>>::into_bytes(-2), [0xfe, 0xff]);
    assert_eq!(<BE as ByteOrder<i16>>::into_bytes(-2), [0xff, 0xfe]);
    assert_eq!(<BE as ByteOrder<i32>>::from_bytes([0x80, 0, 0, 0]), i32::MIN);
    assert_eq!(<LE as ByteOrder<i64>>::from_bytes([0xff; 8]), -1);
    assert_eq!(<BE as ByteOrder<i64>>::into_bytes(i64::MAX), [0x7f, 0xff, 0xff, 0xff, 0xff, 0xff, 0xff, 0xff]);
}

#[test]
fn single_byte_types_are_unchanged() {
    assert_eq!(<LE as ByteOrder<u8>>::into_bytes(200), [200]);
    assert_eq!(<BE as ByteOrder<u8>>::into_bytes(200), [200]);
    assert_eq!(<BE as ByteOrder<u8>>::from_bytes([7]), 7);
    assert_eq!(<BE as ByteOrder<i8>>::from_bytes([0x80]), -128);
}

#[test]
fn round_trip_every_type_and_order() {
    for v in [0u8, 1, 0x7f, 0x80, u8::MAX] {
        assert_eq!(<LE as ByteOrder<u8>>::from_bytes(<LE as ByteOrder<u8>>::into_bytes(v)), v);
        assert_eq!(<BE as ByteOrder<u8>>::from_bytes(<BE as ByteOrder<u8>>::into_bytes(v)), v);
    }
    for v in [0u16, 1, 0x1234, 0x8000, u16::MAX] {
        assert_eq!(<LE as ByteOrder<u16>>::from_bytes(<LE as ByteOrder<u16>>::into_bytes(v)), v);
        assert_eq!(<BE as ByteOrder<u16>>::from_bytes(<BE as ByteOrder<u16>>::into_bytes(v)), v);
    }
    for v in [0u32, 1, 0xdeadbeef, 0x8000_0000, u32::MAX] {
        assert_eq!(<LE as ByteOrder<u32>>::from_bytes(<LE as ByteOrder<u32>>::into_bytes(v)), v);
        assert_eq!(<BE as ByteOrder<u32>>::from_bytes(<BE as ByteOrder<u32>>::into_bytes(v)), v);
    }
    for v in [0u64, 1, 0x0123_4567_89ab_cdef, 1 << 63, u64::MAX] {
        assert_eq!(<LE as ByteOrder<u64>>::from_bytes(<LE as ByteOrder<u64>>::into_bytes(v)), v);
        assert_eq!(<BE as ByteOrder<u64>>::from_bytes(<BE as ByteOrder<u64>>::into_bytes(v)), v);
    }
    for v in [0i8, -1, i8::MIN, i8::MAX] {
        assert_eq!(<LE as ByteOrder<i8>>::from_bytes(<LE as ByteOrder<i8>>::into_bytes(v)), v);
        assert_eq!(<BE as ByteOrder<i8>>::from_bytes(<BE as ByteOrder<i8>>::into_bytes(v)), v);
    }
    for v in [0i16, -1, -300, i16::MIN, i16::MAX] {
        assert_eq!(<LE as ByteOrder<i16>>::from_bytes(<LE as ByteOrder<i16>>::into_bytes(v)), v);
        assert_eq!(<BE as ByteOrder<i16>>::from_bytes(<BE as ByteOrder<i16>>::into_bytes(v)), v);
    }
    for v in [0i32, -1, -70000, i32::MIN, i32::MAX] {
        assert_eq!(<LE as ByteOrder<i32>>::from_bytes(<LE as ByteOrder<i32>>::into_bytes(v)), v);
        assert_eq!(<BE as ByteOrder<i32>>::from_bytes(<BE as ByteOrder<i32>>::into_bytes(v)), v);
    }
    for v in [0i64, -1, -5_000_000_000, i64::MIN, i64::MAX] {
        assert_eq!(<LE as ByteOrder<i64>>::from_bytes(<LE as ByteOrder<i64>>::into_bytes(v)), v);
        assert_eq!(<BE as ByteOrder<i64>>::from_bytes(<BE as ByteOrder<i64>>::into_bytes(v)), v);
    }
}

#[test]
fn float_bit_patterns_round_trip() {
    for v in [0.0f32, -0.0, 1.5, f32::INFINITY, f32::NEG_INFINITY, f32::NAN] {
        let bytes = <BE as ByteOrder<u32>>::into_bytes(v.to_bits());
        let back = f32::from_bits(<BE as ByteOrder<u32>>::from_bytes(bytes));
        assert_eq!(back.to_bits(), v.to_bits());
    }
    for v in [0.0f64, -0.0, -2.25, f64::INFINITY, f64::NAN] {
        let bytes = <LE as ByteOrder<u64>>::into_bytes(v.to_bits());
        let back = f64::from_bits(<LE as ByteOrder<u64>>::from_bytes(bytes));
        assert_eq!(back.to_bits(), v.to_bits());
    }
    assert_eq!(<BE as ByteOrder<u32>>::into_bytes(1.0f32.to_bits()), [0x3f, 0x80, 0, 0]);
}

#[test]
fn little_endian_is_big_endian_reversed() {
    let v: u32 = 0x0a0b0c0d;
    let mut be = <BE as ByteOrder<u32>>::into_bytes(v);
    let le = <LE as ByteOrder<u32>>::into_bytes(v);
    assert_ne!(be, le);
    be.reverse();
    assert_eq!(be, le);
    let w: i64 = -0x0102030405060708;
    let mut be = <BE as ByteOrder<i64>>::into_bytes(w);
    let le = <LE as ByteOrder<i64>>::into_bytes(w);
    assert_ne!(be, le);
    be.reverse();
    assert_eq!(be, le);
}

#[test]
fn palindromic_bytes_agree_across_orders() {
    assert_eq!(<LE as ByteOrder<u16>>::into_bytes(0x4242), <BE as ByteOrder<u16>>::into_bytes(0x4242));
    assert_eq!(<LE as ByteOrder<u32>>::into_bytes(0x01020201), <BE as ByteOrder<u32>>::into_bytes(0x01020201));
}

#[test]
fn network_order_is_big_endian() {
    assert_eq!(<NetworkByteOrder as ByteOrder<u16>>::into_bytes(0x0102), [1, 2]);
    assert_eq!(<NetworkByteOrder as ByteOrder<u32>>::from_bytes([0, 0, 1, 0]), 256);
}

#[test]
fn buffers_are_zeroed_and_sized() {
    assert_eq!(<LE as ByteOrder<u8>>::buffer(), [0]);
    assert_eq!(<BE as ByteOrder<i16>>::buffer(), [0, 0]);
    assert_eq!(<LE as ByteOrder<u32>>::buffer(), [0; 4]);
    assert_eq!(<BE as ByteOrder<i64>>::buffer(), [0; 8]);
}

#[test]
fn as_slice_and_put() {
    let mut buf: [u8; 4] = [1, 2, 3, 4];
    buf.put(2, 9);
    assert_eq!(AsSlice::as_slice(&buf), &[1, 2, 9, 4]);
}
