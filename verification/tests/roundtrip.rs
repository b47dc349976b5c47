use lecodec::{ByteReader, ByteWriter, ReadExt, WriteExt};

fn encode<T: lecodec::Writeable>(v: &T) -> Vec<u8> {
    let mut w = ByteWriter::new();
    w.ser(v).unwrap();
    w.into_vec()
}

fn decode<T: lecodec::Readable>(bytes: Vec<u8>) -> T {
    let mut r = ByteReader::new(bytes);
    r.de::<T>().unwrap()
}

#[test]
fn u8_round_trip_boundaries() {
    for v in [0u8, 1, 0x7F, 0x80, 0xFF] {
        assert_eq!(decode::<u8>(encode(&v)), v);
    }
}

#[test]
fn i8_round_trip_boundaries() {
    for v in [0i8, 1, -1, i8::MIN, i8::MAX] {
        assert_eq!(decode::<i8>(encode(&v)), v);
    }
}

#[test]
fn u16_round_trip_boundaries() {
    for v in [0u16, 1, 0x1234, u16::MAX] {
        assert_eq!(decode::<u16>(encode(&v)), v);
    }
}

#[test]
fn i16_round_trip_boundaries() {
    for v in [0i16, 1, -1, i16::MIN, i16::MAX] {
        assert_eq!(decode::<i16>(encode(&v)), v);
    }
}

#[test]
fn u32_round_trip_boundaries() {
    for v in [0u32, 1, 0xDEADBEEF, u32::MAX] {
        assert_eq!(decode::<u32>(encode(&v)), v);
    }
}

#[test]
fn i32_round_trip_boundaries() {
    for v in [0i32, 1, -1, i32::MIN, i32::MAX] {
        assert_eq!(decode::<i32>(encode(&v)), v);
    }
}

#[test]
fn u64_round_trip_boundaries() {
    for v in [0u64, 1, 0x0123_4567_89AB_CDEF, u64::MAX] {
        assert_eq!(decode::<u64>(encode(&v)), v);
    }
}

#[test]
fn i64_round_trip_boundaries() {
    for v in [0i64, 1, -1, i64::MIN, i64::MAX] {
        assert_eq!(decode::<i64>(encode(&v)), v);
    }
}

#[test]
fn bool_round_trip() {
    assert_eq!(decode::<bool>(encode(&true)), true);
    assert_eq!(decode::<bool>(encode(&false)), false);
}

#[test]
fn bool_wire_format_is_a_full_word() {
    assert_eq!(encode(&true), vec![1, 0, 0, 0]);
    assert_eq!(encode(&false), vec![0, 0, 0, 0]);
}

#[test]
fn bool_decode_accepts_any_nonzero_word() {
    assert_eq!(decode::<bool>(vec![2, 0, 0, 0]), true);
    assert_eq!(decode::<bool>(vec![0, 0, 0, 0x80]), true);
    assert_eq!(decode::<bool>(vec![0, 0, 0, 0]), false);
}

#[test]
fn integers_are_little_endian() {
    assert_eq!(encode(&0x1234_5678u32), vec![0x78, 0x56, 0x34, 0x12]);
    assert_eq!(encode(&0x1234u16), vec![0x34, 0x12]);
    assert_eq!(
        encode(&0x0123_4567_89AB_CDEFu64),
        vec![0xEF, 0xCD, 0xAB, 0x89, 0x67, 0x45, 0x23, 0x01]
    );
}

#[test]
fn negative_integers_are_twos_complement() {
    assert_eq!(encode(&-1i8), vec![0xFF]);
    assert_eq!(encode(&-2i16), vec![0xFE, 0xFF]);
    assert_eq!(encode(&-1i32), vec![0xFF, 0xFF, 0xFF, 0xFF]);
    assert_eq!(encode(&i64::MIN), vec![0, 0, 0, 0, 0, 0, 0, 0x80]);
}
