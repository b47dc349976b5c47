use lecodec::{read_string, write_string, ByteReader, ByteWriter, ReadExt, WriteExt};

fn encode_str(s: &str) -> Vec<u8> {
    let mut w = ByteWriter::new();
    write_string(&mut w, s).unwrap();
    w.into_vec()
}

fn decode_str(bytes: Vec<u8>) -> String {
    let mut r = ByteReader::new(bytes);
    r.de::<String>().unwrap()
}

#[test]
fn empty_string_round_trip() {
    let bytes = encode_str("");
    assert_eq!(bytes, vec![0, 0, 0, 0]);
    assert_eq!(decode_str(bytes), "");
}

#[test]
fn ascii_string_round_trip() {
    let bytes = encode_str("hello");
    assert_eq!(decode_str(bytes), "hello");
}

#[test]
fn wide_string_round_trip() {
    let s = "héllo wörld";
    assert_eq!(decode_str(encode_str(s)), s);
}

#[test]
fn astral_string_round_trip() {
    let s = "music \u{1D11E} and \u{10348} letters";
    assert_eq!(decode_str(encode_str(s)), s);
}

#[test]
fn mixed_ascii_and_wide_round_trip() {
    let s = "a\u{20AC}b";
    assert_eq!(decode_str(encode_str(s)), s);
}

#[test]
fn string_methods_on_the_string_type() {
    let mut w = ByteWriter::new();
    w.ser(&String::from("abc")).unwrap();
    let mut r = ByteReader::new(w.into_vec());
    let back: String = r.de().unwrap();
    assert_eq!(back, "abc");
}

#[test]
fn str_serializes_like_string() {
    let mut w1 = ByteWriter::new();
    w1.ser(&"xyz").unwrap();
    let mut w2 = ByteWriter::new();
    w2.ser(&String::from("xyz")).unwrap();
    assert_eq!(w1.into_vec(), w2.into_vec());
}

#[test]
fn ascii_prefix_is_length_plus_one() {
    let bytes = encode_str("abc");
    assert_eq!(bytes, vec![4, 0, 0, 0, b'a', b'b', b'c', 0]);
}

#[test]
fn wide_prefix_is_minus_units_plus_one() {
    let bytes = encode_str("\u{E9}");
    // one unit plus the terminator: prefix -2, then 0x00E9 and 0x0000 little-endian
    assert_eq!(bytes, vec![0xFE, 0xFF, 0xFF, 0xFF, 0xE9, 0x00, 0x00, 0x00]);
}

#[test]
fn surrogate_pair_prefix_counts_units() {
    // U+1D11E takes two units, so three with the terminator: prefix -3
    let bytes = encode_str("\u{1D11E}");
    assert_eq!(&bytes[..4], &[0xFD, 0xFF, 0xFF, 0xFF]);
    assert_eq!(bytes.len(), 4 + 3 * 2);
}

#[test]
fn narrow_decode_stops_at_embedded_zero_but_consumes_all() {
    // declared length 5, embedded zero after "ab"
    let bytes = vec![5, 0, 0, 0, b'a', b'b', 0, b'c', b'd', 9, 9];
    let mut r = ByteReader::new(bytes);
    let s: String = r.de().unwrap();
    assert_eq!(s, "ab");
    // cursor sits past the whole declared payload, not at the zero
    assert_eq!(r.position(), 4 + 5);
    let tail: u8 = r.de().unwrap();
    assert_eq!(tail, 9);
}

#[test]
fn wide_decode_stops_at_embedded_zero_but_consumes_all() {
    // declared 4 units: 'A', 0, 'B', 'C'; decode is "A", cursor past all 8 bytes
    let bytes = vec![0xFC, 0xFF, 0xFF, 0xFF, 0x41, 0, 0, 0, 0x42, 0, 0x43, 0];
    let mut r = ByteReader::new(bytes);
    let s: String = r.de().unwrap();
    assert_eq!(s, "A");
    assert_eq!(r.position(), 4 + 8);
}

#[test]
fn narrow_decode_is_lossy_on_invalid_utf8() {
    // 0xFF is not valid UTF-8: the replacement character appears instead
    let bytes = vec![3, 0, 0, 0, 0xFF, b'a', 0xFE];
    let mut r = ByteReader::new(bytes);
    let s: String = r.de().unwrap();
    assert_eq!(s, "\u{FFFD}a\u{FFFD}");
}

#[test]
fn read_string_with_external_prefix() {
    let mut r = ByteReader::new(vec![b'h', b'i', 0]);
    let s = read_string(3, &mut r).unwrap();
    assert_eq!(s, "hi");
    assert_eq!(r.position(), 3);
}

#[test]
fn read_string_zero_prefix_reads_nothing() {
    let mut r = ByteReader::new(vec![42]);
    let s = read_string(0, &mut r).unwrap();
    assert_eq!(s, "");
    assert_eq!(r.position(), 0);
}
