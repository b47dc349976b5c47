use lecodec::{read_array, ByteReader, ByteWriter, ReadExt, Readable, WriteExt, Writeable};

#[test]
fn dynamic_sequence_wire_size_and_round_trip() {
    let v: Vec<u32> = vec![10, 20, 30];
    let mut w = ByteWriter::new();
    w.ser(&v).unwrap();
    let bytes = w.into_vec();
    assert_eq!(bytes.len(), 4 + 3 * 4);
    assert_eq!(&bytes[..4], &[3, 0, 0, 0]);
    let mut r = ByteReader::new(bytes);
    let back: Vec<u32> = r.de().unwrap();
    assert_eq!(back, v);
    assert_eq!(r.position(), 16);
}

#[test]
fn nested_sequences_round_trip() {
    let v: Vec<Vec<u16>> = vec![vec![1, 2], vec![], vec![3]];
    let mut w = ByteWriter::new();
    w.ser(&v).unwrap();
    let mut r = ByteReader::new(w.into_vec());
    let back: Vec<Vec<u16>> = r.de().unwrap();
    assert_eq!(back, v);
}

#[test]
fn context_decode_reads_no_count_field() {
    // two u32 values and nothing else: the count comes from the caller
    let bytes = vec![1, 0, 0, 0, 2, 0, 0, 0];
    let mut r = ByteReader::new(bytes);
    let back: Vec<u32> = r.de_ctx(2usize).unwrap();
    assert_eq!(back, vec![1, 2]);
    assert_eq!(r.position(), 8);
}

#[test]
fn context_decode_of_zero_elements_consumes_nothing() {
    let mut r = ByteReader::new(vec![7, 7, 7]);
    let back: Vec<u32> = r.de_ctx(0usize).unwrap();
    assert_eq!(back, Vec::<u32>::new());
    assert_eq!(r.position(), 0);
}

#[test]
fn fixed_run_of_zero_elements() {
    let mut r = ByteReader::new(vec![1, 2, 3]);
    let back: Vec<u32> = read_array(0, &mut r).unwrap();
    assert_eq!(back, Vec::<u32>::new());
    assert_eq!(r.position(), 0);
    let mut w = ByteWriter::new();
    u32::ser_array(&Vec::new(), &mut w).unwrap();
    assert_eq!(w.into_vec(), Vec::<u8>::new());
}

#[test]
fn fixed_run_reads_exactly_count_elements() {
    let bytes = vec![5, 0, 0xFF, 0xFF, 1, 0];
    let mut r = ByteReader::new(bytes);
    let back: Vec<u16> = read_array(3, &mut r).unwrap();
    assert_eq!(back, vec![5, 0xFFFF, 1]);
    assert_eq!(r.position(), 6);
}

#[test]
fn ser_no_length_writes_no_prefix() {
    let v: Vec<u16> = vec![0x1122, 0x3344];
    let mut w = ByteWriter::new();
    w.ser_no_length(&v).unwrap();
    assert_eq!(w.into_vec(), vec![0x22, 0x11, 0x44, 0x33]);
}

#[test]
fn byte_bulk_paths_match_the_generic_layout() {
    let v: Vec<u8> = vec![9, 8, 7, 6];
    let mut w = ByteWriter::new();
    w.ser(&v).unwrap();
    let bytes = w.into_vec();
    assert_eq!(bytes, vec![4, 0, 0, 0, 9, 8, 7, 6]);
    let mut r = ByteReader::new(bytes);
    let back: Vec<u8> = r.de().unwrap();
    assert_eq!(back, v);
    let mut r2 = ByteReader::new(vec![1, 2, 3]);
    let direct: Vec<u8> = u8::de_vec(2, &mut r2).unwrap();
    assert_eq!(direct, vec![1, 2]);
}

#[test]
fn sequence_of_strings_round_trip() {
    let v: Vec<String> = vec!["one".into(), "".into(), "dr\u{FC}ben".into()];
    let mut w = ByteWriter::new();
    w.ser(&v).unwrap();
    let mut r = ByteReader::new(w.into_vec());
    let back: Vec<String> = r.de().unwrap();
    assert_eq!(back, v);
}

#[test]
fn fixed_array_round_trip() {
    let a: [u32; 3] = [1, 0xDEAD_BEEF, 3];
    let mut w = ByteWriter::new();
    w.ser(&a).unwrap();
    let bytes = w.into_vec();
    assert_eq!(bytes.len(), 12);
    let mut r = ByteReader::new(bytes);
    let back: [u32; 3] = r.de().unwrap();
    assert_eq!(back, a);
    assert_eq!(r.position(), 12);
}

#[test]
fn zero_length_array_is_zero_bytes_both_ways() {
    let a: [u16; 0] = [];
    let mut w = ByteWriter::new();
    w.ser(&a).unwrap();
    assert_eq!(w.into_vec(), Vec::<u8>::new());
    let mut r = ByteReader::new(vec![9, 9]);
    let back: [u16; 0] = r.de().unwrap();
    assert_eq!(back.len(), 0);
    assert_eq!(r.position(), 0);
}

#[test]
fn de_array_decodes_elements_in_order() {
    let mut r = ByteReader::new(vec![1, 2, 3, 4]);
    let back: [u8; 4] = u8::de_array(&mut r).unwrap();
    assert_eq!(back, [1, 2, 3, 4]);
}
