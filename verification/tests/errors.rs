use lecodec::{read_string, ByteReader, CodecError, ReadExt};

#[test]
fn short_stream_fails_with_io_and_consumes_nothing() {
    let mut r = ByteReader::new(vec![1, 2, 3]);
    let got: Result<u32, CodecError> = r.de();
    assert_eq!(got, Err(CodecError::Io));
    assert_eq!(r.position(), 0);
}

#[test]
fn short_stream_mid_sequence_fails_with_io() {
    // count says two elements but only one and a half follow
    let mut r = ByteReader::new(vec![2, 0, 0, 0, 1, 0, 0, 0, 9, 9]);
    let got: Result<Vec<u32>, CodecError> = r.de();
    assert_eq!(got, Err(CodecError::Io));
}

#[test]
fn short_string_payload_fails_with_io() {
    // prefix promises 5 bytes, only 2 follow
    let mut r = ByteReader::new(vec![5, 0, 0, 0, b'a', b'b']);
    let got: Result<String, CodecError> = r.de();
    assert_eq!(got, Err(CodecError::Io));
}

#[test]
fn short_wide_string_payload_fails_with_io() {
    let mut r = ByteReader::new(vec![0xFE, 0xFF, 0xFF, 0xFF, 0x41]);
    let got: Result<String, CodecError> = r.de();
    assert_eq!(got, Err(CodecError::Io));
}

#[test]
fn unpaired_high_surrogate_fails_with_validity_error() {
    // two units: an unpaired high surrogate, then the terminator
    let mut r = ByteReader::new(vec![0xFE, 0xFF, 0xFF, 0xFF, 0x00, 0xD8, 0x00, 0x00]);
    let got: Result<String, CodecError> = r.de();
    assert_eq!(got, Err(CodecError::InvalidUtf16));
}

#[test]
fn lone_low_surrogate_fails_with_validity_error() {
    let mut r = ByteReader::new(vec![0xFE, 0xFF, 0xFF, 0xFF, 0x00, 0xDC, 0x00, 0x00]);
    let got: Result<String, CodecError> = r.de();
    assert_eq!(got, Err(CodecError::InvalidUtf16));
}

#[test]
fn high_surrogate_followed_by_non_low_fails() {
    // units: D800, 0041 — a high surrogate must be followed by a low one
    let mut r = ByteReader::new(vec![0xFD, 0xFF, 0xFF, 0xFF, 0x00, 0xD8, 0x41, 0x00, 0x00, 0x00]);
    let got: Result<String, CodecError> = r.de();
    assert_eq!(got, Err(CodecError::InvalidUtf16));
}

#[test]
fn valid_surrogate_pair_before_terminator_decodes() {
    // units: D834, DD1E (U+1D11E), terminator
    let mut r = ByteReader::new(vec![0xFD, 0xFF, 0xFF, 0xFF, 0x34, 0xD8, 0x1E, 0xDD, 0x00, 0x00]);
    let got: String = r.de().unwrap();
    assert_eq!(got, "\u{1D11E}");
}

#[test]
fn read_string_short_stream_reports_io() {
    let mut r = ByteReader::new(vec![b'a']);
    assert_eq!(read_string(3, &mut r), Err(CodecError::Io));
    assert_eq!(r.position(), 0);
}

#[test]
fn error_kinds_are_distinguishable() {
    assert_ne!(CodecError::Io, CodecError::InvalidUtf16);
}
