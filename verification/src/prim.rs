//! Primitive codecs: boolean and the signed/unsigned 8/16/32/64-bit
//! integers, each read and written in its natural byte width, little-endian.
//! A boolean travels as a full 32-bit word: zero is false, anything else is
//! true. Signed integers travel as the two's complement of their value.

use crate::codec::{enc_seq, parse_seq, Readable, WireEnc, WireParse, Writeable};
use crate::err::CodecError;
use crate::stream::{ByteReader, ByteWriter};
use vstd::bytes::{
    spec_u16_from_le_bytes, spec_u16_to_le_bytes, spec_u32_from_le_bytes, spec_u32_to_le_bytes,
    spec_u64_from_le_bytes, spec_u64_to_le_bytes, u16_from_le_bytes, u16_to_le_bytes,
    u32_from_le_bytes, u32_to_le_bytes, u64_from_le_bytes, u64_to_le_bytes,
};
use vstd::prelude::*;

verus! {

/// The two's complement reading of a byte.
pub open spec fn i8_of_u8(u: u8) -> i8 {
    if u < 0x80 {
        u as i8
    } else {
        (u - 0x100) as i8
    }
}

/// The byte that carries `m` in two's complement.
pub open spec fn u8_of_i8(m: i8) -> u8 {
    if m >= 0 {
        m as u8
    } else {
        (m + 0x100) as u8
    }
}

/// The two's complement reading of a 16-bit word.
pub open spec fn i16_of_u16(u: u16) -> i16 {
    if u < 0x8000 {
        u as i16
    } else {
        (u - 0x10000) as i16
    }
}

/// The 16-bit word that carries `m` in two's complement.
pub open spec fn u16_of_i16(m: i16) -> u16 {
    if m >= 0 {
        m as u16
    } else {
        (m + 0x10000) as u16
    }
}

/// The two's complement reading of a 32-bit word.
pub open spec fn i32_of_u32(u: u32) -> i32 {
    if u < 0x8000_0000 {
        u as i32
    } else {
        (u - 0x1_0000_0000) as i32
    }
}

/// The 32-bit word that carries `m` in two's complement.
pub open spec fn u32_of_i32(m: i32) -> u32 {
    if m >= 0 {
        m as u32
    } else {
        (m + 0x1_0000_0000) as u32
    }
}

/// The two's complement reading of a 64-bit word.
pub open spec fn i64_of_u64(u: u64) -> i64 {
    if u < 0x8000_0000_0000_0000 {
        u as i64
    } else {
        (u - 0x1_0000_0000_0000_0000) as i64
    }
}

/// The 64-bit word that carries `m` in two's complement.
pub open spec fn u64_of_i64(m: i64) -> u64 {
    if m >= 0 {
        m as u64
    } else {
        (m + 0x1_0000_0000_0000_0000) as u64
    }
}

/// Recover an `i8` from its two's complement byte.
pub(crate) fn u8_to_i8(u: u8) -> (r: i8)
    ensures
        r == i8_of_u8(u),
{
    if u < 0x80 {
        u as i8
    } else {
        ((u as i16) - 0x100) as i8
    }
}

/// The two's complement byte of an `i8`.
pub(crate) fn i8_to_u8(m: i8) -> (r: u8)
    ensures
        r == u8_of_i8(m),
{
    if m >= 0 {
        m as u8
    } else {
        ((m as i16) + 0x100) as u8
    }
}

/// Recover an `i16` from its two's complement word.
pub(crate) fn u16_to_i16(u: u16) -> (r: i16)
    ensures
        r == i16_of_u16(u),
{
    if u < 0x8000 {
        u as i16
    } else {
        ((u as i32) - 0x10000) as i16
    }
}

/// The two's complement word of an `i16`.
pub(crate) fn i16_to_u16(m: i16) -> (r: u16)
    ensures
        r == u16_of_i16(m),
{
    if m >= 0 {
        m as u16
    } else {
        ((m as i32) + 0x10000) as u16
    }
}

/// Recover an `i32` from its two's complement word.
pub(crate) fn u32_to_i32(u: u32) -> (r: i32)
    ensures
        r == i32_of_u32(u),
{
    if u < 0x8000_0000 {
        u as i32
    } else {
        ((u as i64) - 0x1_0000_0000) as i32
    }
}

/// The two's complement word of an `i32`.
pub(crate) fn i32_to_u32(m: i32) -> (r: u32)
    ensures
        r == u32_of_i32(m),
{
    if m >= 0 {
        m as u32
    } else {
        ((m as i64) + 0x1_0000_0000) as u32
    }
}

/// Recover an `i64` from its two's complement word.
pub(crate) fn u64_to_i64(u: u64) -> (r: i64)
    ensures
        r == i64_of_u64(u),
{
    if u < 0x8000_0000_0000_0000 {
        u as i64
    } else {
        let x = (u64::MAX - u) as i64;
        -x - 1
    }
}

/// The two's complement word of an `i64`.
pub(crate) fn i64_to_u64(m: i64) -> (r: u64)
    ensures
        r == u64_of_i64(m),
{
    if m >= 0 {
        m as u64
    } else {
        let x = (-(m + 1)) as u64;
        u64::MAX - x
    }
}

impl WireParse for u8 {
    open spec fn parse(bytes: Seq<u8>) -> Result<(u8, nat), CodecError> {
        if bytes.len() >= 1 {
            Ok((bytes[0], 1 as nat))
        } else {
            Err(CodecError::Io)
        }
    }
}

impl Readable for u8 {
    fn de(stream: &mut ByteReader) -> (r: Result<u8, CodecError>)
        ensures
            r is Err ==> final(stream).pos == old(stream).pos,
    {
        match stream.read_bytes(1) {
            Ok(b) => Ok(b[0]),
            Err(e) => Err(e),
        }
    }

    /// The bulk path: one buffer read instead of a per-byte loop.
    fn de_vec(len: usize, stream: &mut ByteReader) -> (r: Result<Vec<u8>, CodecError>) {
        proof {
            lemma_parse_seq_u8(old(stream).remaining(), len as nat);
        }
        match stream.read_bytes(len) {
            Ok(b) => {
                proof {
                    assert(b.deep_view() =~= b@);
                }
                Ok(b)
            },
            Err(e) => Err(e),
        }
    }
}

impl WireEnc for u8 {
    open spec fn enc(m: u8) -> Seq<u8> {
        seq![m]
    }

    open spec fn serializable(m: u8) -> bool {
        true
    }
}

impl Writeable for u8 {
    fn ser(&self, stream: &mut ByteWriter) -> (r: Result<(), CodecError>) {
        stream.write_byte(*self);
        proof {
            assert(old(stream).data@.push(*self) =~= old(stream).data@ + seq![*self]);
        }
        Ok(())
    }

    /// The bulk path: one buffer write instead of a per-byte loop.
    fn ser_array(this: &Vec<u8>, stream: &mut ByteWriter) -> (r: Result<(), CodecError>) {
        proof {
            assert(this.deep_view() =~= this@);
            lemma_enc_seq_u8(this@);
        }
        stream.write_bytes(this);
        Ok(())
    }
}

/// A run of `count` byte elements parses to exactly the next `count` bytes.
pub proof fn lemma_parse_seq_u8(bytes: Seq<u8>, count: nat)
    ensures
        count <= bytes.len() ==> parse_seq::<u8>(bytes, count) == Ok::<(Seq<u8>, nat), CodecError>(
            (bytes.take(count as int), count),
        ),
        count > bytes.len() ==> parse_seq::<u8>(bytes, count) == Err::<(Seq<u8>, nat), CodecError>(
            CodecError::Io,
        ),
    decreases count,
{
    if count == 0 {
        assert(bytes.take(0) =~= Seq::<u8>::empty());
    } else if bytes.len() == 0 {
    } else {
        lemma_parse_seq_u8(bytes.skip(1), (count - 1) as nat);
        if count <= bytes.len() {
            assert(seq![bytes[0]] + bytes.skip(1).take(count - 1) =~= bytes.take(count as int));
        }
    }
}

/// A run of byte elements encodes to exactly those bytes.
pub proof fn lemma_enc_seq_u8(ms: Seq<u8>)
    ensures
        enc_seq::<u8>(ms) == ms,
    decreases ms.len(),
{
    if ms.len() == 0 {
        assert(enc_seq::<u8>(ms) =~= ms);
    } else {
        lemma_enc_seq_u8(ms.skip(1));
        assert(seq![ms[0]] + ms.skip(1) =~= ms);
    }
}

impl WireParse for u16 {
    open spec fn parse(bytes: Seq<u8>) -> Result<(u16, nat), CodecError> {
        if bytes.len() >= 2 {
            Ok((spec_u16_from_le_bytes(bytes.take(2)), 2 as nat))
        } else {
            Err(CodecError::Io)
        }
    }
}

impl Readable for u16 {
    fn de(stream: &mut ByteReader) -> (r: Result<u16, CodecError>)
        ensures
            r is Err ==> final(stream).pos == old(stream).pos,
    {
        match stream.read_bytes(2) {
            Ok(b) => Ok(u16_from_le_bytes(b.as_slice())),
            Err(e) => Err(e),
        }
    }
}

impl WireEnc for u16 {
    open spec fn enc(m: u16) -> Seq<u8> {
        spec_u16_to_le_bytes(m)
    }

    open spec fn serializable(m: u16) -> bool {
        true
    }
}

impl Writeable for u16 {
    fn ser(&self, stream: &mut ByteWriter) -> (r: Result<(), CodecError>) {
        let bs = u16_to_le_bytes(*self);
        stream.write_bytes(&bs);
        Ok(())
    }
}

impl WireParse for u32 {
    open spec fn parse(bytes: Seq<u8>) -> Result<(u32, nat), CodecError> {
        if bytes.len() >= 4 {
            Ok((spec_u32_from_le_bytes(bytes.take(4)), 4 as nat))
        } else {
            Err(CodecError::Io)
        }
    }
}

impl Readable for u32 {
    fn de(stream: &mut ByteReader) -> (r: Result<u32, CodecError>)
        ensures
            r is Err ==> final(stream).pos == old(stream).pos,
    {
        match stream.read_bytes(4) {
            Ok(b) => Ok(u32_from_le_bytes(b.as_slice())),
            Err(e) => Err(e),
        }
    }
}

impl WireEnc for u32 {
    open spec fn enc(m: u32) -> Seq<u8> {
        spec_u32_to_le_bytes(m)
    }

    open spec fn serializable(m: u32) -> bool {
        true
    }
}

impl Writeable for u32 {
    fn ser(&self, stream: &mut ByteWriter) -> (r: Result<(), CodecError>) {
        let bs = u32_to_le_bytes(*self);
        stream.write_bytes(&bs);
        Ok(())
    }
}

impl WireParse for u64 {
    open spec fn parse(bytes: Seq<u8>) -> Result<(u64, nat), CodecError> {
        if bytes.len() >= 8 {
            Ok((spec_u64_from_le_bytes(bytes.take(8)), 8 as nat))
        } else {
            Err(CodecError::Io)
        }
    }
}

impl Readable for u64 {
    fn de(stream: &mut ByteReader) -> (r: Result<u64, CodecError>)
        ensures
            r is Err ==> final(stream).pos == old(stream).pos,
    {
        match stream.read_bytes(8) {
            Ok(b) => Ok(u64_from_le_bytes(b.as_slice())),
            Err(e) => Err(e),
        }
    }
}

impl WireEnc for u64 {
    open spec fn enc(m: u64) -> Seq<u8> {
        spec_u64_to_le_bytes(m)
    }

    open spec fn serializable(m: u64) -> bool {
        true
    }
}

impl Writeable for u64 {
    fn ser(&self, stream: &mut ByteWriter) -> (r: Result<(), CodecError>) {
        let bs = u64_to_le_bytes(*self);
        stream.write_bytes(&bs);
        Ok(())
    }
}

impl WireParse for i8 {
    open spec fn parse(bytes: Seq<u8>) -> Result<(i8, nat), CodecError> {
        if bytes.len() >= 1 {
            Ok((i8_of_u8(bytes[0]), 1 as nat))
        } else {
            Err(CodecError::Io)
        }
    }
}

impl Readable for i8 {
    fn de(stream: &mut ByteReader) -> (r: Result<i8, CodecError>)
        ensures
            r is Err ==> final(stream).pos == old(stream).pos,
    {
        match stream.read_bytes(1) {
            Ok(b) => Ok(u8_to_i8(b[0])),
            Err(e) => Err(e),
        }
    }
}

impl WireEnc for i8 {
    open spec fn enc(m: i8) -> Seq<u8> {
        seq![u8_of_i8(m)]
    }

    open spec fn serializable(m: i8) -> bool {
        true
    }
}

impl Writeable for i8 {
    fn ser(&self, stream: &mut ByteWriter) -> (r: Result<(), CodecError>) {
        let b = i8_to_u8(*self);
        stream.write_byte(b);
        proof {
            assert(old(stream).data@.push(b) =~= old(stream).data@ + seq![b]);
        }
        Ok(())
    }
}

impl WireParse for i16 {
    open spec fn parse(bytes: Seq<u8>) -> Result<(i16, nat), CodecError> {
        if bytes.len() >= 2 {
            Ok((i16_of_u16(spec_u16_from_le_bytes(bytes.take(2))), 2 as nat))
        } else {
            Err(CodecError::Io)
        }
    }
}

impl Readable for i16 {
    fn de(stream: &mut ByteReader) -> (r: Result<i16, CodecError>)
        ensures
            r is Err ==> final(stream).pos == old(stream).pos,
    {
        match stream.read_bytes(2) {
            Ok(b) => Ok(u16_to_i16(u16_from_le_bytes(b.as_slice()))),
            Err(e) => Err(e),
        }
    }
}

impl WireEnc for i16 {
    open spec fn enc(m: i16) -> Seq<u8> {
        spec_u16_to_le_bytes(u16_of_i16(m))
    }

    open spec fn serializable(m: i16) -> bool {
        true
    }
}

impl Writeable for i16 {
    fn ser(&self, stream: &mut ByteWriter) -> (r: Result<(), CodecError>) {
        let bs = u16_to_le_bytes(i16_to_u16(*self));
        stream.write_bytes(&bs);
        Ok(())
    }
}

impl WireParse for i32 {
    open spec fn parse(bytes: Seq<u8>) -> Result<(i32, nat), CodecError> {
        if bytes.len() >= 4 {
            Ok((i32_of_u32(spec_u32_from_le_bytes(bytes.take(4))), 4 as nat))
        } else {
            Err(CodecError::Io)
        }
    }
}

impl Readable for i32 {
    fn de(stream: &mut ByteReader) -> (r: Result<i32, CodecError>)
        ensures
            r is Err ==> final(stream).pos == old(stream).pos,
    {
        match stream.read_bytes(4) {
            Ok(b) => Ok(u32_to_i32(u32_from_le_bytes(b.as_slice()))),
            Err(e) => Err(e),
        }
    }
}

impl WireEnc for i32 {
    open spec fn enc(m: i32) -> Seq<u8> {
        spec_u32_to_le_bytes(u32_of_i32(m))
    }

    open spec fn serializable(m: i32) -> bool {
        true
    }
}

impl Writeable for i32 {
    fn ser(&self, stream: &mut ByteWriter) -> (r: Result<(), CodecError>) {
        let bs = u32_to_le_bytes(i32_to_u32(*self));
        stream.write_bytes(&bs);
        Ok(())
    }
}

impl WireParse for i64 {
    open spec fn parse(bytes: Seq<u8>) -> Result<(i64, nat), CodecError> {
        if bytes.len() >= 8 {
            Ok((i64_of_u64(spec_u64_from_le_bytes(bytes.take(8))), 8 as nat))
        } else {
            Err(CodecError::Io)
        }
    }
}

impl Readable for i64 {
    fn de(stream: &mut ByteReader) -> (r: Result<i64, CodecError>)
        ensures
            r is Err ==> final(stream).pos == old(stream).pos,
    {
        match stream.read_bytes(8) {
            Ok(b) => Ok(u64_to_i64(u64_from_le_bytes(b.as_slice()))),
            Err(e) => Err(e),
        }
    }
}

impl WireEnc for i64 {
    open spec fn enc(m: i64) -> Seq<u8> {
        spec_u64_to_le_bytes(u64_of_i64(m))
    }

    open spec fn serializable(m: i64) -> bool {
        true
    }
}

impl Writeable for i64 {
    fn ser(&self, stream: &mut ByteWriter) -> (r: Result<(), CodecError>) {
        let bs = u64_to_le_bytes(i64_to_u64(*self));
        stream.write_bytes(&bs);
        Ok(())
    }
}

impl WireParse for bool {
    open spec fn parse(bytes: Seq<u8>) -> Result<(bool, nat), CodecError> {
        if bytes.len() >= 4 {
            Ok((spec_u32_from_le_bytes(bytes.take(4)) != 0, 4 as nat))
        } else {
            Err(CodecError::Io)
        }
    }
}

impl Readable for bool {
    fn de(stream: &mut ByteReader) -> (r: Result<bool, CodecError>)
        ensures
            r is Err ==> final(stream).pos == old(stream).pos,
    {
        match stream.read_bytes(4) {
            Ok(b) => Ok(u32_from_le_bytes(b.as_slice()) != 0),
            Err(e) => Err(e),
        }
    }
}

impl WireEnc for bool {
    open spec fn enc(m: bool) -> Seq<u8> {
        spec_u32_to_le_bytes(
            if m {
                1
            } else {
                0
            },
        )
    }

    open spec fn serializable(m: bool) -> bool {
        true
    }
}

impl Writeable for bool {
    fn ser(&self, stream: &mut ByteWriter) -> (r: Result<(), CodecError>) {
        let w: u32 = if *self {
            1
        } else {
            0
        };
        let bs = u32_to_le_bytes(w);
        stream.write_bytes(&bs);
        Ok(())
    }
}

} // verus!
