//! Container composition: a fixed-size array travels as its elements back to
//! back with no prefix (the count is part of the type); a dynamically sized
//! sequence travels as a 32-bit little-endian element count followed by the
//! elements; the context-parameterized form decodes a caller-supplied count
//! and reads no count field from the stream.

use crate::codec::{
    enc_seq, lemma_enc_seq_push, parse_seq, seq_serializable, Readable, ReadableCtx, WireEnc,
    WireParse, WireParseCtx, Writeable,
};
use crate::err::CodecError;
use crate::stream::{ByteReader, ByteWriter};
use vstd::bytes::{spec_u32_from_le_bytes, spec_u32_to_le_bytes};
use vstd::prelude::*;

verus! {

impl<T: WireParse> WireParse for Vec<T> {
    open spec fn parse(bytes: Seq<u8>) -> Result<(Seq<<T as DeepView>::V>, nat), CodecError> {
        if bytes.len() < 4 {
            Err(CodecError::Io)
        } else {
            let count = spec_u32_from_le_bytes(bytes.take(4));
            match parse_seq::<T>(bytes.skip(4), count as nat) {
                Ok((ms, k)) => Ok((ms, (4 + k) as nat)),
                Err(e) => Err(e),
            }
        }
    }
}

impl<T: Readable> Readable for Vec<T> {
    fn de(stream: &mut ByteReader) -> (r: Result<Vec<T>, CodecError>) {
        let ghost first = *stream;
        let count = match u32::de(stream) {
            Ok(c) => c,
            Err(e) => {
                return Err(e);
            },
        };
        proof {
            assert(stream.remaining() =~= first.remaining().skip(4));
        }
        T::de_vec(count as usize, stream)
    }
}

impl<T: WireEnc> WireEnc for Vec<T> {
    open spec fn enc(m: Seq<<T as DeepView>::V>) -> Seq<u8> {
        spec_u32_to_le_bytes(m.len() as u32) + enc_seq::<T>(m)
    }

    open spec fn serializable(m: Seq<<T as DeepView>::V>) -> bool {
        m.len() <= u32::MAX && seq_serializable::<T>(m)
    }
}

impl<T: Writeable> Writeable for Vec<T> {
    fn ser(&self, stream: &mut ByteWriter) -> (r: Result<(), CodecError>) {
        let count: u32 = self.len() as u32;
        let _ = count.ser(stream);
        let r = T::ser_array(self, stream);
        proof {
            assert((old(stream).data@ + spec_u32_to_le_bytes(count)) + enc_seq::<T>(
                self.deep_view(),
            ) =~= old(stream).data@ + (spec_u32_to_le_bytes(count) + enc_seq::<T>(
                self.deep_view(),
            )));
        }
        r
    }
}

impl<T: WireParse> WireParseCtx<usize> for Vec<T> {
    open spec fn parse_ctx(ctx: usize, bytes: Seq<u8>) -> Result<
        (Seq<<T as DeepView>::V>, nat),
        CodecError,
    > {
        parse_seq::<T>(bytes, ctx as nat)
    }
}

impl<T: Readable> ReadableCtx<usize> for Vec<T> {
    fn de(stream: &mut ByteReader, ctx: usize) -> (r: Result<Vec<T>, CodecError>) {
        T::de_vec(ctx, stream)
    }
}

impl<T: WireParse, const N: usize> WireParse for [T; N] {
    open spec fn parse(bytes: Seq<u8>) -> Result<(Seq<<T as DeepView>::V>, nat), CodecError> {
        parse_seq::<T>(bytes, N as nat)
    }
}

impl<T: Readable + Copy + Default, const N: usize> Readable for [T; N] {
    fn de(stream: &mut ByteReader) -> (r: Result<[T; N], CodecError>) {
        T::de_array(stream)
    }
}

impl<T: WireEnc, const N: usize> WireEnc for [T; N] {
    open spec fn enc(m: Seq<<T as DeepView>::V>) -> Seq<u8> {
        enc_seq::<T>(m)
    }

    open spec fn serializable(m: Seq<<T as DeepView>::V>) -> bool {
        seq_serializable::<T>(m)
    }
}

impl<T: Writeable, const N: usize> Writeable for [T; N] {
    fn ser(&self, stream: &mut ByteWriter) -> (r: Result<(), CodecError>) {
        let mut i: usize = 0;
        proof {
            assert(self.deep_view().take(0) =~= Seq::<<T as DeepView>::V>::empty());
            assert(stream.data@ + Seq::<u8>::empty() =~= stream.data@);
        }
        while i < N
            invariant
                i <= N,
                self.deep_view().len() == N,
                seq_serializable::<T>(self.deep_view()),
                stream.data@ == old(stream).data@ + enc_seq::<T>(self.deep_view().take(i as int)),
            decreases N - i,
        {
            let e = vstd::array::array_index_get(self, i);
            proof {
                assert(e.deep_view() == self.deep_view()[i as int]);
            }
            let _ = e.ser(stream);
            proof {
                lemma_enc_seq_push::<T>(self.deep_view().take(i as int), self.deep_view()[i as int]);
                assert(self.deep_view().take(i + 1) =~= self.deep_view().take(i as int).push(
                    self.deep_view()[i as int],
                ));
                assert((old(stream).data@ + enc_seq::<T>(self.deep_view().take(i as int))) + T::enc(
                    self.deep_view()[i as int],
                ) =~= old(stream).data@ + enc_seq::<T>(self.deep_view().take(i + 1)));
            }
            i = i + 1;
        }
        proof {
            assert(self.deep_view().take(N as int) =~= self.deep_view());
        }
        Ok(())
    }
}

} // verus!
