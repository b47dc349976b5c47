//! The codec capability contracts.
//!
//! [`Readable`] is "decodable from a byte stream", [`Writeable`] is
//! "encodable to a byte stream", and [`ReadableCtx`] is decoding that takes a
//! caller-supplied context (for sequences whose element count is known
//! out-of-band). Each implementing type pins its wire layout down with two
//! spec functions: `parse`, which maps the bytes ahead of the cursor to the
//! decoded value's model and the exact byte count consumed (or to the error
//! produced), and `enc`, which maps a value's model to the exact bytes
//! written. [`ReadExt`] and [`WriteExt`] are the convenience entry points a
//! stream offers ("decode a `T` from me" / "encode this `T` into me").

use crate::err::CodecError;
use crate::stream::{ByteReader, ByteWriter};
use vstd::prelude::*;

verus! {

/// What decoding a `T` from `data` at cursor `pre` guarantees: if `parse`
/// succeeds on the bytes ahead of the cursor, the decoded value carries the
/// parsed model and the cursor lands exactly past the consumed bytes; if
/// `parse` fails, that same error comes back and the cursor is somewhere at
/// or after where it started (bytes consumed before the failing step are not
/// rewound).
pub open spec fn decode_post<T: WireParse>(
    data: Seq<u8>,
    pre: nat,
    post: nat,
    r: Result<T, CodecError>,
) -> bool {
    match T::parse(data.skip(pre as int)) {
        Ok((m, n)) => {
            &&& r matches Ok(v) && v.deep_view() == m
            &&& post == pre + n
        },
        Err(e) => {
            &&& r == Err::<T, CodecError>(e)
            &&& pre <= post <= data.len()
        },
    }
}

/// As [`decode_post`], for a fixed-count run of `count` elements.
pub open spec fn run_decode_post<T: WireParse>(
    data: Seq<u8>,
    pre: nat,
    post: nat,
    count: nat,
    r: Result<Vec<T>, CodecError>,
) -> bool {
    match parse_seq::<T>(data.skip(pre as int), count) {
        Ok((ms, n)) => {
            &&& r matches Ok(v) && v.deep_view() == ms
            &&& post == pre + n
        },
        Err(e) => {
            &&& r == Err::<Vec<T>, CodecError>(e)
            &&& pre <= post <= data.len()
        },
    }
}

/// As [`decode_post`], for a context-parameterized decode.
pub open spec fn ctx_decode_post<T: WireParseCtx<C>, C>(
    ctx: C,
    data: Seq<u8>,
    pre: nat,
    post: nat,
    r: Result<T, CodecError>,
) -> bool {
    match T::parse_ctx(ctx, data.skip(pre as int)) {
        Ok((m, n)) => {
            &&& r matches Ok(v) && v.deep_view() == m
            &&& post == pre + n
        },
        Err(e) => {
            &&& r == Err::<T, CodecError>(e)
            &&& pre <= post <= data.len()
        },
    }
}

/// Parsing `count` consecutive elements of `T`: the concatenated models and
/// the total byte count consumed, or the first element failure.
pub open spec fn parse_seq<T: WireParse>(bytes: Seq<u8>, count: nat) -> Result<
    (Seq<<T as DeepView>::V>, nat),
    CodecError,
>
    decreases count,
{
    if count == 0 {
        Ok((Seq::empty(), 0))
    } else {
        match T::parse(bytes) {
            Ok((m, n)) => match parse_seq::<T>(bytes.skip(n as int), (count - 1) as nat) {
                Ok((ms, rest)) => Ok((seq![m] + ms, (n + rest) as nat)),
                Err(e) => Err(e),
            },
            Err(e) => Err(e),
        }
    }
}

/// The bytes of `count` consecutive element encodings, in order.
pub open spec fn enc_seq<T: WireEnc>(ms: Seq<<T as DeepView>::V>) -> Seq<u8>
    decreases ms.len(),
{
    if ms.len() == 0 {
        Seq::empty()
    } else {
        T::enc(ms[0]) + enc_seq::<T>(ms.skip(1))
    }
}

/// Every element of the run is individually encodable.
pub open spec fn seq_serializable<T: WireEnc>(ms: Seq<<T as DeepView>::V>) -> bool {
    forall|i: int| 0 <= i < ms.len() ==> T::serializable(#[trigger] ms[i])
}

/// Appending one more element to a run appends its encoding.
pub proof fn lemma_enc_seq_push<T: WireEnc>(ms: Seq<<T as DeepView>::V>, m: <T as DeepView>::V)
    ensures
        enc_seq::<T>(ms.push(m)) == enc_seq::<T>(ms) + T::enc(m),
    decreases ms.len(),
{
    if ms.len() == 0 {
        assert(ms.push(m)[0] == m);
        assert(ms.push(m).skip(1) =~= Seq::<<T as DeepView>::V>::empty());
        assert(enc_seq::<T>(Seq::<<T as DeepView>::V>::empty()) == Seq::<u8>::empty());
        assert(T::enc(m) + Seq::<u8>::empty() =~= T::enc(m));
        assert(Seq::<u8>::empty() + T::enc(m) =~= T::enc(m));
    } else {
        assert(ms.push(m).skip(1) =~= ms.skip(1).push(m));
        lemma_enc_seq_push::<T>(ms.skip(1), m);
        assert(ms.push(m)[0] == ms[0]);
        assert(T::enc(ms[0]) + (enc_seq::<T>(ms.skip(1)) + T::enc(m)) =~= (T::enc(ms[0])
            + enc_seq::<T>(ms.skip(1))) + T::enc(m));
    }
}

/// A successful run of `count` elements yields exactly `count` models.
pub proof fn lemma_parse_seq_len<T: WireParse>(bytes: Seq<u8>, count: nat)
    ensures
        parse_seq::<T>(bytes, count) matches Ok((ms, n)) ==> ms.len() == count,
    decreases count,
{
    if count > 0 && parse_seq::<T>(bytes, count) is Ok {
        let pr = T::parse(bytes);
        if pr is Ok {
            lemma_parse_seq_len::<T>(bytes.skip(pr->Ok_0.1 as int), (count - 1) as nat);
        }
    }
}

/// The wire meaning of a decodable type, as a pure function of the bytes.
pub trait WireParse: DeepView {
    /// What a prefix of `bytes` denotes and how many bytes it occupies, or
    /// why parsing it fails.
    spec fn parse(bytes: Seq<u8>) -> Result<(<Self as DeepView>::V, nat), CodecError>;
}

/// The wire meaning of an encodable type, as a pure function of the model.
pub trait WireEnc: DeepView {
    /// The exact bytes that encoding a value with this model writes.
    spec fn enc(m: <Self as DeepView>::V) -> Seq<u8>;

    /// Which models can be encoded at all (counts must fit their prefix).
    spec fn serializable(m: <Self as DeepView>::V) -> bool;
}

/// The wire meaning of a context-parameterized decode.
pub trait WireParseCtx<C>: DeepView {
    /// The wire meaning of `Self` under context `ctx`.
    spec fn parse_ctx(ctx: C, bytes: Seq<u8>) -> Result<(<Self as DeepView>::V, nat), CodecError>;
}

/// Decodable from a byte stream.
pub trait Readable: Sized + WireParse {
    /// Decode one value from the stream.
    fn de(stream: &mut ByteReader) -> (r: Result<Self, CodecError>)
        requires
            old(stream).wf(),
        ensures
            final(stream).wf(),
            final(stream).data@ == old(stream).data@,
            decode_post::<Self>(
                old(stream).data@,
                old(stream).pos as nat,
                final(stream).pos as nat,
                r,
            ),
    ;

    /// Decode exactly `len` values, back to back, with no length prefix.
    fn de_vec(len: usize, stream: &mut ByteReader) -> (r: Result<Vec<Self>, CodecError>)
        requires
            old(stream).wf(),
        ensures
            final(stream).wf(),
            final(stream).data@ == old(stream).data@,
            run_decode_post::<Self>(
                old(stream).data@,
                old(stream).pos as nat,
                final(stream).pos as nat,
                len as nat,
                r,
            ),
    {
        let mut out: Vec<Self> = Vec::with_capacity(len);
        let mut i: usize = 0;
        while i < len
            invariant
                stream.wf(),
                old(stream).wf(),
                stream.data@ == old(stream).data@,
                i <= len,
                out@.len() == i,
                old(stream).pos <= stream.pos,
                parse_seq::<Self>(old(stream).remaining(), len as nat) == seq_result_prepend::<Self>(
                    out.deep_view(),
                    (stream.pos - old(stream).pos) as nat,
                    parse_seq::<Self>(stream.remaining(), (len - i) as nat),
                ),
            decreases len - i,
        {
            let ghost pre = *stream;
            let ghost pre_out = out.deep_view();
            match Self::de(stream) {
                Ok(v) => {
                    proof {
                        assert(Self::parse(pre.remaining()) is Ok);
                    }
                    let ghost m = Self::parse(pre.remaining())->Ok_0.0;
                    let ghost n = Self::parse(pre.remaining())->Ok_0.1;
                    out.push(v);
                    proof {
                        assert(stream.remaining() =~= pre.remaining().skip(n as int));
                        assert(out.deep_view() =~= pre_out.push(m));
                        let rest = parse_seq::<Self>(stream.remaining(), (len - i - 1) as nat);
                        if rest is Ok {
                            assert(pre_out + (seq![m] + rest->Ok_0.0) =~= pre_out.push(m)
                                + rest->Ok_0.0);
                        }
                    }
                    i = i + 1;
                },
                Err(e) => {
                    proof {
                        assert(parse_seq::<Self>(pre.remaining(), (len - i) as nat) == Err::<
                            (Seq<<Self as DeepView>::V>, nat),
                            CodecError,
                        >(e));
                    }
                    return Err(e);
                },
            }
        }
        proof {
            assert(out.deep_view() + Seq::<<Self as DeepView>::V>::empty() =~= out.deep_view());
        }
        Ok(out)
    }

    /// Decode a fixed-size array of exactly `N` elements, no length prefix:
    /// the element count is part of the type and never travels on the wire.
    fn de_array<const N: usize>(stream: &mut ByteReader) -> (r: Result<[Self; N], CodecError>) where
        Self: Copy + Default,
        requires
            old(stream).wf(),
        ensures
            final(stream).wf(),
            final(stream).data@ == old(stream).data@,
            (match parse_seq::<Self>(old(stream).remaining(), N as nat) {
                Ok((ms, n)) => {
                    &&& r matches Ok(a) && a.deep_view() == ms
                    &&& final(stream).pos == old(stream).pos + n
                },
                Err(e) => {
                    &&& r == Err::<[Self; N], CodecError>(e)
                    &&& old(stream).pos <= final(stream).pos
                },
            }),
    {
        proof {
            lemma_parse_seq_len::<Self>(old(stream).remaining(), N as nat);
        }
        let v = match Self::de_vec(N, stream) {
            Ok(v) => v,
            Err(e) => {
                return Err(e);
            },
        };
        let mut buf: [Self; N] = vstd::array::array_fill_for_copy_types(Self::default());
        let mut i: usize = 0;
        while i < N
            invariant
                i <= N,
                v.deep_view().len() == N,
                v@.len() == N,
                forall|t: int| 0 <= t < i ==> buf@[t] == v@[t],
            decreases N - i,
        {
            buf[i] = v[i];
            i = i + 1;
        }
        proof {
            assert(buf.deep_view() =~= v.deep_view());
        }
        Ok(buf)
    }
}

/// Encodable to a byte stream.
pub trait Writeable: Sized + WireEnc {
    /// Encode one value into the stream.
    fn ser(&self, stream: &mut ByteWriter) -> (r: Result<(), CodecError>)
        requires
            Self::serializable(self.deep_view()),
        ensures
            r is Ok,
            final(stream).data@ == old(stream).data@ + Self::enc(self.deep_view()),
    ;

    /// Encode every element of `this`, in order, with no length prefix.
    fn ser_array(this: &Vec<Self>, stream: &mut ByteWriter) -> (r: Result<(), CodecError>)
        requires
            seq_serializable::<Self>(this.deep_view()),
        ensures
            r is Ok,
            final(stream).data@ == old(stream).data@ + enc_seq::<Self>(this.deep_view()),
    {
        let mut i: usize = 0;
        proof {
            assert(this.deep_view().take(0) =~= Seq::<<Self as DeepView>::V>::empty());
            assert(stream.data@ + Seq::<u8>::empty() =~= stream.data@);
        }
        while i < this.len()
            invariant
                i <= this@.len(),
                this.deep_view().len() == this@.len(),
                seq_serializable::<Self>(this.deep_view()),
                stream.data@ == old(stream).data@ + enc_seq::<Self>(this.deep_view().take(i as int)),
            decreases this@.len() - i,
        {
            let e = &this[i];
            proof {
                assert(e.deep_view() == this.deep_view()[i as int]);
            }
            let _ = e.ser(stream);
            proof {
                lemma_enc_seq_push::<Self>(
                    this.deep_view().take(i as int),
                    this.deep_view()[i as int],
                );
                assert(this.deep_view().take(i + 1) =~= this.deep_view().take(i as int).push(
                    this.deep_view()[i as int],
                ));
                assert((old(stream).data@ + enc_seq::<Self>(this.deep_view().take(i as int)))
                    + Self::enc(this.deep_view()[i as int]) =~= old(stream).data@ + enc_seq::<Self>(
                    this.deep_view().take(i + 1),
                ));
            }
            i = i + 1;
        }
        proof {
            assert(this.deep_view().take(this@.len() as int) =~= this.deep_view());
        }
        Ok(())
    }
}

/// Decodable from a byte stream with a caller-supplied context.
pub trait ReadableCtx<C>: Sized + WireParseCtx<C> {
    /// Decode one value from the stream, using `ctx`.
    fn de(stream: &mut ByteReader, ctx: C) -> (r: Result<Self, CodecError>)
        requires
            old(stream).wf(),
        ensures
            final(stream).wf(),
            final(stream).data@ == old(stream).data@,
            ctx_decode_post::<Self, C>(
                ctx,
                old(stream).data@,
                old(stream).pos as nat,
                final(stream).pos as nat,
                r,
            ),
    ;
}

/// Decode exactly `len` values of `T`, back to back, with no length prefix.
pub fn read_array<T: Readable>(len: usize, stream: &mut ByteReader) -> (r: Result<
    Vec<T>,
    CodecError,
>)
    requires
        old(stream).wf(),
    ensures
        final(stream).wf(),
        final(stream).data@ == old(stream).data@,
        run_decode_post::<T>(
            old(stream).data@,
            old(stream).pos as nat,
            final(stream).pos as nat,
            len as nat,
            r,
        ),
{
    T::de_vec(len, stream)
}

/// Prefixing an already-decoded run onto the outcome of decoding the rest.
spec fn seq_result_prepend<T: WireParse>(
    ms: Seq<<T as DeepView>::V>,
    consumed: nat,
    rest: Result<(Seq<<T as DeepView>::V>, nat), CodecError>,
) -> Result<(Seq<<T as DeepView>::V>, nat), CodecError> {
    match rest {
        Ok((ms2, n2)) => Ok((ms + ms2, (consumed + n2) as nat)),
        Err(e) => Err(e),
    }
}

/// "Decode a value of type `T` from me": the convenience entry points a
/// readable stream offers.
pub trait ReadExt: Sized {
    /// The stream's whole backing buffer.
    spec fn sdata(&self) -> Seq<u8>;

    /// The stream's cursor.
    spec fn spos(&self) -> nat;

    /// The cursor sits inside the buffer.
    spec fn swf(&self) -> bool;

    /// Decode a `T` from this stream.
    fn de<T: Readable>(&mut self) -> (r: Result<T, CodecError>)
        requires
            old(self).swf(),
        ensures
            final(self).swf(),
            final(self).sdata() == old(self).sdata(),
            final(self).sdata().len() >= final(self).spos(),
            decode_post::<T>(old(self).sdata(), old(self).spos(), final(self).spos(), r),
    ;

    /// Decode a `T` from this stream under context `ctx`.
    fn de_ctx<T: ReadableCtx<C>, C>(&mut self, ctx: C) -> (r: Result<T, CodecError>)
        requires
            old(self).swf(),
        ensures
            final(self).swf(),
            final(self).sdata() == old(self).sdata(),
            final(self).sdata().len() >= final(self).spos(),
            ctx_decode_post::<T, C>(ctx, old(self).sdata(), old(self).spos(), final(self).spos(), r),
    ;
}

impl ReadExt for ByteReader {
    open spec fn sdata(&self) -> Seq<u8> {
        self.data@
    }

    open spec fn spos(&self) -> nat {
        self.pos as nat
    }

    open spec fn swf(&self) -> bool {
        self.wf()
    }

    fn de<T: Readable>(&mut self) -> (r: Result<T, CodecError>) {
        T::de(self)
    }

    fn de_ctx<T: ReadableCtx<C>, C>(&mut self, ctx: C) -> (r: Result<T, CodecError>) {
        T::de(self, ctx)
    }
}

/// "Encode this value of type `T` into me": the convenience entry points a
/// writable stream offers.
pub trait WriteExt: Sized {
    /// The bytes written so far.
    spec fn sout(&self) -> Seq<u8>;

    /// Encode `value` into this stream.
    fn ser<T: Writeable>(&mut self, value: &T) -> (r: Result<(), CodecError>)
        requires
            T::serializable(value.deep_view()),
        ensures
            r is Ok,
            final(self).sout() == old(self).sout() + T::enc(value.deep_view()),
    ;

    /// Encode every element of `value`, in order, with no length prefix.
    fn ser_no_length<T: Writeable>(&mut self, value: &Vec<T>) -> (r: Result<(), CodecError>)
        requires
            seq_serializable::<T>(value.deep_view()),
        ensures
            r is Ok,
            final(self).sout() == old(self).sout() + enc_seq::<T>(value.deep_view()),
    ;
}

impl WriteExt for ByteWriter {
    open spec fn sout(&self) -> Seq<u8> {
        self.data@
    }

    fn ser<T: Writeable>(&mut self, value: &T) -> (r: Result<(), CodecError>) {
        value.ser(self)
    }

    fn ser_no_length<T: Writeable>(&mut self, value: &Vec<T>) -> (r: Result<(), CodecError>) {
        T::ser_array(value, self)
    }
}

} // verus!
