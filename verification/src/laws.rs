//! The codec's round-trip laws.
//!
//! [`Lossless`] states, per type, that decoding an encoding yields the
//! encoded value back and consumes exactly the encoding — whatever bytes
//! follow it. It is proved for the boolean, every integer width, strings
//! without an embedded NUL, and sequences of round-tripping elements. The
//! standalone lemmas pin down the string prefix sign convention, truncation
//! at an embedded zero, the wire size of dynamic sequences, what a
//! context-supplied count consumes, and the two failure shapes (short
//! stream, unpaired surrogate).

use crate::codec::{
    enc_seq, parse_seq, seq_serializable, WireEnc, WireParse, WireParseCtx,
};
use crate::err::CodecError;
use crate::prim::{
    i16_of_u16, i32_of_u32, i64_of_u64, i8_of_u8, u16_of_i16, u32_of_i32, u64_of_i64, u8_of_i8,
};
use crate::text::{
    ascii_bytes_of, bytes_of_units, chars_of_units, first_zero_u16, first_zero_u8, is_ascii_bytes,
    lemma_bytes_of_units_len, lemma_bytes_of_units_push, lemma_first_zero_u16, lemma_first_zero_u8,
    lemma_units_bytes_inverse, lemma_utf16_round_trip, lemma_wide_units_len,
    lemma_wide_units_nonzero, narrow_chars_of, parse_str_payload, proof_char_nonzero, str_enc,
    str_serializable, u16_le_pair, units_of_bytes, wide_units_of,
};
use vstd::bytes::{
    lemma_auto_spec_u16_to_from_le_bytes, lemma_auto_spec_u32_to_from_le_bytes,
    lemma_auto_spec_u64_to_from_le_bytes, spec_u16_to_le_bytes, spec_u32_from_le_bytes,
    spec_u32_to_le_bytes, spec_u64_to_le_bytes,
};
use vstd::prelude::*;
use vstd::utf8::is_ascii_chars;

verus! {

/// Decode inverts encode: parsing an encoding followed by anything yields
/// the encoded model back and consumes exactly the encoding.
pub trait Lossless: WireParse + WireEnc {
    /// Which models round-trip. Encoding is total on serializable models,
    /// but a string with an embedded NUL decodes short: the law holds on
    /// models without one.
    spec fn round_trippable(m: <Self as DeepView>::V) -> bool;

    /// The round-trip law.
    proof fn lemma_round_trip(m: <Self as DeepView>::V, rest: Seq<u8>)
        requires
            Self::serializable(m),
            Self::round_trippable(m),
        ensures
            Self::parse(Self::enc(m) + rest) == Ok::<(<Self as DeepView>::V, nat), CodecError>(
                (m, Self::enc(m).len()),
            ),
    ;
}

impl Lossless for u8 {
    open spec fn round_trippable(m: u8) -> bool {
        true
    }

    proof fn lemma_round_trip(m: u8, rest: Seq<u8>) {
        assert((seq![m] + rest)[0] == m);
    }
}

impl Lossless for u16 {
    open spec fn round_trippable(m: u16) -> bool {
        true
    }

    proof fn lemma_round_trip(m: u16, rest: Seq<u8>) {
        lemma_auto_spec_u16_to_from_le_bytes();
        assert((spec_u16_to_le_bytes(m) + rest).take(2) =~= spec_u16_to_le_bytes(m));
    }
}

impl Lossless for u32 {
    open spec fn round_trippable(m: u32) -> bool {
        true
    }

    proof fn lemma_round_trip(m: u32, rest: Seq<u8>) {
        lemma_auto_spec_u32_to_from_le_bytes();
        assert((spec_u32_to_le_bytes(m) + rest).take(4) =~= spec_u32_to_le_bytes(m));
    }
}

impl Lossless for u64 {
    open spec fn round_trippable(m: u64) -> bool {
        true
    }

    proof fn lemma_round_trip(m: u64, rest: Seq<u8>) {
        lemma_auto_spec_u64_to_from_le_bytes();
        assert((spec_u64_to_le_bytes(m) + rest).take(8) =~= spec_u64_to_le_bytes(m));
    }
}

impl Lossless for i8 {
    open spec fn round_trippable(m: i8) -> bool {
        true
    }

    proof fn lemma_round_trip(m: i8, rest: Seq<u8>) {
        assert((seq![u8_of_i8(m)] + rest)[0] == u8_of_i8(m));
        assert(i8_of_u8(u8_of_i8(m)) == m);
    }
}

impl Lossless for i16 {
    open spec fn round_trippable(m: i16) -> bool {
        true
    }

    proof fn lemma_round_trip(m: i16, rest: Seq<u8>) {
        lemma_auto_spec_u16_to_from_le_bytes();
        let u = u16_of_i16(m);
        assert((spec_u16_to_le_bytes(u) + rest).take(2) =~= spec_u16_to_le_bytes(u));
        assert(i16_of_u16(u) == m);
    }
}

impl Lossless for i32 {
    open spec fn round_trippable(m: i32) -> bool {
        true
    }

    proof fn lemma_round_trip(m: i32, rest: Seq<u8>) {
        lemma_auto_spec_u32_to_from_le_bytes();
        let u = u32_of_i32(m);
        assert((spec_u32_to_le_bytes(u) + rest).take(4) =~= spec_u32_to_le_bytes(u));
        assert(i32_of_u32(u) == m);
    }
}

impl Lossless for i64 {
    open spec fn round_trippable(m: i64) -> bool {
        true
    }

    proof fn lemma_round_trip(m: i64, rest: Seq<u8>) {
        lemma_auto_spec_u64_to_from_le_bytes();
        let u = u64_of_i64(m);
        assert((spec_u64_to_le_bytes(u) + rest).take(8) =~= spec_u64_to_le_bytes(u));
        assert(i64_of_u64(u) == m);
    }
}

impl Lossless for bool {
    open spec fn round_trippable(m: bool) -> bool {
        true
    }

    proof fn lemma_round_trip(m: bool, rest: Seq<u8>) {
        lemma_auto_spec_u32_to_from_le_bytes();
        let w: u32 = if m {
            1
        } else {
            0
        };
        assert((spec_u32_to_le_bytes(w) + rest).take(4) =~= spec_u32_to_le_bytes(w));
    }
}

/// Every element of the run round-trips.
pub open spec fn seq_round_trippable<T: Lossless>(ms: Seq<<T as DeepView>::V>) -> bool {
    forall|i: int| 0 <= i < ms.len() ==> T::round_trippable(#[trigger] ms[i])
}

/// A run of encodings parses back to the run of models, consuming exactly
/// the encodings.
pub proof fn lemma_parse_seq_round_trip<T: Lossless>(ms: Seq<<T as DeepView>::V>, rest: Seq<u8>)
    requires
        seq_serializable::<T>(ms),
        seq_round_trippable::<T>(ms),
    ensures
        parse_seq::<T>(enc_seq::<T>(ms) + rest, ms.len()) == Ok::<
            (Seq<<T as DeepView>::V>, nat),
            CodecError,
        >((ms, enc_seq::<T>(ms).len())),
    decreases ms.len(),
{
    if ms.len() == 0 {
        assert(ms =~= Seq::<<T as DeepView>::V>::empty());
        assert(enc_seq::<T>(ms).len() == 0);
    } else {
        let m0 = ms[0];
        let tail = ms.skip(1);
        let e0 = T::enc(m0);
        let etail = enc_seq::<T>(tail);
        assert(enc_seq::<T>(ms) == e0 + etail);
        assert((e0 + etail) + rest =~= e0 + (etail + rest));
        T::lemma_round_trip(m0, etail + rest);
        assert((e0 + (etail + rest)).skip(e0.len() as int) =~= etail + rest);
        assert(seq_serializable::<T>(tail)) by {
            assert(forall|i: int|
                0 <= i < tail.len() ==> #[trigger] tail[i] == ms[i + 1] && T::serializable(
                    ms[i + 1],
                ));
        }
        assert(seq_round_trippable::<T>(tail)) by {
            assert(forall|i: int|
                0 <= i < tail.len() ==> #[trigger] tail[i] == ms[i + 1] && T::round_trippable(
                    ms[i + 1],
                ));
        }
        lemma_parse_seq_round_trip::<T>(tail, rest);
        assert(seq![m0] + tail =~= ms);
    }
}

impl<T: Lossless> Lossless for Vec<T> {
    open spec fn round_trippable(ms: Seq<<T as DeepView>::V>) -> bool {
        seq_round_trippable::<T>(ms)
    }

    proof fn lemma_round_trip(ms: Seq<<T as DeepView>::V>, rest: Seq<u8>) {
        lemma_auto_spec_u32_to_from_le_bytes();
        let prefix = spec_u32_to_le_bytes(ms.len() as u32);
        let body = enc_seq::<T>(ms);
        assert((prefix + body) + rest =~= prefix + (body + rest));
        assert((prefix + (body + rest)).take(4) =~= prefix);
        assert((prefix + (body + rest)).skip(4) =~= body + rest);
        lemma_parse_seq_round_trip::<T>(ms, rest);
        assert(spec_u32_from_le_bytes(prefix) == ms.len() as u32);
        assert((ms.len() as u32) as nat == ms.len());
    }
}

impl<T: Lossless, const N: usize> Lossless for [T; N] {
    open spec fn round_trippable(ms: Seq<<T as DeepView>::V>) -> bool {
        ms.len() == N && seq_round_trippable::<T>(ms)
    }

    proof fn lemma_round_trip(ms: Seq<<T as DeepView>::V>, rest: Seq<u8>) {
        lemma_parse_seq_round_trip::<T>(ms, rest);
    }
}

impl Lossless for String {
    open spec fn round_trippable(cs: Seq<char>) -> bool {
        forall|i: int| 0 <= i < cs.len() ==> cs[i] != '\0'
    }

    proof fn lemma_round_trip(cs: Seq<char>, rest: Seq<u8>) {
        lemma_str_round_trip(cs, rest);
    }
}

/// The string round-trip law: decoding the encoding of a NUL-free string,
/// with anything after it, yields the string back and consumes exactly the
/// encoding.
pub proof fn lemma_str_round_trip(cs: Seq<char>, rest: Seq<u8>)
    requires
        str_serializable(cs),
        forall|i: int| 0 <= i < cs.len() ==> cs[i] != '\0',
    ensures
        <String as WireParse>::parse(str_enc(cs) + rest) == Ok::<(Seq<char>, nat), CodecError>(
            (cs, str_enc(cs).len()),
        ),
{
    lemma_auto_spec_u32_to_from_le_bytes();
    let e = str_enc(cs);
    if cs.len() == 0 {
        assert(e == spec_u32_to_le_bytes(0));
        assert((e + rest).take(4) =~= e);
        assert((e + rest).skip(4) =~= rest);
        assert(i32_of_u32(spec_u32_from_le_bytes(e)) == 0);
        let bs = rest.take(0);
        assert(bs =~= Seq::<u8>::empty());
        assert(bs.take(first_zero_u8(bs)) =~= Seq::<u8>::empty());
        assert(is_ascii_bytes(Seq::<u8>::empty()));
        assert(narrow_chars_of(Seq::<u8>::empty()) =~= cs);
    } else if is_ascii_chars(cs) {
        let ll = cs.len() as int;
        let prefix = spec_u32_to_le_bytes((cs.len() + 1) as u32);
        let ab = ascii_bytes_of(cs);
        let payload = ab + seq![0u8];
        assert(e =~= prefix + payload);
        assert(e + rest =~= prefix + (payload + rest));
        assert((prefix + (payload + rest)).take(4) =~= prefix);
        assert((prefix + (payload + rest)).skip(4) =~= payload + rest);
        assert(spec_u32_from_le_bytes(prefix) == (cs.len() + 1) as u32);
        assert(i32_of_u32((cs.len() + 1) as u32) == ll + 1);
        let body = payload + rest;
        assert(body.len() >= ll + 1);
        let bs = body.take(ll + 1);
        assert(bs =~= payload);
        assert forall|i: int| 0 <= i < ll implies bs[i] != 0 && bs[i] < 0x80 by {
            assert(cs[i] != '\0');
            assert('\0' <= cs[i] <= '\u{7f}');
            proof_char_nonzero(cs[i]);
            assert(bs[i] == cs[i] as u8);
        }
        assert(bs[ll] == 0);
        lemma_first_zero_u8(bs, ll);
        let cut = bs.take(ll);
        assert(cut =~= ab);
        assert(is_ascii_bytes(ab));
        let decoded = Seq::new(ab.len(), |i: int| ab[i] as char);
        assert forall|i: int| 0 <= i < ll implies decoded[i] == cs[i] by {
            assert('\0' <= cs[i] <= '\u{7f}');
            vstd::utf8::char_u32_cast(cs[i], cs[i] as u32);
            assert(ab[i] == cs[i] as u8);
        }
        assert(decoded =~= cs);
        assert(narrow_chars_of(ab) == decoded);
        assert(e.len() == 4 + ll + 1);
    } else {
        assert(cs.len() > 0);
        let us = wide_units_of(cs);
        let uu = us.len() as int;
        lemma_wide_units_len(cs);
        lemma_bytes_of_units_len(us);
        assert(uu + 1 <= 0x7FFF_FFFF);
        let p: int = -(uu + 1);
        let p32 = u32_of_i32(p as i32);
        let prefix = spec_u32_to_le_bytes(p32);
        let bu = bytes_of_units(us);
        let payload = bu + seq![0u8, 0u8];
        assert(e =~= prefix + payload);
        assert(e + rest =~= prefix + (payload + rest));
        assert((prefix + (payload + rest)).take(4) =~= prefix);
        assert((prefix + (payload + rest)).skip(4) =~= payload + rest);
        assert(spec_u32_from_le_bytes(prefix) == p32);
        assert(i32_of_u32(p32) == p as i32);
        assert((p as i32) as int == p);
        let body = payload + rest;
        assert(body.len() >= 2 * (uu + 1));
        let cut = body.take(2 * (uu + 1));
        lemma_bytes_of_units_push(us, 0);
        assert(u16_le_pair(0) =~= seq![0u8, 0u8]);
        assert(cut =~= bytes_of_units(us.push(0)));
        lemma_units_bytes_inverse(us.push(0));
        let w = units_of_bytes(cut);
        assert(w == us.push(0));
        lemma_wide_units_nonzero(cs);
        assert forall|i: int| 0 <= i < uu implies w[i] != 0 by {
            assert(w[i] == us[i]);
        }
        assert(w[uu] == 0);
        lemma_first_zero_u16(w, uu);
        assert(w.take(uu) =~= us);
        lemma_utf16_round_trip(cs);
        assert(chars_of_units(us) == Some(cs));
        assert(e.len() == 4 + 2 * uu + 2);
    }
}

/// The sign convention, single-byte path: a non-empty all-ASCII string of
/// length `L` is encoded with prefix `L + 1`.
pub proof fn lemma_sign_convention_narrow(cs: Seq<char>)
    requires
        cs.len() > 0,
        is_ascii_chars(cs),
        str_serializable(cs),
    ensures
        i32_of_u32(spec_u32_from_le_bytes(str_enc(cs).take(4))) == cs.len() + 1,
{
    lemma_auto_spec_u32_to_from_le_bytes();
    let prefix = spec_u32_to_le_bytes((cs.len() + 1) as u32);
    assert(str_enc(cs).take(4) =~= prefix);
}

/// The sign convention, wide path: a string that is not single-byte safe,
/// with `U` UTF-16 units, is encoded with prefix `-(U + 1)`.
pub proof fn lemma_sign_convention_wide(cs: Seq<char>)
    requires
        !is_ascii_chars(cs),
        str_serializable(cs),
    ensures
        i32_of_u32(spec_u32_from_le_bytes(str_enc(cs).take(4))) == -(wide_units_of(cs).len() + 1),
{
    assert(cs.len() > 0);
    lemma_auto_spec_u32_to_from_le_bytes();
    lemma_wide_units_len(cs);
    let uu = wide_units_of(cs).len() as int;
    let prefix = spec_u32_to_le_bytes(u32_of_i32((-(uu + 1)) as i32));
    assert(str_enc(cs).take(4) =~= prefix);
    assert(i32_of_u32(u32_of_i32((-(uu + 1)) as i32)) == -(uu + 1));
}

/// Truncation: a narrow payload with an embedded zero at `k` decodes to the
/// characters before `k`, yet consumes the full declared `n` bytes.
pub proof fn lemma_truncation_narrow(n: int, bytes: Seq<u8>, k: int)
    requires
        0 <= k < n <= bytes.len(),
        bytes[k] == 0,
        forall|i: int| 0 <= i < k ==> bytes[i] != 0,
    ensures
        parse_str_payload(n, bytes) == Ok::<(Seq<char>, nat), CodecError>(
            (narrow_chars_of(bytes.subrange(0, k)), n as nat),
        ),
{
    let bs = bytes.take(n);
    assert(forall|i: int| 0 <= i < k ==> bs[i] == bytes[i]);
    lemma_first_zero_u8(bs, k);
    assert(bs.take(k) =~= bytes.subrange(0, k));
}

/// Truncation, wide path: a wide payload with a zero unit at `k` decodes
/// from the units before `k` alone, yet consumes the full declared payload.
pub proof fn lemma_truncation_wide(n: int, bytes: Seq<u8>, k: int)
    requires
        n < 0,
        2 * (-n) <= bytes.len(),
        0 <= k < -n,
        units_of_bytes(bytes.take(2 * (-n)))[k] == 0,
        forall|i: int| 0 <= i < k ==> #[trigger] units_of_bytes(bytes.take(2 * (-n)))[i] != 0,
    ensures
        parse_str_payload(n, bytes) == (match chars_of_units(
            units_of_bytes(bytes.take(2 * (-n))).take(k),
        ) {
            Some(cs) => Ok::<(Seq<char>, nat), CodecError>((cs, (2 * -n) as nat)),
            None => Err::<(Seq<char>, nat), CodecError>(CodecError::InvalidUtf16),
        }),
{
    let us = units_of_bytes(bytes.take(2 * (-n)));
    lemma_first_zero_u16(us, k);
}

/// A fixed run of zero elements decodes to the empty run from zero bytes.
pub proof fn lemma_empty_run_parse<T: WireParse>(bytes: Seq<u8>)
    ensures
        parse_seq::<T>(bytes, 0) == Ok::<(Seq<<T as DeepView>::V>, nat), CodecError>(
            (Seq::empty(), 0),
        ),
{
}

/// A fixed run of zero elements encodes to zero bytes.
pub proof fn lemma_empty_run_enc<T: WireEnc>()
    ensures
        enc_seq::<T>(Seq::<<T as DeepView>::V>::empty()) == Seq::<u8>::empty(),
{
}

/// A run of 32-bit integers takes four bytes per element.
pub proof fn lemma_u32_run_size(ms: Seq<u32>)
    ensures
        enc_seq::<u32>(ms).len() == 4 * ms.len(),
    decreases ms.len(),
{
    lemma_auto_spec_u32_to_from_le_bytes();
    if ms.len() > 0 {
        lemma_u32_run_size(ms.skip(1));
    }
}

/// A dynamic sequence of 32-bit integers takes four bytes of count plus four
/// bytes per element on the wire.
pub proof fn lemma_vec_u32_wire_size(ms: Seq<u32>)
    requires
        ms.len() <= u32::MAX,
    ensures
        <Vec<u32> as WireEnc>::enc(ms).len() == 4 + 4 * ms.len(),
{
    lemma_auto_spec_u32_to_from_le_bytes();
    lemma_u32_run_size(ms);
}

/// A context-supplied count is taken as-is: no count field is read from the
/// bytes, which are parsed as exactly `n` consecutive elements.
pub proof fn lemma_ctx_count_is_external<T: WireParse>(n: usize, bytes: Seq<u8>)
    ensures
        <Vec<T> as WireParseCtx<usize>>::parse_ctx(n, bytes) == parse_seq::<T>(bytes, n as nat),
{
}

/// A successful run of `n` 32-bit integers consumes exactly `4 * n` bytes
/// and yields exactly `n` elements.
pub proof fn lemma_u32_run_consumes(bytes: Seq<u8>, n: nat)
    ensures
        parse_seq::<u32>(bytes, n) matches Ok((ms, k)) ==> ms.len() == n && k == 4 * n,
    decreases n,
{
    if n > 0 && parse_seq::<u32>(bytes, n) is Ok {
        lemma_u32_run_consumes(bytes.skip(4), (n - 1) as nat);
    }
}

/// Short stream: fewer than four bytes ahead fails a 32-bit decode with the
/// I/O failure.
pub proof fn lemma_short_stream_u32(bytes: Seq<u8>)
    requires
        bytes.len() < 4,
    ensures
        <u32 as WireParse>::parse(bytes) == Err::<(u32, nat), CodecError>(CodecError::Io),
{
}

/// A lone surrogate unit is not decodable UTF-16.
pub proof fn lemma_unpaired_surrogate(us: Seq<u16>)
    requires
        us.len() == 1,
        0xD800 <= us[0] < 0xE000,
    ensures
        chars_of_units(us) is None,
{
}

/// A wide payload whose units before the terminator are not valid UTF-16
/// fails with the validity failure, distinguishable from an I/O failure.
pub proof fn lemma_invalid_wide_payload(n: int, bytes: Seq<u8>)
    requires
        n < 0,
        2 * (-n) <= bytes.len(),
        chars_of_units(
            units_of_bytes(bytes.take(2 * (-n))).take(
                first_zero_u16(units_of_bytes(bytes.take(2 * (-n)))),
            ),
        ) is None,
    ensures
        parse_str_payload(n, bytes) == Err::<(Seq<char>, nat), CodecError>(
            CodecError::InvalidUtf16,
        ),
{
}

} // verus!
