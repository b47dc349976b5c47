//! The legacy dual-width string codec.
//!
//! A string travels as a signed 32-bit little-endian length prefix followed
//! by a payload: prefix `0` means the empty string with no payload; a
//! positive prefix `n` means `n` 8-bit units including one trailing zero
//! byte; a negative prefix `-n` means `n` 16-bit little-endian units
//! including one trailing zero unit. On decode the string stops at the first
//! zero unit, whatever the prefix implied, but the full declared payload is
//! consumed. Wide payloads must be valid UTF-16 (an unpaired surrogate is
//! [`CodecError::InvalidUtf16`]); narrow payloads are decoded as UTF-8 with
//! replacement characters for invalid sequences and never fail.

use crate::codec::{Readable, WireEnc, WireParse, Writeable};
use crate::err::CodecError;
use crate::prim::{i32_of_u32, i32_to_u32, u32_of_i32};
use crate::stream::{ByteReader, ByteWriter};
use vstd::bytes::{spec_u32_from_le_bytes, spec_u32_to_le_bytes, u32_to_le_bytes};
use vstd::prelude::*;
use vstd::string::StrSliceExecFns;
use vstd::string::StringExecFnsIsAscii;
use vstd::utf8::is_ascii_chars;

verus! {

broadcast use {vstd::utf8::char_is_scalar, vstd::utf8::char_u32_cast};

/// The UTF-16 code units of one character: scalar values below `0x10000`
/// take one unit, the rest take a surrogate pair.
pub open spec fn char_units(c: char) -> Seq<u16> {
    if (c as u32) < 0x10000 {
        seq![(c as u32) as u16]
    } else {
        let v = (c as u32) - 0x10000;
        seq![(0xD800 + v / 0x400) as u16, (0xDC00 + v % 0x400) as u16]
    }
}

/// The UTF-16 code units of a character sequence, in order.
pub open spec fn wide_units_of(cs: Seq<char>) -> Seq<u16>
    decreases cs.len(),
{
    if cs.len() == 0 {
        Seq::empty()
    } else {
        char_units(cs[0]) + wide_units_of(cs.skip(1))
    }
}

/// Decoding UTF-16 code units: `None` exactly when the units contain an
/// unpaired surrogate.
pub open spec fn chars_of_units(us: Seq<u16>) -> Option<Seq<char>>
    decreases us.len(),
{
    if us.len() == 0 {
        Some(Seq::empty())
    } else {
        let u = us[0];
        if u < 0xD800 || u >= 0xE000 {
            match chars_of_units(us.skip(1)) {
                Some(cs) => Some(seq![(u as u32) as char] + cs),
                None => None,
            }
        } else if u < 0xDC00 {
            if us.len() >= 2 && 0xDC00 <= us[1] < 0xE000 {
                let v = (0x10000 + (u - 0xD800) * 0x400 + (us[1] - 0xDC00)) as u32;
                match chars_of_units(us.skip(2)) {
                    Some(cs) => Some(seq![v as char] + cs),
                    None => None,
                }
            } else {
                None
            }
        } else {
            None
        }
    }
}

/// The index of the first zero byte, or the length if there is none.
pub open spec fn first_zero_u8(bs: Seq<u8>) -> int
    decreases bs.len(),
{
    if bs.len() == 0 {
        0
    } else if bs[0] == 0 {
        0
    } else {
        1 + first_zero_u8(bs.skip(1))
    }
}

/// The index of the first zero unit, or the length if there is none.
pub open spec fn first_zero_u16(us: Seq<u16>) -> int
    decreases us.len(),
{
    if us.len() == 0 {
        0
    } else if us[0] == 0 {
        0
    } else {
        1 + first_zero_u16(us.skip(1))
    }
}

/// A 16-bit unit as its little-endian byte pair.
pub open spec fn u16_le_pair(u: u16) -> Seq<u8> {
    seq![(u % 0x100) as u8, (u / 0x100) as u8]
}

/// A little-endian byte pair read as a 16-bit unit.
pub open spec fn u16_of_pair(b0: u8, b1: u8) -> u16 {
    (b0 + 0x100 * b1) as u16
}

/// Pairs of little-endian bytes read as 16-bit units.
pub open spec fn units_of_bytes(bs: Seq<u8>) -> Seq<u16> {
    Seq::new(bs.len() / 2, |i: int| u16_of_pair(bs[2 * i], bs[2 * i + 1]))
}

/// 16-bit units written out as little-endian byte pairs.
pub open spec fn bytes_of_units(us: Seq<u16>) -> Seq<u8>
    decreases us.len(),
{
    if us.len() == 0 {
        Seq::empty()
    } else {
        u16_le_pair(us[0]) + bytes_of_units(us.skip(1))
    }
}

/// Splitting a unit into its pair and reading it back is the identity.
pub proof fn lemma_u16_pair_round(u: u16)
    ensures
        u16_of_pair((u % 0x100) as u8, (u / 0x100) as u8) == u,
{
    vstd::arithmetic::div_mod::lemma_fundamental_div_mod(u as int, 0x100);
}

/// Every byte is in the ASCII range.
pub open spec fn is_ascii_bytes(bs: Seq<u8>) -> bool {
    forall|i: int| 0 <= i < bs.len() ==> bs[i] < 0x80
}

/// What `String::from_utf8_lossy` yields on bytes that are not pure ASCII:
/// a function of the bytes alone, named rather than spelled out.
pub uninterp spec fn utf8_lossy_of(bytes: Seq<u8>) -> Seq<char>;

/// The characters a narrow (8-bit unit) payload decodes to: ASCII bytes are
/// their own code points; anything else is the lossy UTF-8 reading, with
/// replacement characters substituted for invalid sequences.
pub open spec fn narrow_chars_of(bs: Seq<u8>) -> Seq<char> {
    if is_ascii_bytes(bs) {
        Seq::new(bs.len(), |i: int| bs[i] as char)
    } else {
        utf8_lossy_of(bs)
    }
}

/// The bytes of an all-ASCII character sequence, one byte per character.
pub open spec fn ascii_bytes_of(cs: Seq<char>) -> Seq<u8> {
    Seq::new(cs.len(), |i: int| cs[i] as u8)
}

/// What decoding a string payload under an already-read prefix `n` yields:
/// the characters before the first zero unit and the full declared payload
/// size consumed, or the error.
pub open spec fn parse_str_payload(n: int, bytes: Seq<u8>) -> Result<(Seq<char>, nat), CodecError> {
    if n < 0 {
        let count = -n;
        if bytes.len() < 2 * count {
            Err(CodecError::Io)
        } else {
            let us = units_of_bytes(bytes.take(2 * count));
            match chars_of_units(us.take(first_zero_u16(us))) {
                Some(cs) => Ok((cs, (2 * count) as nat)),
                None => Err(CodecError::InvalidUtf16),
            }
        }
    } else {
        if bytes.len() < n {
            Err(CodecError::Io)
        } else {
            let bs = bytes.take(n);
            Ok((narrow_chars_of(bs.take(first_zero_u8(bs))), n as nat))
        }
    }
}

/// The bytes that encoding a string writes: prefix `0` for the empty string;
/// for an all-ASCII string of length `L`, prefix `L + 1`, the bytes, and a
/// zero byte; otherwise, for `U` UTF-16 units, prefix `-(U + 1)`, the units
/// little-endian, and a zero unit.
pub open spec fn str_enc(cs: Seq<char>) -> Seq<u8> {
    if cs.len() == 0 {
        spec_u32_to_le_bytes(0)
    } else if is_ascii_chars(cs) {
        spec_u32_to_le_bytes((cs.len() + 1) as u32) + ascii_bytes_of(cs) + seq![0u8]
    } else {
        let us = wide_units_of(cs);
        spec_u32_to_le_bytes(u32_of_i32((-(us.len() + 1)) as i32)) + bytes_of_units(us) + seq![
            0u8,
            0u8,
        ]
    }
}

/// Strings whose unit count (either width) fits the signed 32-bit prefix.
pub open spec fn str_serializable(cs: Seq<char>) -> bool {
    cs.len() <= 0x3FFF_FFFE
}

/// Appending a character appends its units.
pub proof fn lemma_wide_units_push(cs: Seq<char>, c: char)
    ensures
        wide_units_of(cs.push(c)) == wide_units_of(cs) + char_units(c),
    decreases cs.len(),
{
    if cs.len() == 0 {
        assert(cs.push(c)[0] == c);
        assert(cs.push(c).skip(1) =~= Seq::<char>::empty());
        assert(wide_units_of(Seq::<char>::empty()) == Seq::<u16>::empty());
        assert(char_units(c) + Seq::<u16>::empty() =~= char_units(c));
        assert(Seq::<u16>::empty() + char_units(c) =~= char_units(c));
    } else {
        assert(cs.push(c).skip(1) =~= cs.skip(1).push(c));
        lemma_wide_units_push(cs.skip(1), c);
        assert(cs.push(c)[0] == cs[0]);
        assert(char_units(cs[0]) + (wide_units_of(cs.skip(1)) + char_units(c)) =~= (char_units(
            cs[0],
        ) + wide_units_of(cs.skip(1))) + char_units(c));
    }
}

/// A character takes at most two units.
pub proof fn lemma_wide_units_len(cs: Seq<char>)
    ensures
        wide_units_of(cs).len() <= 2 * cs.len(),
    decreases cs.len(),
{
    if cs.len() > 0 {
        lemma_wide_units_len(cs.skip(1));
    }
}

/// Appending a unit appends its byte pair.
pub proof fn lemma_bytes_of_units_push(us: Seq<u16>, u: u16)
    ensures
        bytes_of_units(us.push(u)) == bytes_of_units(us) + u16_le_pair(u),
    decreases us.len(),
{
    if us.len() == 0 {
        assert(us.push(u)[0] == u);
        assert(us.push(u).skip(1) =~= Seq::<u16>::empty());
        assert(bytes_of_units(Seq::<u16>::empty()) == Seq::<u8>::empty());
        assert(u16_le_pair(u) + Seq::<u8>::empty() =~= u16_le_pair(u));
        assert(Seq::<u8>::empty() + u16_le_pair(u) =~= u16_le_pair(u));
    } else {
        assert(us.push(u).skip(1) =~= us.skip(1).push(u));
        lemma_bytes_of_units_push(us.skip(1), u);
        assert(us.push(u)[0] == us[0]);
        assert(u16_le_pair(us[0]) + (bytes_of_units(us.skip(1)) + u16_le_pair(u)) =~= (u16_le_pair(
            us[0],
        ) + bytes_of_units(us.skip(1))) + u16_le_pair(u));
    }
}

/// A byte pair's length is two, so a run of units doubles in bytes.
pub proof fn lemma_bytes_of_units_len(us: Seq<u16>)
    ensures
        bytes_of_units(us).len() == 2 * us.len(),
    decreases us.len(),
{
    if us.len() > 0 {
        lemma_bytes_of_units_len(us.skip(1));
    }
}

/// Reading the byte pairs of a run of units back yields the same units.
pub proof fn lemma_units_bytes_inverse(us: Seq<u16>)
    ensures
        units_of_bytes(bytes_of_units(us)) == us,
    decreases us.len(),
{
    lemma_bytes_of_units_len(us);
    let b = bytes_of_units(us);
    let w = units_of_bytes(b);
    if us.len() == 0 {
        assert(w =~= us);
    } else {
        lemma_bytes_of_units_len(us.skip(1));
        lemma_units_bytes_inverse(us.skip(1));
        let b1 = bytes_of_units(us.skip(1));
        assert(b == u16_le_pair(us[0]) + b1);
        assert forall|i: int| 0 <= i < w.len() implies w[i] == us[i] by {
            if i == 0 {
                assert(b[0] == (us[0] % 0x100) as u8);
                assert(b[1] == (us[0] / 0x100) as u8);
                lemma_u16_pair_round(us[0]);
            } else {
                assert(b[2 * i] == b1[2 * (i - 1)]);
                assert(b[2 * i + 1] == b1[2 * (i - 1) + 1]);
                assert(units_of_bytes(b1)[i - 1] == us.skip(1)[i - 1]);
            }
        }
        assert(w =~= us);
    }
}

/// A character other than NUL has a nonzero code point.
pub proof fn proof_char_nonzero(c: char)
    requires
        c != '\0',
    ensures
        c as u32 != 0,
{
    if c as u32 == 0 {
        vstd::utf8::char_u32_cast(c, 0);
        vstd::utf8::char_u32_cast('\0', 0);
    }
}

/// No character of a NUL-free string contributes a zero unit.
pub proof fn lemma_wide_units_nonzero(cs: Seq<char>)
    requires
        forall|i: int| 0 <= i < cs.len() ==> cs[i] != '\0',
    ensures
        forall|j: int| 0 <= j < wide_units_of(cs).len() ==> wide_units_of(cs)[j] != 0,
    decreases cs.len(),
{
    if cs.len() > 0 {
        let c = cs[0];
        let head = char_units(c);
        let rest = wide_units_of(cs.skip(1));
        assert(forall|i: int| 0 <= i < cs.skip(1).len() ==> cs.skip(1)[i] == cs[i + 1]);
        lemma_wide_units_nonzero(cs.skip(1));
        assert(c != '\0');
        proof_char_nonzero(c);
        assert forall|j: int| 0 <= j < wide_units_of(cs).len() implies wide_units_of(cs)[j] != 0 by {
            vstd::utf8::char_is_scalar(c);
            let cu = c as u32;
            if j < head.len() {
                assert(wide_units_of(cs)[j] == head[j]);
                if cu < 0x10000 {
                    assert(head[j] == cu as u16);
                } else {
                    let v = cu - 0x10000;
                    vstd::arithmetic::div_mod::lemma_fundamental_div_mod(v as int, 0x400);
                    assert(0x400 * (v / 0x400) <= v);
                    assert(v / 0x400 <= 0x3FF);
                    assert(head[0] == (0xD800 + v / 0x400) as u16);
                    assert(head[1] == (0xDC00 + v % 0x400) as u16);
                    assert(head[0] >= 0xD800);
                    assert(head[1] >= 0xDC00);
                }
            } else {
                assert(wide_units_of(cs)[j] == rest[j - head.len()]);
            }
        }
    }
}

/// Decoding the UTF-16 units of a string yields the string back.
pub proof fn lemma_utf16_round_trip(cs: Seq<char>)
    ensures
        chars_of_units(wide_units_of(cs)) == Some(cs),
    decreases cs.len(),
{
    if cs.len() == 0 {
        assert(Seq::<char>::empty() =~= cs);
    } else {
        let c = cs[0];
        let cu = c as u32;
        let rest_units = wide_units_of(cs.skip(1));
        lemma_utf16_round_trip(cs.skip(1));
        let units = wide_units_of(cs);
        assert(units == char_units(c) + rest_units);
        vstd::utf8::char_is_scalar(c);
        vstd::utf8::char_u32_cast(c, cu);
        if cu < 0x10000 {
            let u0 = cu as u16;
            assert(units[0] == u0);
            assert(u0 as u32 == cu);
            assert(u0 < 0xD800 || u0 >= 0xE000);
            assert(units.skip(1) =~= rest_units);
            assert((u0 as u32) as char == c);
            assert(seq![c] + cs.skip(1) =~= cs);
        } else {
            let v = cu - 0x10000;
            vstd::arithmetic::div_mod::lemma_fundamental_div_mod(v as int, 0x400);
            assert(v <= 0xFFFFF);
            assert(0x400 * (v / 0x400) <= v);
            assert(v / 0x400 <= 0x3FF);
            let hi = (0xD800 + v / 0x400) as u16;
            let lo = (0xDC00 + v % 0x400) as u16;
            assert(units[0] == hi);
            assert(units[1] == lo);
            assert(0xD800 <= hi < 0xDC00);
            assert(0xDC00 <= lo < 0xE000);
            assert(units.len() >= 2);
            assert(units.skip(2) =~= rest_units);
            let rec = (0x10000 + (hi - 0xD800) * 0x400 + (lo - 0xDC00)) as u32;
            assert(hi - 0xD800 == v / 0x400);
            assert(lo - 0xDC00 == v % 0x400);
            assert(rec == cu);
            assert(rec as char == c);
            assert(seq![c] + cs.skip(1) =~= cs);
        }
    }
}

/// A witness for the first zero: nothing before `k` is zero, and `k` is
/// either a zero or the end.
pub proof fn lemma_first_zero_u8(bs: Seq<u8>, k: int)
    requires
        0 <= k <= bs.len(),
        forall|i: int| 0 <= i < k ==> bs[i] != 0,
        k < bs.len() ==> bs[k] == 0,
    ensures
        first_zero_u8(bs) == k,
    decreases k,
{
    if k == 0 {
    } else {
        assert(bs[0] != 0);
        lemma_first_zero_u8(bs.skip(1), k - 1);
    }
}

/// As [`lemma_first_zero_u8`], for 16-bit units.
pub proof fn lemma_first_zero_u16(us: Seq<u16>, k: int)
    requires
        0 <= k <= us.len(),
        forall|i: int| 0 <= i < k ==> us[i] != 0,
        k < us.len() ==> us[k] == 0,
    ensures
        first_zero_u16(us) == k,
    decreases k,
{
    if k == 0 {
    } else {
        assert(us[0] != 0);
        lemma_first_zero_u16(us.skip(1), k - 1);
    }
}

/// Relies on `String::from_utf8_lossy`: all-ASCII input is valid UTF-8 and
/// decodes to its own code points; any other input yields this crate's named
/// result [`utf8_lossy_of`], a function of the bytes alone.
#[verifier::external_body]
fn utf8_lossy(bytes: &Vec<u8>) -> (r: String)
    ensures
        r@ == narrow_chars_of(bytes@),
        !is_ascii_bytes(bytes@) ==> r@ == utf8_lossy_of(bytes@),
{
    String::from_utf8_lossy(bytes.as_slice()).into_owned()
}

/// Relies on `char::from_u32`: `Some` exactly on unicode scalar values, and
/// the character returned has the given code point.
#[verifier::external_body]
fn char_from_u32(v: u32) -> (r: Option<char>)
    ensures
        r is Some <==> (v < 0xD800 || (0xE000 <= v && v < 0x110000)),
        r matches Some(c) ==> c == v as char,
{
    char::from_u32(v)
}

/// Relies on `String`'s `FromIterator<char>`: collecting characters builds
/// the string of exactly those characters.
#[verifier::external_body]
fn chars_to_string(cs: &Vec<char>) -> (r: String)
    ensures
        r@ == cs@,
{
    cs.iter().collect()
}

/// The prefix of `bs` before its first zero byte.
fn cut_at_zero_u8(bs: &Vec<u8>) -> (r: Vec<u8>)
    ensures
        r@ == bs@.take(first_zero_u8(bs@)),
{
    let mut out: Vec<u8> = Vec::new();
    let mut i: usize = 0;
    while i < bs.len()
        invariant
            i <= bs@.len(),
            forall|t: int| 0 <= t < i ==> bs@[t] != 0,
            out@ == bs@.take(i as int),
        decreases bs@.len() - i,
    {
        let b = bs[i];
        if b == 0 {
            proof {
                lemma_first_zero_u8(bs@, i as int);
            }
            return out;
        }
        out.push(b);
        proof {
            assert(out@ =~= bs@.take(i + 1));
        }
        i = i + 1;
    }
    proof {
        lemma_first_zero_u8(bs@, bs@.len() as int);
    }
    out
}

/// The prefix of `us` before its first zero unit.
fn cut_at_zero_u16(us: &Vec<u16>) -> (r: Vec<u16>)
    ensures
        r@ == us@.take(first_zero_u16(us@)),
{
    let mut out: Vec<u16> = Vec::new();
    let mut i: usize = 0;
    while i < us.len()
        invariant
            i <= us@.len(),
            forall|t: int| 0 <= t < i ==> us@[t] != 0,
            out@ == us@.take(i as int),
        decreases us@.len() - i,
    {
        let u = us[i];
        if u == 0 {
            proof {
                lemma_first_zero_u16(us@, i as int);
            }
            return out;
        }
        out.push(u);
        proof {
            assert(out@ =~= us@.take(i + 1));
        }
        i = i + 1;
    }
    proof {
        lemma_first_zero_u16(us@, us@.len() as int);
    }
    out
}

/// The UTF-16 units of a string, in order.
fn utf16_units_of_str(s: &str) -> (r: Vec<u16>)
    ensures
        r@ == wide_units_of(s@),
{
    let n = s.unicode_len();
    let mut out: Vec<u16> = Vec::new();
    let mut i: usize = 0;
    proof {
        assert(s@.take(0) =~= Seq::<char>::empty());
    }
    while i < n
        invariant
            i <= n,
            n == s@.len(),
            out@ == wide_units_of(s@.take(i as int)),
        decreases n - i,
    {
        let c = s.get_char(i);
        let cu = c as u32;
        proof {
            lemma_wide_units_push(s@.take(i as int), c);
            assert(s@.take(i + 1) =~= s@.take(i as int).push(c));
        }
        if cu < 0x10000 {
            out.push(cu as u16);
            proof {
                assert(out@ =~= wide_units_of(s@.take(i as int)) + char_units(c));
            }
        } else {
            let v = cu - 0x10000;
            out.push((0xD800 + v / 0x400) as u16);
            out.push((0xDC00 + v % 0x400) as u16);
            proof {
                assert(out@ =~= wide_units_of(s@.take(i as int)) + char_units(c));
            }
        }
        i = i + 1;
    }
    proof {
        assert(s@.take(n as int) =~= s@);
    }
    out
}

/// Decode UTF-16 units into characters; fail on an unpaired surrogate.
fn utf16_decode(units: &Vec<u16>) -> (r: Result<Vec<char>, CodecError>)
    ensures
        (match chars_of_units(units@) {
            Some(cs) => r matches Ok(v) && v@ == cs,
            None => r == Err::<Vec<char>, CodecError>(CodecError::InvalidUtf16),
        }),
{
    let mut out: Vec<char> = Vec::new();
    let mut i: usize = 0;
    proof {
        assert(units@.skip(0) =~= units@);
        let inner = chars_of_units(units@);
        if inner is Some {
            assert(Seq::<char>::empty() + inner->0 =~= inner->0);
        }
    }
    while i < units.len()
        invariant
            i <= units@.len(),
            chars_of_units(units@) == (match chars_of_units(units@.skip(i as int)) {
                Some(cs) => Some(out@ + cs),
                None => None::<Seq<char>>,
            }),
        decreases units@.len() - i,
    {
        let ghost pre_out = out@;
        let ghost rem = units@.skip(i as int);
        let u = units[i];
        proof {
            assert(rem[0] == units@[i as int]);
        }
        if u < 0xD800 || u >= 0xE000 {
            let c = match char_from_u32(u as u32) {
                Some(c) => c,
                None => {
                    proof {
                        assert(false);
                    }
                    return Err(CodecError::InvalidUtf16);
                },
            };
            out.push(c);
            proof {
                assert(units@.skip(i + 1) =~= rem.skip(1));
                let inner = chars_of_units(rem.skip(1));
                if inner is Some {
                    assert(pre_out + (seq![u as char] + inner->0) =~= pre_out.push(c)
                        + inner->0);
                }
            }
            i = i + 1;
        } else if u < 0xDC00 {
            if i + 1 < units.len() {
                let u2 = units[i + 1];
                proof {
                    assert(rem[1] == units@[i + 1]);
                }
                if 0xDC00 <= u2 && u2 < 0xE000 {
                    let v: u32 = 0x10000 + ((u as u32) - 0xD800) * 0x400 + ((u2 as u32) - 0xDC00);
                    let c = match char_from_u32(v) {
                        Some(c) => c,
                        None => {
                            proof {
                                assert(false);
                            }
                            return Err(CodecError::InvalidUtf16);
                        },
                    };
                    out.push(c);
                    proof {
                        assert(units@.skip(i + 2) =~= rem.skip(2));
                        let inner = chars_of_units(rem.skip(2));
                        if inner is Some {
                            assert(pre_out + (seq![v as char] + inner->0) =~= pre_out.push(c)
                                + inner->0);
                        }
                    }
                    i = i + 2;
                } else {
                    return Err(CodecError::InvalidUtf16);
                }
            } else {
                return Err(CodecError::InvalidUtf16);
            }
        } else {
            return Err(CodecError::InvalidUtf16);
        }
    }
    proof {
        assert(units@.skip(units@.len() as int) =~= Seq::<u16>::empty());
        assert(out@ + Seq::<char>::empty() =~= out@);
    }
    Ok(out)
}

/// Decode a string payload whose signed length prefix `len` has already been
/// read: consume the declared payload and keep the characters before its
/// first zero unit.
pub fn read_string(len: i32, stream: &mut ByteReader) -> (r: Result<String, CodecError>)
    requires
        old(stream).wf(),
    ensures
        final(stream).wf(),
        final(stream).data@ == old(stream).data@,
        (match parse_str_payload(len as int, old(stream).remaining()) {
            Ok((cs, n)) => {
                &&& r matches Ok(s) && s@ == cs
                &&& final(stream).pos == old(stream).pos + n
            },
            Err(e) => {
                &&& r == Err::<String, CodecError>(e)
                &&& old(stream).pos <= final(stream).pos
            },
        }),
{
    let ghost orig = old(stream).remaining();
    if len >= 0 {
        let n = len as usize;
        match stream.read_bytes(n) {
            Ok(b) => {
                let cut = cut_at_zero_u8(&b);
                let s = utf8_lossy(&cut);
                proof {
                    assert(b@ == orig.take(n as int));
                }
                Ok(s)
            },
            Err(e) => Err(e),
        }
    } else {
        let count = (-(len as i64)) as usize;
        let mut units: Vec<u16> = Vec::new();
        let mut j: usize = 0;
        proof {
            assert(units_of_bytes(orig.take(0)) =~= units@);
        }
        while j < count
            invariant
                len < 0,
                count as int == -(len as int),
                j <= count,
                count <= 0x8000_0000,
                stream.wf(),
                old(stream).wf(),
                stream.data@ == old(stream).data@,
                orig == old(stream).remaining(),
                stream.pos == old(stream).pos + 2 * j,
                units@ == units_of_bytes(orig.take(2 * j)),
            decreases count - j,
        {
            let ghost pre = *stream;
            match stream.read_bytes(2) {
                Ok(b) => {
                    let u: u16 = (b[0] as u16) + 0x100 * (b[1] as u16);
                    units.push(u);
                    proof {
                        assert(b@ == pre.remaining().take(2));
                        assert(pre.remaining() =~= orig.skip(2 * j));
                        assert(b@[0] == orig[2 * j]);
                        assert(b@[1] == orig[2 * j + 1]);
                        assert(u == u16_of_pair(orig[2 * j], orig[2 * j + 1]));
                        let w1 = units_of_bytes(orig.take(2 * j));
                        let w2 = units_of_bytes(orig.take(2 * (j + 1)));
                        assert forall|t: int| 0 <= t < w2.len() implies w2[t] == w1.push(u)[t] by {
                            assert(orig.take(2 * (j + 1) as int)[2 * t] == orig[2 * t]);
                            assert(orig.take(2 * (j + 1) as int)[2 * t + 1] == orig[2 * t + 1]);
                            if t < j {
                                assert(orig.take(2 * j as int)[2 * t] == orig[2 * t]);
                                assert(orig.take(2 * j as int)[2 * t + 1] == orig[2 * t + 1]);
                            }
                        }
                        assert(w2 =~= w1.push(u));
                    }
                    j = j + 1;
                },
                Err(e) => {
                    proof {
                        assert(pre.remaining() =~= orig.skip(2 * j));
                        assert(pre.remaining().len() < 2);
                        assert(orig.len() < 2 * count);
                        assert(parse_str_payload(len as int, orig) == Err::<
                            (Seq<char>, nat),
                            CodecError,
                        >(CodecError::Io));
                    }
                    return Err(CodecError::Io);
                },
            }
        }
        proof {
            assert(2 * (count as int) <= orig.len());
        }
        let cut = cut_at_zero_u16(&units);
        match utf16_decode(&cut) {
            Ok(v) => {
                let s = chars_to_string(&v);
                Ok(s)
            },
            Err(e) => Err(e),
        }
    }
}

/// Encode a string: prefix `0` for the empty string; the compact single-byte
/// path with prefix `length + 1` whenever every character is single-byte
/// safe; otherwise the wide path with prefix `-(units + 1)`.
pub fn write_string(stream: &mut ByteWriter, value: &str) -> (r: Result<(), CodecError>)
    requires
        str_serializable(value@),
    ensures
        r is Ok,
        final(stream).data@ == old(stream).data@ + str_enc(value@),
{
    let n = value.unicode_len();
    if n == 0 {
        let bs = u32_to_le_bytes(0);
        stream.write_bytes(&bs);
        Ok(())
    } else if value.is_ascii() {
        let prefix = u32_to_le_bytes((n as u32) + 1);
        stream.write_bytes(&prefix);
        let bytes = value.as_bytes_vec();
        proof {
            vstd::string::is_ascii_spec_bytes(value);
            assert(bytes@ =~= ascii_bytes_of(value@));
        }
        stream.write_bytes(&bytes);
        stream.write_byte(0);
        proof {
            assert(((old(stream).data@ + spec_u32_to_le_bytes((n + 1) as u32)) + ascii_bytes_of(
                value@,
            )).push(0u8) =~= old(stream).data@ + (spec_u32_to_le_bytes((n + 1) as u32)
                + ascii_bytes_of(value@) + seq![0u8]));
        }
        Ok(())
    } else {
        let units = utf16_units_of_str(value);
        proof {
            lemma_wide_units_len(value@);
        }
        let ucount = units.len();
        let p: i32 = -((ucount as i32) + 1);
        let prefix = u32_to_le_bytes(i32_to_u32(p));
        stream.write_bytes(&prefix);
        let ghost mid = stream.data@;
        let mut j: usize = 0;
        proof {
            assert(bytes_of_units(units@.take(0)) =~= Seq::<u8>::empty());
            assert(mid + Seq::<u8>::empty() =~= mid);
        }
        while j < ucount
            invariant
                j <= ucount,
                ucount == units@.len(),
                stream.data@ == mid + bytes_of_units(units@.take(j as int)),
            decreases ucount - j,
        {
            let u = units[j];
            stream.write_byte((u % 0x100) as u8);
            stream.write_byte((u / 0x100) as u8);
            proof {
                lemma_bytes_of_units_push(units@.take(j as int), units@[j as int]);
                assert(units@.take(j + 1) =~= units@.take(j as int).push(units@[j as int]));
                assert(((mid + bytes_of_units(units@.take(j as int))).push((u % 0x100) as u8)).push(
                    (u / 0x100) as u8,
                ) =~= mid + bytes_of_units(units@.take(j + 1)));
            }
            j = j + 1;
        }
        stream.write_byte(0);
        stream.write_byte(0);
        proof {
            assert(units@.take(ucount as int) =~= units@);
            assert(((mid + bytes_of_units(units@)).push(0u8)).push(0u8) =~= old(stream).data@ + (
            spec_u32_to_le_bytes(u32_of_i32((-(units@.len() + 1)) as i32)) + bytes_of_units(units@)
                + seq![0u8, 0u8]));
        }
        Ok(())
    }
}

impl WireParse for String {
    open spec fn parse(bytes: Seq<u8>) -> Result<(Seq<char>, nat), CodecError> {
        if bytes.len() < 4 {
            Err(CodecError::Io)
        } else {
            let n = i32_of_u32(spec_u32_from_le_bytes(bytes.take(4)));
            match parse_str_payload(n as int, bytes.skip(4)) {
                Ok((cs, k)) => Ok((cs, (4 + k) as nat)),
                Err(e) => Err(e),
            }
        }
    }
}

impl Readable for String {
    fn de(stream: &mut ByteReader) -> (r: Result<String, CodecError>) {
        let ghost first = *stream;
        let n = match i32::de(stream) {
            Ok(v) => v,
            Err(e) => {
                return Err(e);
            },
        };
        proof {
            assert(stream.remaining() =~= first.remaining().skip(4));
        }
        read_string(n, stream)
    }
}

impl WireEnc for String {
    open spec fn enc(m: Seq<char>) -> Seq<u8> {
        str_enc(m)
    }

    open spec fn serializable(m: Seq<char>) -> bool {
        str_serializable(m)
    }
}

impl Writeable for String {
    fn ser(&self, stream: &mut ByteWriter) -> (r: Result<(), CodecError>) {
        write_string(stream, self.as_str())
    }
}

impl<'a> WireEnc for &'a str {
    open spec fn enc(m: Seq<char>) -> Seq<u8> {
        str_enc(m)
    }

    open spec fn serializable(m: Seq<char>) -> bool {
        str_serializable(m)
    }
}

impl<'a> Writeable for &'a str {
    fn ser(&self, stream: &mut ByteWriter) -> (r: Result<(), CodecError>) {
        proof {
            assert(self.deep_view() == (*self)@);
        }
        write_string(stream, *self)
    }
}

} // verus!
