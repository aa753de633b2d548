//! Byte-level primitives of the wire codec.
//!
//! Every field of the protocol is laid out from these pieces: fixed-width
//! little-endian unsigned integers, single-byte booleans whose only legal
//! values are 0 and 1, and nul-terminated UTF-8 strings.  Each primitive has
//! a specification-level encoder (`enc_*`), a specification-level decoder
//! (`sdec_*`) that says exactly which bytes succeed and which error every
//! other buffer produces, and executable functions proved to agree with them.

use vstd::prelude::*;
use vstd::utf8::*;

verus! {

/// Errors of the wire codec and of the packet layer built on it.
#[derive(Clone, Copy, Debug, PartialEq, Eq, Structural)]
pub enum Error {
    /// A failure reported through the generic error channel.
    Message,
    /// Bytes remained in the buffer after the schema consumed every field.
    PacketTooLong,
    /// The buffer ended before a declared field could be read in full.
    PacketTooShort,
    /// A boolean byte other than 0 or 1, or an enum code outside its set.
    ValueOutOfRange,
    /// A field type the encoding deliberately excludes, or an unmapped tag.
    NotSupported,
    /// The bytes before a string terminator were not valid UTF-8.
    InvalidString,
    /// A sequence appeared without a preceding declared-length field.
    InvalidSeq,
    /// The output buffer refused the encoded bytes.
    WriteFailure,
    /// A cross-field constraint of a structurally well-formed packet failed.
    ValidationError,
}

// ------------------------------------------------------------------
// Specification-level encoders
// ------------------------------------------------------------------

pub open spec fn enc_u8(v: u8) -> Seq<u8> {
    seq![v]
}

pub open spec fn enc_u16_le(v: u16) -> Seq<u8> {
    seq![(v % 256) as u8, (v / 256) as u8]
}

pub open spec fn enc_u32_le(v: u32) -> Seq<u8> {
    seq![
        (v % 256) as u8,
        ((v / 256) % 256) as u8,
        ((v / 65536) % 256) as u8,
        (v / 16777216) as u8,
    ]
}

pub open spec fn enc_u64_le(v: u64) -> Seq<u8> {
    enc_u32_le((v % 0x100000000) as u32) + enc_u32_le((v / 0x100000000) as u32)
}

pub open spec fn enc_bool(v: bool) -> Seq<u8> {
    seq![if v { 1u8 } else { 0u8 }]
}

/// A string on the wire is its UTF-8 bytes followed by one zero byte.
pub open spec fn enc_str(s: Seq<char>) -> Seq<u8> {
    encode_utf8(s) + seq![0u8]
}

// ------------------------------------------------------------------
// Specification-level decoders
// ------------------------------------------------------------------

pub open spec fn u16_from_le(b0: u8, b1: u8) -> u16 {
    (b0 + b1 * 256) as u16
}

pub open spec fn u32_from_le(b0: u8, b1: u8, b2: u8, b3: u8) -> u32 {
    (b0 + b1 * 256 + b2 * 65536 + b3 * 16777216) as u32
}

pub open spec fn u64_from_le(lo: u32, hi: u32) -> u64 {
    (lo + hi * 0x100000000) as u64
}

pub open spec fn sdec_u8(b: Seq<u8>, pos: int) -> Result<(u8, int), Error> {
    if 0 <= pos && pos + 1 <= b.len() {
        Ok((b[pos], pos + 1))
    } else {
        Err(Error::PacketTooShort)
    }
}

pub open spec fn sdec_u16(b: Seq<u8>, pos: int) -> Result<(u16, int), Error> {
    if 0 <= pos && pos + 2 <= b.len() {
        Ok((u16_from_le(b[pos], b[pos + 1]), pos + 2))
    } else {
        Err(Error::PacketTooShort)
    }
}

pub open spec fn sdec_u32(b: Seq<u8>, pos: int) -> Result<(u32, int), Error> {
    if 0 <= pos && pos + 4 <= b.len() {
        Ok((u32_from_le(b[pos], b[pos + 1], b[pos + 2], b[pos + 3]), pos + 4))
    } else {
        Err(Error::PacketTooShort)
    }
}

pub open spec fn sdec_u64(b: Seq<u8>, pos: int) -> Result<(u64, int), Error> {
    if 0 <= pos && pos + 8 <= b.len() {
        Ok(
            (
                u64_from_le(
                    u32_from_le(b[pos], b[pos + 1], b[pos + 2], b[pos + 3]),
                    u32_from_le(b[pos + 4], b[pos + 5], b[pos + 6], b[pos + 7]),
                ),
                pos + 8,
            ),
        )
    } else {
        Err(Error::PacketTooShort)
    }
}

pub open spec fn sdec_bool(b: Seq<u8>, pos: int) -> Result<(bool, int), Error> {
    if 0 <= pos && pos + 1 <= b.len() {
        if b[pos] == 0 {
            Ok((false, pos + 1))
        } else if b[pos] == 1 {
            Ok((true, pos + 1))
        } else {
            Err(Error::ValueOutOfRange)
        }
    } else {
        Err(Error::PacketTooShort)
    }
}

/// Position of the first zero byte at or after `pos`, if any.
pub open spec fn find_nul(b: Seq<u8>, pos: int) -> Option<int>
    recommends
        0 <= pos <= b.len(),
    decreases b.len() - pos,
    when 0 <= pos <= b.len()
{
    if pos >= b.len() {
        None
    } else if b[pos] == 0 {
        Some(pos)
    } else {
        find_nul(b, pos + 1)
    }
}

/// String decoding scans for the first zero byte; the bytes before it must
/// be valid UTF-8.  A zero byte found immediately decodes the empty string.
pub open spec fn sdec_str(b: Seq<u8>, pos: int) -> Result<(Seq<char>, int), Error> {
    match find_nul(b, pos) {
        Option::None => Err(Error::PacketTooShort),
        Option::Some(z) => {
            let content = b.subrange(pos, z);
            if valid_utf8(content) {
                Ok((decode_utf8(content), z + 1))
            } else {
                Err(Error::InvalidString)
            }
        },
    }
}

// ------------------------------------------------------------------
// Executable decoders
// ------------------------------------------------------------------

pub fn decode_u8(buf: &[u8], pos: usize) -> (r: Result<(u8, usize), Error>)
    requires
        pos <= buf@.len(),
    ensures
        (match r {
            Ok(v) => sdec_u8(buf@, pos as int) == Ok::<(u8, int), Error>((v.0, v.1 as int))
                && pos <= v.1 <= buf@.len(),
            Err(e) => sdec_u8(buf@, pos as int) == Err::<(u8, int), Error>(e),
        }),
{
    if buf.len() - pos >= 1 {
        Ok((buf[pos], pos + 1))
    } else {
        Err(Error::PacketTooShort)
    }
}

pub fn decode_u16(buf: &[u8], pos: usize) -> (r: Result<(u16, usize), Error>)
    requires
        pos <= buf@.len(),
    ensures
        (match r {
            Ok(v) => sdec_u16(buf@, pos as int) == Ok::<(u16, int), Error>((v.0, v.1 as int))
                && pos <= v.1 <= buf@.len(),
            Err(e) => sdec_u16(buf@, pos as int) == Err::<(u16, int), Error>(e),
        }),
{
    if buf.len() - pos >= 2 {
        let v: u16 = buf[pos] as u16 + buf[pos + 1] as u16 * 256;
        Ok((v, pos + 2))
    } else {
        Err(Error::PacketTooShort)
    }
}

pub fn decode_u32(buf: &[u8], pos: usize) -> (r: Result<(u32, usize), Error>)
    requires
        pos <= buf@.len(),
    ensures
        (match r {
            Ok(v) => sdec_u32(buf@, pos as int) == Ok::<(u32, int), Error>((v.0, v.1 as int))
                && pos <= v.1 <= buf@.len(),
            Err(e) => sdec_u32(buf@, pos as int) == Err::<(u32, int), Error>(e),
        }),
{
    if buf.len() - pos >= 4 {
        let v: u32 = buf[pos] as u32 + buf[pos + 1] as u32 * 256 + buf[pos + 2] as u32 * 65536
            + buf[pos + 3] as u32 * 16777216;
        Ok((v, pos + 4))
    } else {
        Err(Error::PacketTooShort)
    }
}

pub fn decode_u64(buf: &[u8], pos: usize) -> (r: Result<(u64, usize), Error>)
    requires
        pos <= buf@.len(),
    ensures
        (match r {
            Ok(v) => sdec_u64(buf@, pos as int) == Ok::<(u64, int), Error>((v.0, v.1 as int))
                && pos <= v.1 <= buf@.len(),
            Err(e) => sdec_u64(buf@, pos as int) == Err::<(u64, int), Error>(e),
        }),
{
    if buf.len() - pos >= 8 {
        let lo: u32 = buf[pos] as u32 + buf[pos + 1] as u32 * 256 + buf[pos + 2] as u32 * 65536
            + buf[pos + 3] as u32 * 16777216;
        let hi: u32 = buf[pos + 4] as u32 + buf[pos + 5] as u32 * 256 + buf[pos + 6] as u32
            * 65536 + buf[pos + 7] as u32 * 16777216;
        let v: u64 = lo as u64 + hi as u64 * 0x100000000;
        Ok((v, pos + 8))
    } else {
        Err(Error::PacketTooShort)
    }
}

pub fn decode_bool(buf: &[u8], pos: usize) -> (r: Result<(bool, usize), Error>)
    requires
        pos <= buf@.len(),
    ensures
        (match r {
            Ok(v) => sdec_bool(buf@, pos as int) == Ok::<(bool, int), Error>((v.0, v.1 as int))
                && pos <= v.1 <= buf@.len(),
            Err(e) => sdec_bool(buf@, pos as int) == Err::<(bool, int), Error>(e),
        }),
{
    if buf.len() - pos >= 1 {
        match buf[pos] {
            0 => Ok((false, pos + 1)),
            1 => Ok((true, pos + 1)),
            _ => Err(Error::ValueOutOfRange),
        }
    } else {
        Err(Error::PacketTooShort)
    }
}

/// Relies on `String::from_utf8`: it succeeds exactly on valid UTF-8 input
/// and returns the character sequence those bytes encode.
#[verifier::external_body]
fn utf8_to_string(bytes: Vec<u8>) -> (r: Option<String>)
    ensures
        r is Some <==> valid_utf8(bytes@),
        r matches Some(s) ==> s@ == decode_utf8(bytes@),
{
    String::from_utf8(bytes).ok()
}

proof fn lemma_find_nul_skip(b: Seq<u8>, pos: int, i: int)
    requires
        0 <= pos <= i <= b.len(),
        forall|j: int| pos <= j < i ==> b[j] != 0,
    ensures
        find_nul(b, pos) == find_nul(b, i),
    decreases i - pos,
{
    if pos < i {
        lemma_find_nul_skip(b, pos + 1, i);
    }
}

/// Scans forward from `pos` for the first zero byte.
fn find_terminator(buf: &[u8], pos: usize) -> (r: Option<usize>)
    requires
        pos <= buf@.len(),
    ensures
        (match r {
            Some(z) => find_nul(buf@, pos as int) == Some(z as int) && pos <= z < buf@.len(),
            None => find_nul(buf@, pos as int) is None,
        }),
{
    let mut i = pos;
    while i < buf.len() && buf[i] != 0
        invariant
            pos <= i <= buf@.len(),
            forall|j: int| pos <= j < i ==> buf@[j] != 0,
        decreases buf@.len() - i,
    {
        i = i + 1;
    }
    proof {
        lemma_find_nul_skip(buf@, pos as int, i as int);
    }
    if i < buf.len() {
        Some(i)
    } else {
        None
    }
}

pub fn decode_string(buf: &[u8], pos: usize) -> (r: Result<(String, usize), Error>)
    requires
        pos <= buf@.len(),
    ensures
        (match r {
            Ok(v) => sdec_str(buf@, pos as int) matches Ok(s) && s.0 == v.0@ && s.1 == v.1 as int
                && pos <= v.1 <= buf@.len(),
            Err(e) => sdec_str(buf@, pos as int) == Err::<(Seq<char>, int), Error>(e),
        }),
{
    let n = buf.len();
    let found = find_terminator(buf, pos);
    let i = match found {
        Option::Some(z) => z,
        Option::None => {
            return Err(Error::PacketTooShort);
        },
    };
    assert(i < n);
    let content = vstd::slice::slice_subrange(buf, pos, i);
    let owned = vstd::slice::slice_to_vec(content);
    match utf8_to_string(owned) {
        Option::Some(s) => Ok((s, i + 1)),
        Option::None => Err(Error::InvalidString),
    }
}

// ------------------------------------------------------------------
// Executable encoders
// ------------------------------------------------------------------

pub fn encode_u8(out: &mut Vec<u8>, v: u8)
    ensures
        final(out)@ == old(out)@ + enc_u8(v),
{
    out.push(v);
    assert(final(out)@ =~= old(out)@ + enc_u8(v));
}

pub fn encode_u16(out: &mut Vec<u8>, v: u16)
    ensures
        final(out)@ == old(out)@ + enc_u16_le(v),
{
    out.push((v % 256) as u8);
    out.push((v / 256) as u8);
    assert(final(out)@ =~= old(out)@ + enc_u16_le(v));
}

pub fn encode_u32(out: &mut Vec<u8>, v: u32)
    ensures
        final(out)@ == old(out)@ + enc_u32_le(v),
{
    out.push((v % 256) as u8);
    out.push((v / 256 % 256) as u8);
    out.push((v / 65536 % 256) as u8);
    out.push((v / 16777216) as u8);
    assert(final(out)@ =~= old(out)@ + enc_u32_le(v));
}

pub fn encode_u64(out: &mut Vec<u8>, v: u64)
    ensures
        final(out)@ == old(out)@ + enc_u64_le(v),
{
    encode_u32(out, (v % 0x100000000) as u32);
    encode_u32(out, (v / 0x100000000) as u32);
    assert(final(out)@ =~= old(out)@ + enc_u64_le(v));
}

pub fn encode_bool(out: &mut Vec<u8>, v: bool)
    ensures
        final(out)@ == old(out)@ + enc_bool(v),
{
    out.push(if v { 1 } else { 0 });
    assert(final(out)@ =~= old(out)@ + enc_bool(v));
}

/// Appends every byte of `src` to `out`, in order.
pub fn append_bytes(out: &mut Vec<u8>, src: &[u8])
    ensures
        final(out)@ == old(out)@ + src@,
{
    let mut k: usize = 0;
    while k < src.len()
        invariant
            k <= src@.len(),
            out@ == old(out)@ + src@.subrange(0, k as int),
        decreases src@.len() - k,
    {
        out.push(src[k]);
        k = k + 1;
        assert(out@ =~= old(out)@ + src@.subrange(0, k as int));
    }
    assert(src@.subrange(0, src@.len() as int) =~= src@);
}

/// Appends the UTF-8 bytes of `s` followed by the single zero terminator.
pub fn encode_str(out: &mut Vec<u8>, s: &str)
    ensures
        final(out)@ == old(out)@ + enc_str(s@),
{
    let bytes = vstd::string::StrSliceExecFns::as_bytes_vec(s);
    let mut k: usize = 0;
    while k < bytes.len()
        invariant
            k <= bytes@.len(),
            bytes@ == encode_utf8(s@),
            out@ == old(out)@ + bytes@.subrange(0, k as int),
        decreases bytes@.len() - k,
    {
        out.push(bytes[k]);
        k = k + 1;
        assert(out@ =~= old(out)@ + bytes@.subrange(0, k as int));
    }
    assert(bytes@.subrange(0, bytes@.len() as int) =~= bytes@);
    out.push(0);
    assert(final(out)@ =~= old(out)@ + enc_str(s@));
}

} // verus!
