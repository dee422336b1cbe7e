//! The parts that every record is made of: little-endian integers, and byte
//! sequences and strings behind their length.

use vstd::prelude::*;
use vstd::slice::{slice_subrange, slice_to_vec};
use vstd::utf8::{
    decode_utf8, encode_utf8, encode_utf8_decode_utf8, encode_utf8_valid_utf8, valid_utf8,
};

verus! {

/// Why a sequence of bytes is no record.
#[derive(Clone, Copy, Debug, PartialEq, Eq, Structural)]
pub enum CodecError {
    /// The bytes end before the record does.
    UnexpectedEnd,
    /// The ordinal of a frame's kind is none of the five.
    UnknownKind,
    /// The bytes of a string are not UTF-8.
    InvalidUtf8,
}

/// The four bytes of `value`, least significant first.
pub open spec fn u32_le(value: u32) -> Seq<u8> {
    seq![
        (value % 0x100) as u8,
        (value / 0x100 % 0x100) as u8,
        (value / 0x1_0000 % 0x100) as u8,
        (value / 0x100_0000) as u8,
    ]
}

/// The number whose little-endian bytes `bytes` starts with.
pub open spec fn u32_from_le(bytes: Seq<u8>) -> u32
    recommends
        bytes.len() >= 4,
{
    (bytes[0] as int + 0x100 * (bytes[1] as int) + 0x1_0000 * (bytes[2] as int) + 0x100_0000 * (
    bytes[3] as int)) as u32
}

/// The eight bytes of `value`, least significant first.
pub open spec fn u64_le(value: u64) -> Seq<u8> {
    seq![
        (value % 0x100) as u8,
        (value / 0x100 % 0x100) as u8,
        (value / 0x1_0000 % 0x100) as u8,
        (value / 0x100_0000 % 0x100) as u8,
        (value / 0x1_0000_0000 % 0x100) as u8,
        (value / 0x100_0000_0000 % 0x100) as u8,
        (value / 0x1_0000_0000_0000 % 0x100) as u8,
        (value / 0x100_0000_0000_0000) as u8,
    ]
}

/// The number whose little-endian bytes `bytes` starts with.
pub open spec fn u64_from_le(bytes: Seq<u8>) -> u64
    recommends
        bytes.len() >= 8,
{
    (bytes[0] as int + 0x100 * (bytes[1] as int) + 0x1_0000 * (bytes[2] as int) + 0x100_0000 * (
    bytes[3] as int) + 0x1_0000_0000 * (bytes[4] as int) + 0x100_0000_0000 * (bytes[5] as int)
        + 0x1_0000_0000_0000 * (bytes[6] as int) + 0x100_0000_0000_0000 * (bytes[7] as int)) as u64
}

/// Reading back what was written gives the number again, whatever follows it.
pub proof fn lemma_u32_round_trip(value: u32, rest: Seq<u8>)
    ensures
        u32_le(value).len() == 4,
        u32_from_le(u32_le(value) + rest) == value,
        (u32_le(value) + rest).skip(4) == rest,
{
    let all = u32_le(value) + rest;
    assert(all[0] == u32_le(value)[0]);
    assert(all[1] == u32_le(value)[1]);
    assert(all[2] == u32_le(value)[2]);
    assert(all[3] == u32_le(value)[3]);
    assert(all.skip(4) =~= rest);
}

/// Reading back what was written gives the number again, whatever follows it.
pub proof fn lemma_u64_round_trip(value: u64, rest: Seq<u8>)
    ensures
        u64_le(value).len() == 8,
        u64_from_le(u64_le(value) + rest) == value,
        (u64_le(value) + rest).skip(8) == rest,
{
    let own = u64_le(value);
    let all = own + rest;
    assert(all[0] == own[0]);
    assert(all[1] == own[1]);
    assert(all[2] == own[2]);
    assert(all[3] == own[3]);
    assert(all[4] == own[4]);
    assert(all[5] == own[5]);
    assert(all[6] == own[6]);
    assert(all[7] == own[7]);
    assert(value == (value % 0x100) + 0x100 * (value / 0x100 % 0x100) + 0x1_0000 * (value
        / 0x1_0000 % 0x100) + 0x100_0000 * (value / 0x100_0000 % 0x100) + 0x1_0000_0000 * (value
        / 0x1_0000_0000 % 0x100) + 0x100_0000_0000 * (value / 0x100_0000_0000 % 0x100)
        + 0x1_0000_0000_0000 * (value / 0x1_0000_0000_0000 % 0x100) + 0x100_0000_0000_0000 * (
    value / 0x100_0000_0000_0000)) by (bit_vector);
    assert(value / 0x100_0000_0000_0000 < 0x100) by (bit_vector);
    assert(all.skip(8) =~= rest);
}

/// Appends the four little-endian bytes of `value` to `out`.
pub fn put_u32(out: &mut Vec<u8>, value: u32)
    ensures
        final(out)@ == old(out)@ + u32_le(value),
{
    out.push((value % 0x100) as u8);
    out.push((value / 0x100 % 0x100) as u8);
    out.push((value / 0x1_0000 % 0x100) as u8);
    out.push((value / 0x100_0000) as u8);
    assert(out@ =~= old(out)@ + u32_le(value));
}

/// Appends the eight little-endian bytes of `value` to `out`.
pub fn put_u64(out: &mut Vec<u8>, value: u64)
    ensures
        final(out)@ == old(out)@ + u64_le(value),
{
    out.push((value % 0x100) as u8);
    out.push((value / 0x100 % 0x100) as u8);
    out.push((value / 0x1_0000 % 0x100) as u8);
    out.push((value / 0x100_0000 % 0x100) as u8);
    out.push((value / 0x1_0000_0000 % 0x100) as u8);
    out.push((value / 0x100_0000_0000 % 0x100) as u8);
    out.push((value / 0x1_0000_0000_0000 % 0x100) as u8);
    out.push((value / 0x100_0000_0000_0000) as u8);
    assert(out@ =~= old(out)@ + u64_le(value));
}

/// Reads the little-endian number in the four bytes from `at` on.
pub fn get_u32(bytes: &[u8], at: usize) -> (value: u32)
    requires
        at + 4 <= bytes@.len(),
    ensures
        value == u32_from_le(bytes@.skip(at as int)),
{
    let b0: u32 = bytes[at] as u32;
    let b1: u32 = bytes[at + 1] as u32;
    let b2: u32 = bytes[at + 2] as u32;
    let b3: u32 = bytes[at + 3] as u32;
    b0 + 0x100 * b1 + 0x1_0000 * b2 + 0x100_0000 * b3
}

/// Reads the little-endian number in the eight bytes from `at` on.
pub fn get_u64(bytes: &[u8], at: usize) -> (value: u64)
    requires
        at + 8 <= bytes@.len(),
    ensures
        value == u64_from_le(bytes@.skip(at as int)),
{
    let b0: u64 = bytes[at] as u64;
    let b1: u64 = bytes[at + 1] as u64;
    let b2: u64 = bytes[at + 2] as u64;
    let b3: u64 = bytes[at + 3] as u64;
    let b4: u64 = bytes[at + 4] as u64;
    let b5: u64 = bytes[at + 5] as u64;
    let b6: u64 = bytes[at + 6] as u64;
    let b7: u64 = bytes[at + 7] as u64;
    b0 + 0x100 * b1 + 0x1_0000 * b2 + 0x100_0000 * b3 + 0x1_0000_0000 * b4 + 0x100_0000_0000 * b5
        + 0x1_0000_0000_0000 * b6 + 0x100_0000_0000_0000 * b7
}

/// `body` behind its length.
pub open spec fn length_prefixed(body: Seq<u8>) -> Seq<u8> {
    u64_le(body.len() as u64) + body
}

/// The byte sequence that `bytes` starts with, without its length.
pub open spec fn take_prefixed(bytes: Seq<u8>) -> Result<Seq<u8>, CodecError> {
    if bytes.len() < 8 || bytes.len() - 8 < u64_from_le(bytes) {
        Err(CodecError::UnexpectedEnd)
    } else {
        Ok(bytes.subrange(8, 8 + u64_from_le(bytes)))
    }
}

/// A string on the wire: its UTF-8 bytes behind their length.
pub open spec fn encode_text(text: Seq<char>) -> Seq<u8> {
    length_prefixed(encode_utf8(text))
}

/// The string that `bytes` starts with.
pub open spec fn decode_text(bytes: Seq<u8>) -> Result<Seq<char>, CodecError> {
    match take_prefixed(bytes) {
        Err(e) => Err(e),
        Ok(body) => if valid_utf8(body) {
            Ok(decode_utf8(body))
        } else {
            Err(CodecError::InvalidUtf8)
        },
    }
}

/// What follows its own length is read back whole, whatever comes after it.
pub proof fn lemma_prefixed_round_trip(body: Seq<u8>, rest: Seq<u8>)
    requires
        body.len() <= u64::MAX,
    ensures
        take_prefixed(length_prefixed(body) + rest) == Ok::<Seq<u8>, CodecError>(body),
{
    let all = length_prefixed(body) + rest;
    lemma_u64_round_trip(body.len() as u64, body + rest);
    assert(all =~= u64_le(body.len() as u64) + (body + rest));
    assert(all.subrange(8, 8 + body.len() as int) =~= body);
}

/// A string is read back as it was written, whatever comes after it.
pub proof fn lemma_text_round_trip(text: Seq<char>, rest: Seq<u8>)
    requires
        encode_utf8(text).len() <= u64::MAX,
    ensures
        decode_text(encode_text(text) + rest) == Ok::<Seq<char>, CodecError>(text),
{
    lemma_prefixed_round_trip(encode_utf8(text), rest);
    encode_utf8_valid_utf8(text);
    encode_utf8_decode_utf8(text);
}

/// Appends `body` to `out`, behind its length.
pub fn put_prefixed(out: &mut Vec<u8>, body: &[u8])
    ensures
        final(out)@ == old(out)@ + length_prefixed(body@),
{
    put_u64(out, body.len() as u64);
    let mut copy = slice_to_vec(body);
    out.append(&mut copy);
    assert(out@ =~= old(out)@ + length_prefixed(body@));
}

/// Reads the byte sequence that starts at `at`.
pub fn get_prefixed(bytes: &[u8], at: usize) -> (r: Result<Vec<u8>, CodecError>)
    requires
        at <= bytes@.len(),
    ensures
        r matches Ok(body) ==> take_prefixed(bytes@.skip(at as int)) == Ok::<Seq<u8>, CodecError>(
            body@,
        ),
        r matches Err(e) ==> take_prefixed(bytes@.skip(at as int)) == Err::<Seq<u8>, CodecError>(e),
{
    let left = bytes.len() - at;
    if left < 8 {
        return Err(CodecError::UnexpectedEnd);
    }
    let length = get_u64(bytes, at);
    if length > (left - 8) as u64 {
        return Err(CodecError::UnexpectedEnd);
    }
    let start = at + 8;
    let end = start + length as usize;
    let body = slice_to_vec(slice_subrange(bytes, start, end));
    assert(body@ =~= bytes@.skip(at as int).subrange(8, 8 + length));
    Ok(body)
}

/// The error of `String::from_utf8` of std. Nothing is said of what it holds.
#[verifier::external_type_specification]
#[verifier::external_body]
pub struct ExFromUtf8Error(std::string::FromUtf8Error);

/// `String::from_utf8` of std: the string that `bytes` spell in UTF-8, and an
/// error where they are not UTF-8.
#[verifier::external_body]
fn string_from_utf8(bytes: Vec<u8>) -> (text: Result<String, std::string::FromUtf8Error>)
    ensures
        text is Ok <==> valid_utf8(bytes@),
        text matches Ok(s) ==> s@ == decode_utf8(bytes@),
{
    String::from_utf8(bytes)
}

/// Reads the string that starts at `at`.
pub fn get_text(bytes: &[u8], at: usize) -> (r: Result<String, CodecError>)
    requires
        at <= bytes@.len(),
    ensures
        r matches Ok(text) ==> decode_text(bytes@.skip(at as int)) == Ok::<Seq<char>, CodecError>(
            text@,
        ),
        r matches Err(e) ==> decode_text(bytes@.skip(at as int)) == Err::<Seq<char>, CodecError>(e),
{
    match get_prefixed(bytes, at) {
        Err(e) => Err(e),
        Ok(body) => match string_from_utf8(body) {
            Ok(text) => Ok(text),
            Err(_) => Err(CodecError::InvalidUtf8),
        },
    }
}

} // verus!
