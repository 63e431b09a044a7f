//! Decoding of single UTF-8 codepoints from a byte slice.
//!
//! The runtime's `Dot` and character-class matchers read one codepoint at a
//! time from the unconsumed input.  Decoding here is deliberately lenient:
//! it accepts any byte sequence whose leading and continuation bytes follow
//! the UTF-8 bit patterns and whose value is a Unicode scalar, without
//! rejecting overlong encodings.  Callers that meet a non-decodable byte
//! fall back to treating it as a raw octet.
use vstd::prelude::*;

verus! {

broadcast use vstd::utf8::utf8_byte_ranges_bitwise;

/// True when `byte` on its own encodes an ASCII character.
pub open spec fn spec_isAscii(byte: u8) -> bool {
    byte < 0x80
}

/// How many continuation bytes follow a lead byte of this shape, or `None`
/// when the byte is not a valid UTF-8 lead byte.
pub open spec fn spec_bytesFollowing(byte: u8) -> Option<usize> {
    if vstd::utf8::is_leading_byte_width_1(byte) {
        Some(0usize)
    } else if vstd::utf8::is_leading_byte_width_2(byte) {
        Some(1usize)
    } else if vstd::utf8::is_leading_byte_width_3(byte) {
        Some(2usize)
    } else if vstd::utf8::is_leading_byte_width_4(byte) {
        Some(3usize)
    } else {
        None
    }
}

/// The codepoint decoded from the front of `bytes`, or `None` when no
/// well-formed lead/continuation pattern starts there or the decoded value
/// is not a Unicode scalar.  Overlong encodings are accepted.
pub open spec fn spec_readCodepoint(bytes: Seq<u8>) -> Option<char> {
    if vstd::utf8::valid_leading_and_continuation_bytes_first_codepoint(bytes) {
        let cp = vstd::utf8::decode_first_codepoint(bytes);
        if vstd::utf8::not_surrogate(cp) && cp <= 0x10FFFF {
            Some(cp as char)
        } else {
            None
        }
    } else {
        None
    }
}

/// The byte length of the codepoint at the front of `bytes`, assuming
/// `spec_readCodepoint` succeeds there.
pub open spec fn spec_codepointLen(bytes: Seq<u8>) -> int
    recommends
        spec_readCodepoint(bytes) is Some,
{
    vstd::utf8::length_of_first_codepoint(bytes)
}

/// The `char` of a codepoint: `Some` exactly on Unicode scalar values,
/// that is outside the surrogate range and at most 0x10FFFF.
pub open spec fn spec_charOfScalar(code: u32) -> Option<char> {
    if vstd::utf8::not_surrogate(code) && code <= 0x10FFFF {
        Some(code as char)
    } else {
        None
    }
}

/// Relies on `char::from_u32` from std: it returns `Some` exactly when the
/// argument is a Unicode scalar value (not a surrogate and at most
/// 0x10FFFF), and the resulting `char` has that value.
#[verifier::external_body]
fn char_from_u32(code: u32) -> (r: Option<char>)
    ensures
        r == spec_charOfScalar(code),
{
    char::from_u32(code)
}

pub fn isAscii(byte: u8) -> (r: bool)
    ensures
        r == spec_isAscii(byte),
{
    byte & 0b1000_0000 == 0
}

pub fn bytesFollowing(byte: u8) -> (r: Option<usize>)
    ensures
        r == spec_bytesFollowing(byte),
{
    if isAscii(byte) {
        Some(0)
    } else if byte & 0b1110_0000 == 0b1100_0000 {
        Some(1)
    } else if byte & 0b1111_0000 == 0b1110_0000 {
        Some(2)
    } else if byte & 0b1111_1000 == 0b1111_0000 {
        Some(3)
    } else {
        None
    }
}

fn isContinuationByte(byte: u8) -> (r: bool)
    ensures
        r == vstd::utf8::is_continuation_byte(byte),
{
    byte & 0b1100_0000 == 0b1000_0000
}

/// Reads the first UTF-8 codepoint of `input` as a `char`.
pub fn readCodepoint(input: &[u8]) -> (r: Option<char>)
    ensures
        r == spec_readCodepoint(input@),
{
    if input.len() == 0 {
        return None;
    }
    let b0 = input[0];
    match bytesFollowing(b0) {
        Some(0) => {
            let cp: u32 = (b0 & 0x7F) as u32;
            assert(cp == vstd::utf8::decode_first_codepoint(input@));
            char_from_u32(cp)
        },
        Some(1) => {
            if input.len() < 2 {
                return None;
            }
            let b1 = input[1];
            if !isContinuationByte(b1) {
                return None;
            }
            let cp: u32 = (((b0 & 0x1F) as u32) << 6u32) | ((b1 & 0x3F) as u32);
            assert(cp == vstd::utf8::decode_first_codepoint(input@));
            char_from_u32(cp)
        },
        Some(2) => {
            if input.len() < 3 {
                return None;
            }
            let b1 = input[1];
            let b2 = input[2];
            if !isContinuationByte(b1) || !isContinuationByte(b2) {
                return None;
            }
            let cp: u32 = (((b0 & 0x0F) as u32) << 12u32) | (((b1 & 0x3F) as u32) << 6u32) | ((b2
                & 0x3F) as u32);
            assert(cp == vstd::utf8::decode_first_codepoint(input@));
            char_from_u32(cp)
        },
        Some(_) => {
            if input.len() < 4 {
                return None;
            }
            let b1 = input[1];
            let b2 = input[2];
            let b3 = input[3];
            if !isContinuationByte(b1) || !isContinuationByte(b2) || !isContinuationByte(b3) {
                return None;
            }
            let cp: u32 = (((b0 & 0x07) as u32) << 18u32) | (((b1 & 0x3F) as u32) << 12u32) | (((b2
                & 0x3F) as u32) << 6u32) | ((b3 & 0x3F) as u32);
            assert(cp == vstd::utf8::decode_first_codepoint(input@));
            char_from_u32(cp)
        },
        None => None,
    }
}

} // verus!
