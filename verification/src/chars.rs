//! The self-describing character codec.
//!
//! A character is a two-bit class holding its UTF-8 byte length minus
//! one (so classes 0 through 3 stand for 1 through 4 bytes), followed by
//! its raw UTF-8 bytes on the channel's byte path, not bit-packed
//! further.  The decoder validates the leading and continuation byte
//! shapes and the encoded range of each class, so overlong encodings and
//! surrogates are rejected as `TypeMismatch`.

use crate::bits::{bits_of_bytes, bits_of_uint, bytes_of_bits, lemma_bits_of_bytes_len,
    lemma_bits_of_uint_len, lemma_bytes_of_bits_inverse, lemma_pow2_values,
    lemma_uint_bits_roundtrip, lemma_uint_of_bits_bound, uint_of_bits};
use crate::channel::{BitSink, BitSource};
use crate::error::SmlError;
use vstd::prelude::*;

verus! {

pub assume_specification[ char::from_u32 ](v: u32) -> (r: Option<char>)
    ensures
        r matches Some(c) ==> c as u32 == v,
        r is Some <==> (v < 0xD800 || (0xE000 <= v && v <= 0x10FFFF)),
;

/// Whether a 1- to 4-byte sequence is the UTF-8 encoding of exactly one
/// Unicode scalar of that byte length: well-shaped leading and
/// continuation bytes, no overlong form, no surrogate.
pub open spec fn char_payload_ok(bytes: Seq<u8>) -> bool {
    if bytes.len() == 1 {
        vstd::utf8::is_leading_byte_width_1(bytes[0])
    } else if bytes.len() == 2 {
        &&& vstd::utf8::is_leading_byte_width_2(bytes[0])
        &&& vstd::utf8::is_continuation_byte(bytes[1])
        &&& vstd::utf8::has_width_2_encoding(vstd::utf8::codepoint_width_2(bytes[0], bytes[1]))
    } else if bytes.len() == 3 {
        &&& vstd::utf8::is_leading_byte_width_3(bytes[0])
        &&& vstd::utf8::is_continuation_byte(bytes[1])
        &&& vstd::utf8::is_continuation_byte(bytes[2])
        &&& vstd::utf8::has_width_3_encoding(
            vstd::utf8::codepoint_width_3(bytes[0], bytes[1], bytes[2]),
        )
    } else if bytes.len() == 4 {
        &&& vstd::utf8::is_leading_byte_width_4(bytes[0])
        &&& vstd::utf8::is_continuation_byte(bytes[1])
        &&& vstd::utf8::is_continuation_byte(bytes[2])
        &&& vstd::utf8::is_continuation_byte(bytes[3])
        &&& vstd::utf8::has_width_4_encoding(
            vstd::utf8::codepoint_width_4(bytes[0], bytes[1], bytes[2], bytes[3]),
        )
    } else {
        false
    }
}

/// The scalar a valid 1- to 4-byte payload encodes.
pub open spec fn char_payload_scalar(bytes: Seq<u8>) -> u32
    recommends
        char_payload_ok(bytes),
{
    if bytes.len() == 1 {
        vstd::utf8::codepoint_width_1(bytes[0])
    } else if bytes.len() == 2 {
        vstd::utf8::codepoint_width_2(bytes[0], bytes[1])
    } else if bytes.len() == 3 {
        vstd::utf8::codepoint_width_3(bytes[0], bytes[1], bytes[2])
    } else {
        vstd::utf8::codepoint_width_4(bytes[0], bytes[1], bytes[2], bytes[3])
    }
}

/// The wire form of a character: byte-length class, then raw UTF-8.
pub open spec fn enc_char(c: char) -> Seq<bool> {
    let bytes = vstd::utf8::encode_scalar(c as u32);
    bits_of_uint((bytes.len() - 1) as nat, 2) + bits_of_bytes(bytes)
}

/// Reading a character from position `p`: the class gives the byte
/// count, the bytes must form a valid scalar of that exact class.
pub open spec fn dec_char(bits: Seq<bool>, p: nat) -> Result<(char, nat), SmlError> {
    if p + 2 > bits.len() {
        Err(SmlError::TruncatedInput)
    } else {
        let n = uint_of_bits(bits.subrange(p as int, p as int + 2)) + 1;
        if p + 2 + 8 * n > bits.len() {
            Err(SmlError::TruncatedInput)
        } else {
            let bytes = bytes_of_bits(bits.subrange(p as int + 2, p as int + 2 + 8 * n));
            if char_payload_ok(bytes) {
                Ok(((char_payload_scalar(bytes) as char), p + 2 + 8 * n))
            } else {
                Err(SmlError::TypeMismatch)
            }
        }
    }
}

proof fn lemma_utf8_w1(c: u32)
    by (bit_vector)
    requires
        vstd::utf8::has_width_1_encoding(c),
    ensures
        vstd::utf8::is_leading_byte_width_1(vstd::utf8::leading_byte_width_1(c)),
        vstd::utf8::codepoint_width_1(vstd::utf8::leading_byte_width_1(c)) == c,
{
}

proof fn lemma_utf8_w2(c: u32)
    by (bit_vector)
    requires
        vstd::utf8::has_width_2_encoding(c),
    ensures
        vstd::utf8::is_leading_byte_width_2(vstd::utf8::leading_byte_width_2(c)),
        vstd::utf8::is_continuation_byte(vstd::utf8::last_continuation_byte(c)),
        vstd::utf8::codepoint_width_2(
            vstd::utf8::leading_byte_width_2(c),
            vstd::utf8::last_continuation_byte(c),
        ) == c,
{
}

proof fn lemma_utf8_w3(c: u32)
    by (bit_vector)
    requires
        vstd::utf8::has_width_3_encoding(c),
    ensures
        vstd::utf8::is_leading_byte_width_3(vstd::utf8::leading_byte_width_3(c)),
        vstd::utf8::is_continuation_byte(vstd::utf8::second_last_continuation_byte(c)),
        vstd::utf8::is_continuation_byte(vstd::utf8::last_continuation_byte(c)),
        vstd::utf8::codepoint_width_3(
            vstd::utf8::leading_byte_width_3(c),
            vstd::utf8::second_last_continuation_byte(c),
            vstd::utf8::last_continuation_byte(c),
        ) == c,
{
}

proof fn lemma_utf8_w4(c: u32)
    by (bit_vector)
    requires
        vstd::utf8::has_width_4_encoding(c),
    ensures
        vstd::utf8::is_leading_byte_width_4(vstd::utf8::leading_byte_width_4(c)),
        vstd::utf8::is_continuation_byte(vstd::utf8::third_last_continuation_byte(c)),
        vstd::utf8::is_continuation_byte(vstd::utf8::second_last_continuation_byte(c)),
        vstd::utf8::is_continuation_byte(vstd::utf8::last_continuation_byte(c)),
        vstd::utf8::codepoint_width_4(
            vstd::utf8::leading_byte_width_4(c),
            vstd::utf8::third_last_continuation_byte(c),
            vstd::utf8::second_last_continuation_byte(c),
            vstd::utf8::last_continuation_byte(c),
        ) == c,
{
}

/// The UTF-8 bytes of any scalar are a valid payload of their own length
/// and decode back to the scalar.
pub proof fn lemma_encode_scalar_payload(scalar: u32)
    requires
        vstd::utf8::is_scalar(scalar),
    ensures
        1 <= vstd::utf8::encode_scalar(scalar).len() <= 4,
        char_payload_ok(vstd::utf8::encode_scalar(scalar)),
        char_payload_scalar(vstd::utf8::encode_scalar(scalar)) == scalar,
{
    if vstd::utf8::has_width_1_encoding(scalar) {
        lemma_utf8_w1(scalar);
    } else if vstd::utf8::has_width_2_encoding(scalar) {
        lemma_utf8_w2(scalar);
    } else if vstd::utf8::has_width_3_encoding(scalar) {
        lemma_utf8_w3(scalar);
    } else {
        lemma_utf8_w4(scalar);
    }
}

/// The UTF-8 bytes of one scalar, computed bit by bit as the encoding
/// rules lay them out.
fn utf8_bytes(code: u32) -> (r: Vec<u8>)
    requires
        vstd::utf8::is_scalar(code),
    ensures
        r@ == vstd::utf8::encode_scalar(code),
        1 <= r@.len() <= 4,
{
    let mut v: Vec<u8> = Vec::new();
    if code <= 0x7F {
        v.push((code & 0x7F) as u8);
    } else if code <= 0x7FF {
        v.push(0xC0u8 | (((code >> 6u32) & 0x1F) as u8));
        v.push(0x80u8 | ((code & 0x3F) as u8));
    } else if code <= 0xFFFF {
        v.push(0xE0u8 | (((code >> 12u32) & 0x0F) as u8));
        v.push(0x80u8 | (((code >> 6u32) & 0x3F) as u8));
        v.push(0x80u8 | ((code & 0x3F) as u8));
    } else {
        v.push(0xF0u8 | (((code >> 18u32) & 0x7) as u8));
        v.push(0x80u8 | (((code >> 12u32) & 0x3F) as u8));
        v.push(0x80u8 | (((code >> 6u32) & 0x3F) as u8));
        v.push(0x80u8 | ((code & 0x3F) as u8));
    }
    proof {
        assert(v@ =~= vstd::utf8::encode_scalar(code));
    }
    v
}

/// The scalar one 1- to 4-byte payload encodes, with full validation:
/// byte shapes, no overlong form, no surrogate.
fn utf8_scalar(bytes: &Vec<u8>) -> (r: Result<u32, SmlError>)
    requires
        1 <= bytes@.len() <= 4,
    ensures
        r is Ok <==> char_payload_ok(bytes@),
        (match r {
            Ok(v) => v == char_payload_scalar(bytes@),
            Err(e) => e == SmlError::TypeMismatch,
        }),
{
    let n = bytes.len();
    if n == 1 {
        let b0 = bytes[0];
        if b0 <= 0x7F {
            Ok((b0 & 0x7F) as u32)
        } else {
            Err(SmlError::TypeMismatch)
        }
    } else if n == 2 {
        let b0 = bytes[0];
        let b1 = bytes[1];
        if 0xC0 <= b0 && b0 <= 0xDF && 0x80 <= b1 && b1 <= 0xBF {
            let c: u32 = (((b0 & 0x1F) as u32) << 6u32) | ((b1 & 0x3F) as u32);
            if 0x80 <= c && c <= 0x7FF {
                Ok(c)
            } else {
                Err(SmlError::TypeMismatch)
            }
        } else {
            Err(SmlError::TypeMismatch)
        }
    } else if n == 3 {
        let b0 = bytes[0];
        let b1 = bytes[1];
        let b2 = bytes[2];
        if 0xE0 <= b0 && b0 <= 0xEF && 0x80 <= b1 && b1 <= 0xBF && 0x80 <= b2 && b2 <= 0xBF {
            let c: u32 = (((b0 & 0x0F) as u32) << 12u32) | (((b1 & 0x3F) as u32) << 6u32) | ((b2
                & 0x3F) as u32);
            if 0x800 <= c && c <= 0xFFFF && !(0xD800 <= c && c <= 0xDFFF) {
                Ok(c)
            } else {
                Err(SmlError::TypeMismatch)
            }
        } else {
            Err(SmlError::TypeMismatch)
        }
    } else {
        let b0 = bytes[0];
        let b1 = bytes[1];
        let b2 = bytes[2];
        let b3 = bytes[3];
        if 0xF0 <= b0 && b0 <= 0xF7 && 0x80 <= b1 && b1 <= 0xBF && 0x80 <= b2 && b2 <= 0xBF && 0x80
            <= b3 && b3 <= 0xBF {
            let c: u32 = (((b0 & 0x07) as u32) << 18u32) | (((b1 & 0x3F) as u32) << 12u32) | (((b2
                & 0x3F) as u32) << 6u32) | ((b3 & 0x3F) as u32);
            if 0x10000 <= c && c <= 0x10FFFF {
                Ok(c)
            } else {
                Err(SmlError::TypeMismatch)
            }
        } else {
            Err(SmlError::TypeMismatch)
        }
    }
}

/// Writes a bare character: its byte-length class, then its raw UTF-8
/// bytes.
pub fn write_char_value(sink: &mut BitSink, value: char)
    ensures
        final(sink)@ == old(sink)@ + enc_char(value),
{
    proof {
        vstd::utf8::char_is_scalar(value);
        lemma_pow2_values();
    }
    let code: u32 = value as u32;
    let bytes = utf8_bytes(code);
    let cls: u8 = (bytes.len() - 1) as u8;
    sink.write_bits(2, cls as u128);
    sink.write_raw_bytes(bytes.as_slice());
    proof {
        lemma_bits_of_uint_len(cls as nat, 2);
        lemma_bits_of_bytes_len(bytes@);
        assert(sink@ =~= old(sink)@ + enc_char(value));
    }
}

/// Reads a bare character back: class, bytes, validation, scalar.
pub fn read_char_value(source: &mut BitSource) -> (r: Result<char, SmlError>)
    ensures
        final(source).stream() == old(source).stream(),
        (match r {
            Ok(c) => dec_char(old(source).stream(), old(source).cursor()) == Ok::<_, SmlError>(
                (c, final(source).cursor() as nat),
            ),
            Err(e) => dec_char(old(source).stream(), old(source).cursor()) == Err::<(char, nat),
                _,
            >(e),
        }),
{
    let ghost bits = old(source).stream();
    let ghost p = old(source).cursor();
    let cls = match source.read_bits(2) {
        Ok(v) => v,
        Err(e) => {
            return Err(e);
        },
    };
    proof {
        lemma_pow2_values();
        lemma_uint_of_bits_bound(bits.subrange(p as int, p as int + 2));
    }
    let count: usize = (cls as usize) + 1;
    let bytes = match source.read_byte_vec(count) {
        Ok(v) => v,
        Err(e) => {
            return Err(e);
        },
    };
    proof {
        lemma_bytes_of_bits_inverse(bytes@);
    }
    let code = match utf8_scalar(&bytes) {
        Ok(v) => v,
        Err(e) => {
            return Err(e);
        },
    };
    match char::from_u32(code) {
        Some(c) => {
            proof {
                vstd::utf8::char_u32_cast(c, code);
            }
            Ok(c)
        },
        None => Err(SmlError::TypeMismatch),
    }
}

/// Round trip, bare character: the class and bytes written for any
/// `char` decode back to it, wherever they stand in a stream.
pub proof fn lemma_char_roundtrip(pre: Seq<bool>, c: char, post: Seq<bool>)
    ensures
        dec_char(pre + enc_char(c) + post, pre.len()) == Ok::<_, SmlError>(
            (c, pre.len() + enc_char(c).len()),
        ),
{
    vstd::utf8::char_is_scalar(c);
    let scalar = c as u32;
    let bytes = vstd::utf8::encode_scalar(scalar);
    lemma_encode_scalar_payload(scalar);
    let n = bytes.len();
    let enc = enc_char(c);
    let stream = pre + enc + post;
    let p = pre.len() as int;
    lemma_bits_of_uint_len((n - 1) as nat, 2);
    lemma_bits_of_bytes_len(bytes);
    lemma_pow2_values();
    assert(enc.len() == 2 + 8 * n);
    assert(stream.subrange(p, p + 2) =~= bits_of_uint((n - 1) as nat, 2));
    lemma_uint_bits_roundtrip((n - 1) as nat, 2);
    assert(stream.subrange(p + 2, p + 2 + 8 * (n as int)) =~= bits_of_bytes(bytes));
    lemma_bytes_of_bits_inverse(bytes);
    vstd::utf8::char_u32_cast(c, scalar);
}

} // verus!
