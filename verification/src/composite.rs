//! The composite codec: tags paired with values, options, and the
//! struct protocol.
//!
//! A self-describing value is its type tag followed by its bare payload.
//! A struct is its field count, written as a bare self-describing
//! unsigned integer (see [`crate::value::write_unsigned_value`]), then
//! each field's tag and value in declaration order; field order is part
//! of the wire contract, and a decoder checks each field's tag against
//! the statically expected type.  A struct nested as a field of another
//! struct carries the registry's `Struct` code as its field tag; the
//! record body itself opens with the count, not with a tag of its own.
//! An option is a presence boolean
//! written as a full tagged value, then, when present, the inner tag and
//! payload; as a declared field type an option is the `Optional` marker
//! followed by the inner type's tag (see [`write_option_tag`]).

use crate::bits::{lemma_bits_of_uint_len, lemma_pow2_values, lemma_sig_bits_iff};
use crate::channel::{BitSink, BitSource};
use crate::chars::{dec_char, enc_char, lemma_char_roundtrip, read_char_value, write_char_value};
use crate::error::SmlError;
use crate::tag::{dec_expect_tag, enc_tag, expect_tag, lemma_tag_roundtrip, tag_code, write_tag,
    TypeTag};
use crate::value::{dec_bool, dec_float_sd, dec_int_sd, dec_uint_sd, enc_bool, enc_float_sd,
    enc_int_sd, enc_uint_sd, int_encodable, int_mag, lemma_bool_value_roundtrip,
    lemma_float_sd_roundtrip, lemma_int_sd_roundtrip, lemma_uint_sd_roundtrip, nibbles_needed,
    read_bool_value, read_float_value, read_signed_value, read_unsigned_value, uint_encodable,
    write_bool_value, write_float_value, write_signed_value, write_unsigned_value};
use vstd::prelude::*;

verus! {

/// The wire form of a tagged boolean.
pub open spec fn enc_tagged_bool(v: bool) -> Seq<bool> {
    enc_tag(TypeTag::Bool) + enc_bool(v)
}

/// Reading a tagged boolean from position `p`.
pub open spec fn dec_tagged_bool(bits: Seq<bool>, p: nat) -> Result<(bool, nat), SmlError> {
    match dec_expect_tag(bits, p, TypeTag::Bool) {
        Ok(q) => dec_bool(bits, q),
        Err(e) => Err(e),
    }
}

/// Writes a boolean with its tag.
pub fn write_bool(sink: &mut BitSink, value: bool)
    ensures
        final(sink)@ == old(sink)@ + enc_tagged_bool(value),
{
    write_tag(sink, TypeTag::Bool);
    write_bool_value(sink, value);
    proof {
        assert(sink@ =~= old(sink)@ + enc_tagged_bool(value));
    }
}

/// Reads a boolean, checking its tag.
pub fn read_bool(source: &mut BitSource) -> (r: Result<bool, SmlError>)
    ensures
        final(source).stream() == old(source).stream(),
        (match r {
            Ok(v) => dec_tagged_bool(old(source).stream(), old(source).cursor()) == Ok::<
                _,
                SmlError,
            >((v, final(source).cursor() as nat)),
            Err(e) => dec_tagged_bool(old(source).stream(), old(source).cursor()) == Err::<
                (bool, nat),
                _,
            >(e),
        }),
{
    match expect_tag(source, TypeTag::Bool) {
        Ok(()) => (),
        Err(e) => {
            return Err(e);
        },
    }
    read_bool_value(source)
}

/// Round trip, tagged boolean.
pub proof fn lemma_tagged_bool_roundtrip(pre: Seq<bool>, v: bool, post: Seq<bool>)
    ensures
        dec_tagged_bool(pre + enc_tagged_bool(v) + post, pre.len()) == Ok::<_, SmlError>(
            (v, pre.len() + enc_tagged_bool(v).len()),
        ),
        enc_tagged_bool(v).len() == 6,
{
    let bits = pre + enc_tagged_bool(v) + post;
    lemma_bits_of_uint_len(tag_code(TypeTag::Bool), 5);
    assert(bits =~= pre + enc_tag(TypeTag::Bool) + (enc_bool(v) + post));
    lemma_tag_roundtrip(pre, TypeTag::Bool, enc_bool(v) + post);
    assert(bits =~= (pre + enc_tag(TypeTag::Bool)) + enc_bool(v) + post);
    lemma_bool_value_roundtrip(pre + enc_tag(TypeTag::Bool), v, post);
}

/// The wire form of a tagged character.
pub open spec fn enc_tagged_char(v: char) -> Seq<bool> {
    enc_tag(TypeTag::Char) + enc_char(v)
}

/// Reading a tagged character from position `p`.
pub open spec fn dec_tagged_char(bits: Seq<bool>, p: nat) -> Result<(char, nat), SmlError> {
    match dec_expect_tag(bits, p, TypeTag::Char) {
        Ok(q) => dec_char(bits, q),
        Err(e) => Err(e),
    }
}

/// Writes a character with its tag.
pub fn write_char(sink: &mut BitSink, value: char)
    ensures
        final(sink)@ == old(sink)@ + enc_tagged_char(value),
{
    write_tag(sink, TypeTag::Char);
    write_char_value(sink, value);
    proof {
        assert(sink@ =~= old(sink)@ + enc_tagged_char(value));
    }
}

/// Reads a character, checking its tag.
pub fn read_char(source: &mut BitSource) -> (r: Result<char, SmlError>)
    ensures
        final(source).stream() == old(source).stream(),
        (match r {
            Ok(v) => dec_tagged_char(old(source).stream(), old(source).cursor()) == Ok::<
                _,
                SmlError,
            >((v, final(source).cursor() as nat)),
            Err(e) => dec_tagged_char(old(source).stream(), old(source).cursor()) == Err::<
                (char, nat),
                _,
            >(e),
        }),
{
    match expect_tag(source, TypeTag::Char) {
        Ok(()) => (),
        Err(e) => {
            return Err(e);
        },
    }
    read_char_value(source)
}

/// Round trip, tagged character.
pub proof fn lemma_tagged_char_roundtrip(pre: Seq<bool>, v: char, post: Seq<bool>)
    ensures
        dec_tagged_char(pre + enc_tagged_char(v) + post, pre.len()) == Ok::<_, SmlError>(
            (v, pre.len() + enc_tagged_char(v).len()),
        ),
{
    let bits = pre + enc_tagged_char(v) + post;
    lemma_bits_of_uint_len(tag_code(TypeTag::Char), 5);
    assert(bits =~= pre + enc_tag(TypeTag::Char) + (enc_char(v) + post));
    lemma_tag_roundtrip(pre, TypeTag::Char, enc_char(v) + post);
    assert(bits =~= (pre + enc_tag(TypeTag::Char)) + enc_char(v) + post);
    lemma_char_roundtrip(pre + enc_tag(TypeTag::Char), v, post);
}

/// The wire form of a tagged `u8`.
pub open spec fn enc_tagged_u8(v: u8) -> Seq<bool> {
    enc_tag(TypeTag::U8) + enc_uint_sd(v as nat)
}

/// Reading a tagged `u8` from position `p`.
pub open spec fn dec_tagged_u8(bits: Seq<bool>, p: nat) -> Result<(u8, nat), SmlError> {
    match dec_expect_tag(bits, p, TypeTag::U8) {
        Ok(q) => match dec_uint_sd(bits, q) {
            Ok((v, q2)) => if v <= u8::MAX {
                Ok((v as u8, q2))
            } else {
                Err(SmlError::WidthOverflow)
            },
            Err(e) => Err(e),
        },
        Err(e) => Err(e),
    }
}

/// Writes a `u8` with its tag.
pub fn write_u8(sink: &mut BitSink, value: u8)
    ensures
        final(sink)@ == old(sink)@ + enc_tagged_u8(value),
{
    proof {
        lemma_pow2_values();
        lemma_sig_bits_iff(value as nat, 32);
    }
    write_tag(sink, TypeTag::U8);
    let r = write_unsigned_value(sink, value as u64);
    proof {
        assert(r is Ok);
        assert(sink@ =~= old(sink)@ + enc_tagged_u8(value));
    }
}

/// Reads a `u8`, checking its tag and range.
pub fn read_u8(source: &mut BitSource) -> (r: Result<u8, SmlError>)
    ensures
        final(source).stream() == old(source).stream(),
        (match r {
            Ok(v) => dec_tagged_u8(old(source).stream(), old(source).cursor()) == Ok::<
                _,
                SmlError,
            >((v, final(source).cursor() as nat)),
            Err(e) => dec_tagged_u8(old(source).stream(), old(source).cursor()) == Err::<
                (u8, nat),
                _,
            >(e),
        }),
{
    match expect_tag(source, TypeTag::U8) {
        Ok(()) => (),
        Err(e) => {
            return Err(e);
        },
    }
    let v = match read_unsigned_value(source) {
        Ok(v) => v,
        Err(e) => {
            return Err(e);
        },
    };
    if v > u8::MAX as u64 {
        return Err(SmlError::WidthOverflow);
    }
    Ok(v as u8)
}

/// Round trip, tagged `u8`.
pub proof fn lemma_tagged_u8_roundtrip(pre: Seq<bool>, v: u8, post: Seq<bool>)
    ensures
        dec_tagged_u8(pre + enc_tagged_u8(v) + post, pre.len()) == Ok::<_, SmlError>(
            (v, pre.len() + enc_tagged_u8(v).len()),
        ),
{
    let bits = pre + enc_tagged_u8(v) + post;
    lemma_pow2_values();
    lemma_sig_bits_iff(v as nat, 32);
    lemma_bits_of_uint_len(tag_code(TypeTag::U8), 5);
    assert(bits =~= pre + enc_tag(TypeTag::U8) + (enc_uint_sd(v as nat) + post));
    lemma_tag_roundtrip(pre, TypeTag::U8, enc_uint_sd(v as nat) + post);
    assert(bits =~= (pre + enc_tag(TypeTag::U8)) + enc_uint_sd(v as nat) + post);
    lemma_uint_sd_roundtrip(pre + enc_tag(TypeTag::U8), v as nat, post);
}

/// The wire form of a tagged `u16`.
pub open spec fn enc_tagged_u16(v: u16) -> Seq<bool> {
    enc_tag(TypeTag::U16) + enc_uint_sd(v as nat)
}

/// Reading a tagged `u16` from position `p`.
pub open spec fn dec_tagged_u16(bits: Seq<bool>, p: nat) -> Result<(u16, nat), SmlError> {
    match dec_expect_tag(bits, p, TypeTag::U16) {
        Ok(q) => match dec_uint_sd(bits, q) {
            Ok((v, q2)) => if v <= u16::MAX {
                Ok((v as u16, q2))
            } else {
                Err(SmlError::WidthOverflow)
            },
            Err(e) => Err(e),
        },
        Err(e) => Err(e),
    }
}

/// Writes a `u16` with its tag.
pub fn write_u16(sink: &mut BitSink, value: u16)
    ensures
        final(sink)@ == old(sink)@ + enc_tagged_u16(value),
{
    proof {
        lemma_pow2_values();
        lemma_sig_bits_iff(value as nat, 32);
    }
    write_tag(sink, TypeTag::U16);
    let r = write_unsigned_value(sink, value as u64);
    proof {
        assert(r is Ok);
        assert(sink@ =~= old(sink)@ + enc_tagged_u16(value));
    }
}

/// Reads a `u16`, checking its tag and range.
pub fn read_u16(source: &mut BitSource) -> (r: Result<u16, SmlError>)
    ensures
        final(source).stream() == old(source).stream(),
        (match r {
            Ok(v) => dec_tagged_u16(old(source).stream(), old(source).cursor()) == Ok::<
                _,
                SmlError,
            >((v, final(source).cursor() as nat)),
            Err(e) => dec_tagged_u16(old(source).stream(), old(source).cursor()) == Err::<
                (u16, nat),
                _,
            >(e),
        }),
{
    match expect_tag(source, TypeTag::U16) {
        Ok(()) => (),
        Err(e) => {
            return Err(e);
        },
    }
    let v = match read_unsigned_value(source) {
        Ok(v) => v,
        Err(e) => {
            return Err(e);
        },
    };
    if v > u16::MAX as u64 {
        return Err(SmlError::WidthOverflow);
    }
    Ok(v as u16)
}

/// Round trip, tagged `u16`.
pub proof fn lemma_tagged_u16_roundtrip(pre: Seq<bool>, v: u16, post: Seq<bool>)
    ensures
        dec_tagged_u16(pre + enc_tagged_u16(v) + post, pre.len()) == Ok::<_, SmlError>(
            (v, pre.len() + enc_tagged_u16(v).len()),
        ),
{
    let bits = pre + enc_tagged_u16(v) + post;
    lemma_pow2_values();
    lemma_sig_bits_iff(v as nat, 32);
    lemma_bits_of_uint_len(tag_code(TypeTag::U16), 5);
    assert(bits =~= pre + enc_tag(TypeTag::U16) + (enc_uint_sd(v as nat) + post));
    lemma_tag_roundtrip(pre, TypeTag::U16, enc_uint_sd(v as nat) + post);
    assert(bits =~= (pre + enc_tag(TypeTag::U16)) + enc_uint_sd(v as nat) + post);
    lemma_uint_sd_roundtrip(pre + enc_tag(TypeTag::U16), v as nat, post);
}

/// The wire form of a tagged `u32`.
pub open spec fn enc_tagged_u32(v: u32) -> Seq<bool> {
    enc_tag(TypeTag::U32) + enc_uint_sd(v as nat)
}

/// Reading a tagged `u32` from position `p`.
pub open spec fn dec_tagged_u32(bits: Seq<bool>, p: nat) -> Result<(u32, nat), SmlError> {
    match dec_expect_tag(bits, p, TypeTag::U32) {
        Ok(q) => match dec_uint_sd(bits, q) {
            Ok((v, q2)) => if v <= u32::MAX {
                Ok((v as u32, q2))
            } else {
                Err(SmlError::WidthOverflow)
            },
            Err(e) => Err(e),
        },
        Err(e) => Err(e),
    }
}

/// Writes a `u32` with its tag.
pub fn write_u32(sink: &mut BitSink, value: u32)
    ensures
        final(sink)@ == old(sink)@ + enc_tagged_u32(value),
{
    proof {
        lemma_pow2_values();
        lemma_sig_bits_iff(value as nat, 32);
    }
    write_tag(sink, TypeTag::U32);
    let r = write_unsigned_value(sink, value as u64);
    proof {
        assert(r is Ok);
        assert(sink@ =~= old(sink)@ + enc_tagged_u32(value));
    }
}

/// Reads a `u32`, checking its tag and range.
pub fn read_u32(source: &mut BitSource) -> (r: Result<u32, SmlError>)
    ensures
        final(source).stream() == old(source).stream(),
        (match r {
            Ok(v) => dec_tagged_u32(old(source).stream(), old(source).cursor()) == Ok::<
                _,
                SmlError,
            >((v, final(source).cursor() as nat)),
            Err(e) => dec_tagged_u32(old(source).stream(), old(source).cursor()) == Err::<
                (u32, nat),
                _,
            >(e),
        }),
{
    match expect_tag(source, TypeTag::U32) {
        Ok(()) => (),
        Err(e) => {
            return Err(e);
        },
    }
    let v = match read_unsigned_value(source) {
        Ok(v) => v,
        Err(e) => {
            return Err(e);
        },
    };
    if v > u32::MAX as u64 {
        return Err(SmlError::WidthOverflow);
    }
    Ok(v as u32)
}

/// Round trip, tagged `u32`.
pub proof fn lemma_tagged_u32_roundtrip(pre: Seq<bool>, v: u32, post: Seq<bool>)
    ensures
        dec_tagged_u32(pre + enc_tagged_u32(v) + post, pre.len()) == Ok::<_, SmlError>(
            (v, pre.len() + enc_tagged_u32(v).len()),
        ),
{
    let bits = pre + enc_tagged_u32(v) + post;
    lemma_pow2_values();
    lemma_sig_bits_iff(v as nat, 32);
    lemma_bits_of_uint_len(tag_code(TypeTag::U32), 5);
    assert(bits =~= pre + enc_tag(TypeTag::U32) + (enc_uint_sd(v as nat) + post));
    lemma_tag_roundtrip(pre, TypeTag::U32, enc_uint_sd(v as nat) + post);
    assert(bits =~= (pre + enc_tag(TypeTag::U32)) + enc_uint_sd(v as nat) + post);
    lemma_uint_sd_roundtrip(pre + enc_tag(TypeTag::U32), v as nat, post);
}

/// The wire form of a tagged `u64`.
pub open spec fn enc_tagged_u64(v: u64) -> Seq<bool> {
    enc_tag(TypeTag::U64) + enc_uint_sd(v as nat)
}

/// Reading a tagged `u64` from position `p`.
pub open spec fn dec_tagged_u64(bits: Seq<bool>, p: nat) -> Result<(u64, nat), SmlError> {
    match dec_expect_tag(bits, p, TypeTag::U64) {
        Ok(q) => match dec_uint_sd(bits, q) {
            Ok((v, q2)) => Ok((v as u64, q2)),
            Err(e) => Err(e),
        },
        Err(e) => Err(e),
    }
}

/// Writes a `u64` with its tag, failing fast with `WidthOverflow`,
/// before the tag is written, when the value needs more than eight
/// nibbles.
pub fn write_u64(sink: &mut BitSink, value: u64) -> (r: Result<(), SmlError>)
    ensures
        r is Ok <==> uint_encodable(value as nat),
        r is Ok ==> final(sink)@ == old(sink)@ + enc_tagged_u64(value),
        r is Err ==> final(sink)@ == old(sink)@ && r == Err::<(), SmlError>(
            SmlError::WidthOverflow,
        ),
{
    proof {
        lemma_pow2_values();
        crate::bits::lemma_nibbles_le_8(value as nat);
    }
    let n = nibbles_needed(value);
    if n > 8 {
        return Err(SmlError::WidthOverflow);
    }
    write_tag(sink, TypeTag::U64);
    let r = write_unsigned_value(sink, value);
    proof {
        assert(r is Ok);
        assert(sink@ =~= old(sink)@ + enc_tagged_u64(value));
    }
    Ok(())
}

/// Reads a `u64`, checking its tag.
pub fn read_u64(source: &mut BitSource) -> (r: Result<u64, SmlError>)
    ensures
        final(source).stream() == old(source).stream(),
        (match r {
            Ok(v) => dec_tagged_u64(old(source).stream(), old(source).cursor()) == Ok::<
                _,
                SmlError,
            >((v, final(source).cursor() as nat)),
            Err(e) => dec_tagged_u64(old(source).stream(), old(source).cursor()) == Err::<
                (u64, nat),
                _,
            >(e),
        }),
{
    match expect_tag(source, TypeTag::U64) {
        Ok(()) => (),
        Err(e) => {
            return Err(e);
        },
    }
    let v = match read_unsigned_value(source) {
        Ok(v) => v,
        Err(e) => {
            return Err(e);
        },
    };
    Ok(v)
}

/// Round trip, tagged `u64`.
pub proof fn lemma_tagged_u64_roundtrip(pre: Seq<bool>, v: u64, post: Seq<bool>)
    requires
        uint_encodable(v as nat),
    ensures
        dec_tagged_u64(pre + enc_tagged_u64(v) + post, pre.len()) == Ok::<_, SmlError>(
            (v, pre.len() + enc_tagged_u64(v).len()),
        ),
{
    let bits = pre + enc_tagged_u64(v) + post;
    lemma_pow2_values();
    lemma_sig_bits_iff(v as nat, 32);
    lemma_bits_of_uint_len(tag_code(TypeTag::U64), 5);
    assert(bits =~= pre + enc_tag(TypeTag::U64) + (enc_uint_sd(v as nat) + post));
    lemma_tag_roundtrip(pre, TypeTag::U64, enc_uint_sd(v as nat) + post);
    assert(bits =~= (pre + enc_tag(TypeTag::U64)) + enc_uint_sd(v as nat) + post);
    lemma_uint_sd_roundtrip(pre + enc_tag(TypeTag::U64), v as nat, post);
}

/// The wire form of a tagged `i8`.
pub open spec fn enc_tagged_i8(v: i8) -> Seq<bool> {
    enc_tag(TypeTag::I8) + enc_int_sd(v as int)
}

/// Reading a tagged `i8` from position `p`.
pub open spec fn dec_tagged_i8(bits: Seq<bool>, p: nat) -> Result<(i8, nat), SmlError> {
    match dec_expect_tag(bits, p, TypeTag::I8) {
        Ok(q) => match dec_int_sd(bits, q) {
            Ok((v, q2)) => if i8::MIN <= v <= i8::MAX {
                Ok((v as i8, q2))
            } else {
                Err(SmlError::WidthOverflow)
            },
            Err(e) => Err(e),
        },
        Err(e) => Err(e),
    }
}

/// Writes an `i8` with its tag.
pub fn write_i8(sink: &mut BitSink, value: i8)
    ensures
        final(sink)@ == old(sink)@ + enc_tagged_i8(value),
{
    proof {
        lemma_pow2_values();
        lemma_sig_bits_iff(int_mag(value as int), 32);
    }
    write_tag(sink, TypeTag::I8);
    let r = write_signed_value(sink, value as i64);
    proof {
        assert(r is Ok);
        assert(sink@ =~= old(sink)@ + enc_tagged_i8(value));
    }
}

/// Reads an `i8`, checking its tag and range.
pub fn read_i8(source: &mut BitSource) -> (r: Result<i8, SmlError>)
    ensures
        final(source).stream() == old(source).stream(),
        (match r {
            Ok(v) => dec_tagged_i8(old(source).stream(), old(source).cursor()) == Ok::<
                _,
                SmlError,
            >((v, final(source).cursor() as nat)),
            Err(e) => dec_tagged_i8(old(source).stream(), old(source).cursor()) == Err::<
                (i8, nat),
                _,
            >(e),
        }),
{
    match expect_tag(source, TypeTag::I8) {
        Ok(()) => (),
        Err(e) => {
            return Err(e);
        },
    }
    let v = match read_signed_value(source) {
        Ok(v) => v,
        Err(e) => {
            return Err(e);
        },
    };
    if v > i8::MAX as i64 || v < i8::MIN as i64 {
        return Err(SmlError::WidthOverflow);
    }
    Ok(v as i8)
}

/// Round trip, tagged `i8`.
pub proof fn lemma_tagged_i8_roundtrip(pre: Seq<bool>, v: i8, post: Seq<bool>)
    ensures
        dec_tagged_i8(pre + enc_tagged_i8(v) + post, pre.len()) == Ok::<_, SmlError>(
            (v, pre.len() + enc_tagged_i8(v).len()),
        ),
{
    let bits = pre + enc_tagged_i8(v) + post;
    lemma_pow2_values();
    lemma_sig_bits_iff(int_mag(v as int), 32);
    lemma_bits_of_uint_len(tag_code(TypeTag::I8), 5);
    assert(bits =~= pre + enc_tag(TypeTag::I8) + (enc_int_sd(v as int) + post));
    lemma_tag_roundtrip(pre, TypeTag::I8, enc_int_sd(v as int) + post);
    assert(bits =~= (pre + enc_tag(TypeTag::I8)) + enc_int_sd(v as int) + post);
    lemma_int_sd_roundtrip(pre + enc_tag(TypeTag::I8), v as int, post);
}

/// The wire form of a tagged `i16`.
pub open spec fn enc_tagged_i16(v: i16) -> Seq<bool> {
    enc_tag(TypeTag::I16) + enc_int_sd(v as int)
}

/// Reading a tagged `i16` from position `p`.
pub open spec fn dec_tagged_i16(bits: Seq<bool>, p: nat) -> Result<(i16, nat), SmlError> {
    match dec_expect_tag(bits, p, TypeTag::I16) {
        Ok(q) => match dec_int_sd(bits, q) {
            Ok((v, q2)) => if i16::MIN <= v <= i16::MAX {
                Ok((v as i16, q2))
            } else {
                Err(SmlError::WidthOverflow)
            },
            Err(e) => Err(e),
        },
        Err(e) => Err(e),
    }
}

/// Writes an `i16` with its tag.
pub fn write_i16(sink: &mut BitSink, value: i16)
    ensures
        final(sink)@ == old(sink)@ + enc_tagged_i16(value),
{
    proof {
        lemma_pow2_values();
        lemma_sig_bits_iff(int_mag(value as int), 32);
    }
    write_tag(sink, TypeTag::I16);
    let r = write_signed_value(sink, value as i64);
    proof {
        assert(r is Ok);
        assert(sink@ =~= old(sink)@ + enc_tagged_i16(value));
    }
}

/// Reads an `i16`, checking its tag and range.
pub fn read_i16(source: &mut BitSource) -> (r: Result<i16, SmlError>)
    ensures
        final(source).stream() == old(source).stream(),
        (match r {
            Ok(v) => dec_tagged_i16(old(source).stream(), old(source).cursor()) == Ok::<
                _,
                SmlError,
            >((v, final(source).cursor() as nat)),
            Err(e) => dec_tagged_i16(old(source).stream(), old(source).cursor()) == Err::<
                (i16, nat),
                _,
            >(e),
        }),
{
    match expect_tag(source, TypeTag::I16) {
        Ok(()) => (),
        Err(e) => {
            return Err(e);
        },
    }
    let v = match read_signed_value(source) {
        Ok(v) => v,
        Err(e) => {
            return Err(e);
        },
    };
    if v > i16::MAX as i64 || v < i16::MIN as i64 {
        return Err(SmlError::WidthOverflow);
    }
    Ok(v as i16)
}

/// Round trip, tagged `i16`.
pub proof fn lemma_tagged_i16_roundtrip(pre: Seq<bool>, v: i16, post: Seq<bool>)
    ensures
        dec_tagged_i16(pre + enc_tagged_i16(v) + post, pre.len()) == Ok::<_, SmlError>(
            (v, pre.len() + enc_tagged_i16(v).len()),
        ),
{
    let bits = pre + enc_tagged_i16(v) + post;
    lemma_pow2_values();
    lemma_sig_bits_iff(int_mag(v as int), 32);
    lemma_bits_of_uint_len(tag_code(TypeTag::I16), 5);
    assert(bits =~= pre + enc_tag(TypeTag::I16) + (enc_int_sd(v as int) + post));
    lemma_tag_roundtrip(pre, TypeTag::I16, enc_int_sd(v as int) + post);
    assert(bits =~= (pre + enc_tag(TypeTag::I16)) + enc_int_sd(v as int) + post);
    lemma_int_sd_roundtrip(pre + enc_tag(TypeTag::I16), v as int, post);
}

/// The wire form of a tagged `i32`.
pub open spec fn enc_tagged_i32(v: i32) -> Seq<bool> {
    enc_tag(TypeTag::I32) + enc_int_sd(v as int)
}

/// Reading a tagged `i32` from position `p`.
pub open spec fn dec_tagged_i32(bits: Seq<bool>, p: nat) -> Result<(i32, nat), SmlError> {
    match dec_expect_tag(bits, p, TypeTag::I32) {
        Ok(q) => match dec_int_sd(bits, q) {
            Ok((v, q2)) => if i32::MIN <= v <= i32::MAX {
                Ok((v as i32, q2))
            } else {
                Err(SmlError::WidthOverflow)
            },
            Err(e) => Err(e),
        },
        Err(e) => Err(e),
    }
}

/// Writes an `i32` with its tag.
pub fn write_i32(sink: &mut BitSink, value: i32)
    ensures
        final(sink)@ == old(sink)@ + enc_tagged_i32(value),
{
    proof {
        lemma_pow2_values();
        lemma_sig_bits_iff(int_mag(value as int), 32);
    }
    write_tag(sink, TypeTag::I32);
    let r = write_signed_value(sink, value as i64);
    proof {
        assert(r is Ok);
        assert(sink@ =~= old(sink)@ + enc_tagged_i32(value));
    }
}

/// Reads an `i32`, checking its tag and range.
pub fn read_i32(source: &mut BitSource) -> (r: Result<i32, SmlError>)
    ensures
        final(source).stream() == old(source).stream(),
        (match r {
            Ok(v) => dec_tagged_i32(old(source).stream(), old(source).cursor()) == Ok::<
                _,
                SmlError,
            >((v, final(source).cursor() as nat)),
            Err(e) => dec_tagged_i32(old(source).stream(), old(source).cursor()) == Err::<
                (i32, nat),
                _,
            >(e),
        }),
{
    match expect_tag(source, TypeTag::I32) {
        Ok(()) => (),
        Err(e) => {
            return Err(e);
        },
    }
    let v = match read_signed_value(source) {
        Ok(v) => v,
        Err(e) => {
            return Err(e);
        },
    };
    if v > i32::MAX as i64 || v < i32::MIN as i64 {
        return Err(SmlError::WidthOverflow);
    }
    Ok(v as i32)
}

/// Round trip, tagged `i32`.
pub proof fn lemma_tagged_i32_roundtrip(pre: Seq<bool>, v: i32, post: Seq<bool>)
    ensures
        dec_tagged_i32(pre + enc_tagged_i32(v) + post, pre.len()) == Ok::<_, SmlError>(
            (v, pre.len() + enc_tagged_i32(v).len()),
        ),
{
    let bits = pre + enc_tagged_i32(v) + post;
    lemma_pow2_values();
    lemma_sig_bits_iff(int_mag(v as int), 32);
    lemma_bits_of_uint_len(tag_code(TypeTag::I32), 5);
    assert(bits =~= pre + enc_tag(TypeTag::I32) + (enc_int_sd(v as int) + post));
    lemma_tag_roundtrip(pre, TypeTag::I32, enc_int_sd(v as int) + post);
    assert(bits =~= (pre + enc_tag(TypeTag::I32)) + enc_int_sd(v as int) + post);
    lemma_int_sd_roundtrip(pre + enc_tag(TypeTag::I32), v as int, post);
}

/// The wire form of a tagged `i64`.
pub open spec fn enc_tagged_i64(v: i64) -> Seq<bool> {
    enc_tag(TypeTag::I64) + enc_int_sd(v as int)
}

/// Reading a tagged `i64` from position `p`.
pub open spec fn dec_tagged_i64(bits: Seq<bool>, p: nat) -> Result<(i64, nat), SmlError> {
    match dec_expect_tag(bits, p, TypeTag::I64) {
        Ok(q) => match dec_int_sd(bits, q) {
            Ok((v, q2)) => Ok((v as i64, q2)),
            Err(e) => Err(e),
        },
        Err(e) => Err(e),
    }
}

/// Writes an `i64` with its tag, failing fast with `WidthOverflow`,
/// before the tag is written, when the magnitude needs more than eight
/// nibbles.
pub fn write_i64(sink: &mut BitSink, value: i64) -> (r: Result<(), SmlError>)
    ensures
        r is Ok <==> int_encodable(value as int),
        r is Ok ==> final(sink)@ == old(sink)@ + enc_tagged_i64(value),
        r is Err ==> final(sink)@ == old(sink)@ && r == Err::<(), SmlError>(
            SmlError::WidthOverflow,
        ),
{
    proof {
        lemma_pow2_values();
        crate::bits::lemma_nibbles_le_8(int_mag(value as int));
    }
    let mag: u64 = if value < 0 {
        (-(value as i128)) as u64
    } else {
        value as u64
    };
    assert(mag as nat == int_mag(value as int));
    let n = nibbles_needed(mag);
    if n > 8 {
        return Err(SmlError::WidthOverflow);
    }
    write_tag(sink, TypeTag::I64);
    let r = write_signed_value(sink, value);
    proof {
        assert(r is Ok);
        assert(sink@ =~= old(sink)@ + enc_tagged_i64(value));
    }
    Ok(())
}

/// Reads an `i64`, checking its tag.
pub fn read_i64(source: &mut BitSource) -> (r: Result<i64, SmlError>)
    ensures
        final(source).stream() == old(source).stream(),
        (match r {
            Ok(v) => dec_tagged_i64(old(source).stream(), old(source).cursor()) == Ok::<
                _,
                SmlError,
            >((v, final(source).cursor() as nat)),
            Err(e) => dec_tagged_i64(old(source).stream(), old(source).cursor()) == Err::<
                (i64, nat),
                _,
            >(e),
        }),
{
    match expect_tag(source, TypeTag::I64) {
        Ok(()) => (),
        Err(e) => {
            return Err(e);
        },
    }
    let v = match read_signed_value(source) {
        Ok(v) => v,
        Err(e) => {
            return Err(e);
        },
    };
    Ok(v)
}

/// Round trip, tagged `i64`.
pub proof fn lemma_tagged_i64_roundtrip(pre: Seq<bool>, v: i64, post: Seq<bool>)
    requires
        int_encodable(v as int),
    ensures
        dec_tagged_i64(pre + enc_tagged_i64(v) + post, pre.len()) == Ok::<_, SmlError>(
            (v, pre.len() + enc_tagged_i64(v).len()),
        ),
{
    let bits = pre + enc_tagged_i64(v) + post;
    lemma_pow2_values();
    lemma_sig_bits_iff(int_mag(v as int), 32);
    lemma_bits_of_uint_len(tag_code(TypeTag::I64), 5);
    assert(bits =~= pre + enc_tag(TypeTag::I64) + (enc_int_sd(v as int) + post));
    lemma_tag_roundtrip(pre, TypeTag::I64, enc_int_sd(v as int) + post);
    assert(bits =~= (pre + enc_tag(TypeTag::I64)) + enc_int_sd(v as int) + post);
    lemma_int_sd_roundtrip(pre + enc_tag(TypeTag::I64), v as int, post);
}

/// The wire form of a tagged float, given its raw bit pattern.
pub open spec fn enc_tagged_float(double: bool, pattern: nat) -> Seq<bool> {
    enc_tag(TypeTag::Float) + enc_float_sd(double, pattern)
}

/// Reading a tagged float from position `p`: its precision flag and raw
/// bit pattern.
pub open spec fn dec_tagged_float(bits: Seq<bool>, p: nat) -> Result<((bool, nat), nat), SmlError> {
    match dec_expect_tag(bits, p, TypeTag::Float) {
        Ok(q) => dec_float_sd(bits, q),
        Err(e) => Err(e),
    }
}

/// Writes a float with its tag, given its raw bit pattern, failing fast
/// with `WidthOverflow`, before the tag is written, when the pattern
/// needs more than eight nibbles.
pub fn write_float(sink: &mut BitSink, double: bool, pattern: u64) -> (r: Result<(), SmlError>)
    requires
        !double ==> pattern < 0x100000000,
    ensures
        r is Ok <==> uint_encodable(pattern as nat),
        r is Ok ==> final(sink)@ == old(sink)@ + enc_tagged_float(double, pattern as nat),
        r is Err ==> final(sink)@ == old(sink)@ && r == Err::<(), SmlError>(
            SmlError::WidthOverflow,
        ),
{
    proof {
        lemma_pow2_values();
        crate::bits::lemma_nibbles_le_8(pattern as nat);
    }
    let n = nibbles_needed(pattern);
    if n > 8 {
        return Err(SmlError::WidthOverflow);
    }
    write_tag(sink, TypeTag::Float);
    let r = write_float_value(sink, double, pattern);
    proof {
        assert(r is Ok);
        assert(sink@ =~= old(sink)@ + enc_tagged_float(double, pattern as nat));
    }
    Ok(())
}

/// Reads a float, checking its tag: precision flag and raw bit pattern.
pub fn read_float(source: &mut BitSource) -> (r: Result<(bool, u64), SmlError>)
    ensures
        final(source).stream() == old(source).stream(),
        (match r {
            Ok(v) => dec_tagged_float(old(source).stream(), old(source).cursor()) == Ok::<
                _,
                SmlError,
            >(((v.0, v.1 as nat), final(source).cursor() as nat)),
            Err(e) => dec_tagged_float(old(source).stream(), old(source).cursor()) == Err::<
                ((bool, nat), nat),
                _,
            >(e),
        }),
{
    match expect_tag(source, TypeTag::Float) {
        Ok(()) => (),
        Err(e) => {
            return Err(e);
        },
    }
    read_float_value(source)
}

/// Round trip, tagged float.
pub proof fn lemma_tagged_float_roundtrip(
    pre: Seq<bool>,
    double: bool,
    pattern: nat,
    post: Seq<bool>,
)
    requires
        uint_encodable(pattern),
    ensures
        dec_tagged_float(pre + enc_tagged_float(double, pattern) + post, pre.len()) == Ok::<
            _,
            SmlError,
        >(((double, pattern), pre.len() + enc_tagged_float(double, pattern).len())),
{
    let bits = pre + enc_tagged_float(double, pattern) + post;
    lemma_bits_of_uint_len(tag_code(TypeTag::Float), 5);
    assert(bits =~= pre + enc_tag(TypeTag::Float) + (enc_float_sd(double, pattern) + post));
    lemma_tag_roundtrip(pre, TypeTag::Float, enc_float_sd(double, pattern) + post);
    assert(bits =~= (pre + enc_tag(TypeTag::Float)) + enc_float_sd(double, pattern) + post);
    lemma_float_sd_roundtrip(pre + enc_tag(TypeTag::Float), double, pattern, post);
}

/// The two-level tag of an option field: the `Optional` marker, then
/// the inner type's own tag.
pub open spec fn enc_option_tag(inner: TypeTag) -> Seq<bool> {
    enc_tag(TypeTag::Optional) + enc_tag(inner)
}

/// Writes an option field's two-level tag.
pub fn write_option_tag(sink: &mut BitSink, inner: TypeTag)
    ensures
        final(sink)@ == old(sink)@ + enc_option_tag(inner),
{
    write_tag(sink, TypeTag::Optional);
    write_tag(sink, inner);
    proof {
        assert(sink@ =~= old(sink)@ + enc_option_tag(inner));
    }
}

/// The wire form of an optional `u8`: a presence boolean as a full
/// tagged value, then, when present, the tagged inner value.
pub open spec fn enc_option_u8(v: Option<u8>) -> Seq<bool> {
    match v {
        None => enc_tagged_bool(false),
        Some(x) => enc_tagged_bool(true) + enc_tagged_u8(x),
    }
}

/// Reading an optional `u8` from position `p`.
pub open spec fn dec_option_u8(bits: Seq<bool>, p: nat) -> Result<(Option<u8>, nat), SmlError> {
    match dec_tagged_bool(bits, p) {
        Ok((present, q)) => if present {
            match dec_tagged_u8(bits, q) {
                Ok((x, q2)) => Ok((Some(x), q2)),
                Err(e) => Err(e),
            }
        } else {
            Ok((None, q))
        },
        Err(e) => Err(e),
    }
}

/// Writes an optional `u8`: presence, then the value when present.
pub fn write_option_u8(sink: &mut BitSink, value: Option<u8>)
    ensures
        final(sink)@ == old(sink)@ + enc_option_u8(value),
{
    match value {
        Some(x) => {
            write_bool(sink, true);
            write_u8(sink, x);
            proof {
                assert(sink@ =~= old(sink)@ + enc_option_u8(value));
            }
        },
        None => {
            write_bool(sink, false);
        },
    }
}

/// Reads an optional `u8`.
pub fn read_option_u8(source: &mut BitSource) -> (r: Result<Option<u8>, SmlError>)
    ensures
        final(source).stream() == old(source).stream(),
        (match r {
            Ok(v) => dec_option_u8(old(source).stream(), old(source).cursor()) == Ok::<
                _,
                SmlError,
            >((v, final(source).cursor() as nat)),
            Err(e) => dec_option_u8(old(source).stream(), old(source).cursor()) == Err::<
                (Option<u8>, nat),
                _,
            >(e),
        }),
{
    let present = match read_bool(source) {
        Ok(v) => v,
        Err(e) => {
            return Err(e);
        },
    };
    if present {
        match read_u8(source) {
            Ok(x) => Ok(Some(x)),
            Err(e) => Err(e),
        }
    } else {
        Ok(None)
    }
}

/// Round trip, optional `u8`: absence is one tagged boolean, presence
/// carries the tagged value, and both decode back exactly.
pub proof fn lemma_option_u8_roundtrip(pre: Seq<bool>, v: Option<u8>, post: Seq<bool>)
    ensures
        dec_option_u8(pre + enc_option_u8(v) + post, pre.len()) == Ok::<_, SmlError>(
            (v, pre.len() + enc_option_u8(v).len()),
        ),
{
    match v {
        None => {
            lemma_tagged_bool_roundtrip(pre, false, post);
        },
        Some(x) => {
            let bits = pre + enc_option_u8(v) + post;
            assert(bits =~= pre + enc_tagged_bool(true) + (enc_tagged_u8(x) + post));
            lemma_tagged_bool_roundtrip(pre, true, enc_tagged_u8(x) + post);
            assert(bits =~= (pre + enc_tagged_bool(true)) + enc_tagged_u8(x) + post);
            lemma_tagged_u8_roundtrip(pre + enc_tagged_bool(true), x, post);
        },
    }
}

} // verus!
