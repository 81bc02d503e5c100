//! The type tag registry: the closed vocabulary of value kinds.
//!
//! A tag is written once per value in self-describing mode and once per
//! element type in schema-elided mode.  The registry holds seventeen
//! variants, including the end-of-stream sentinel, so the tag field is
//! five bits wide: the smallest width in which every code, `EndOfStream`'s
//! sixteen included, is representable exactly once.

use crate::bits::{bits_of_uint, lemma_bits_of_uint_len, lemma_pow2_values, lemma_uint_bits_roundtrip,
    lemma_uint_of_bits_bound, pow2, uint_of_bits};
use crate::channel::{BitSink, BitSource};
use crate::error::SmlError;
use vstd::prelude::*;

verus! {

/// The width in bits of an encoded type tag.
pub const TAG_BITS: u32 = 5;

/// The shape of an encoded value.
#[derive(Clone, Copy, Debug, PartialEq, Eq, Structural)]
pub enum TypeTag {
    Bool,
    U8,
    U16,
    U32,
    U64,
    U128,
    I8,
    I16,
    I32,
    I64,
    I128,
    Char,
    Array,
    Float,
    Struct,
    Optional,
    EndOfStream,
}

/// The fixed numeric code of each tag.
pub open spec fn tag_code(t: TypeTag) -> nat {
    match t {
        TypeTag::Bool => 0,
        TypeTag::U8 => 1,
        TypeTag::U16 => 2,
        TypeTag::U32 => 3,
        TypeTag::U64 => 4,
        TypeTag::U128 => 5,
        TypeTag::I8 => 6,
        TypeTag::I16 => 7,
        TypeTag::I32 => 8,
        TypeTag::I64 => 9,
        TypeTag::I128 => 10,
        TypeTag::Char => 11,
        TypeTag::Array => 12,
        TypeTag::Float => 13,
        TypeTag::Struct => 14,
        TypeTag::Optional => 15,
        TypeTag::EndOfStream => 16,
    }
}

/// The tag a numeric code stands for, if any.
pub open spec fn tag_of_code(c: nat) -> Option<TypeTag> {
    if c == 0 {
        Some(TypeTag::Bool)
    } else if c == 1 {
        Some(TypeTag::U8)
    } else if c == 2 {
        Some(TypeTag::U16)
    } else if c == 3 {
        Some(TypeTag::U32)
    } else if c == 4 {
        Some(TypeTag::U64)
    } else if c == 5 {
        Some(TypeTag::U128)
    } else if c == 6 {
        Some(TypeTag::I8)
    } else if c == 7 {
        Some(TypeTag::I16)
    } else if c == 8 {
        Some(TypeTag::I32)
    } else if c == 9 {
        Some(TypeTag::I64)
    } else if c == 10 {
        Some(TypeTag::I128)
    } else if c == 11 {
        Some(TypeTag::Char)
    } else if c == 12 {
        Some(TypeTag::Array)
    } else if c == 13 {
        Some(TypeTag::Float)
    } else if c == 14 {
        Some(TypeTag::Struct)
    } else if c == 15 {
        Some(TypeTag::Optional)
    } else if c == 16 {
        Some(TypeTag::EndOfStream)
    } else {
        None
    }
}

/// The wire form of a tag: its code in a five-bit field.
pub open spec fn enc_tag(t: TypeTag) -> Seq<bool> {
    bits_of_uint(tag_code(t), TAG_BITS as nat)
}

/// Reading a tag from position `p` of a stream: the five-bit code, which
/// must lie inside the registry.
pub open spec fn dec_tag(bits: Seq<bool>, p: nat) -> Result<(TypeTag, nat), SmlError> {
    if p + TAG_BITS > bits.len() {
        Err(SmlError::TruncatedInput)
    } else {
        let c = uint_of_bits(bits.subrange(p as int, p + TAG_BITS));
        match tag_of_code(c) {
            Some(t) => Ok((t, p + TAG_BITS as nat)),
            None => Err(SmlError::UnknownTag),
        }
    }
}

/// Reading a tag and insisting on a particular one, as a struct field
/// decoder does.
pub open spec fn dec_expect_tag(bits: Seq<bool>, p: nat, t: TypeTag) -> Result<nat, SmlError> {
    match dec_tag(bits, p) {
        Ok((t2, q)) => if t2 == t {
            Ok(q)
        } else {
            Err(SmlError::TypeMismatch)
        },
        Err(e) => Err(e),
    }
}

/// Every code maps back to the tag it was taken from.
pub proof fn lemma_tag_code_roundtrip(t: TypeTag)
    ensures
        tag_of_code(tag_code(t)) == Some(t),
        tag_code(t) < 32,
{
}

impl TypeTag {
    /// The fixed numeric code of this tag, as a machine word.
    pub fn wire_code(&self) -> (r: u8)
        ensures
            r as nat == tag_code(*self),
    {
        match self {
            TypeTag::Bool => 0,
            TypeTag::U8 => 1,
            TypeTag::U16 => 2,
            TypeTag::U32 => 3,
            TypeTag::U64 => 4,
            TypeTag::U128 => 5,
            TypeTag::I8 => 6,
            TypeTag::I16 => 7,
            TypeTag::I32 => 8,
            TypeTag::I64 => 9,
            TypeTag::I128 => 10,
            TypeTag::Char => 11,
            TypeTag::Array => 12,
            TypeTag::Float => 13,
            TypeTag::Struct => 14,
            TypeTag::Optional => 15,
            TypeTag::EndOfStream => 16,
        }
    }
}

/// Writes `t`'s five-bit code.
pub fn write_tag(sink: &mut BitSink, t: TypeTag)
    ensures
        final(sink)@ == old(sink)@ + enc_tag(t),
{
    proof {
        lemma_pow2_values();
        lemma_tag_code_roundtrip(t);
        assert(pow2(5) == 32);
    }
    let code = t.wire_code();
    sink.write_bits(TAG_BITS, code as u128);
}

/// Reads the next five bits and returns the tag they name, or
/// `UnknownTag` for a code outside the registry.
pub fn read_tag(source: &mut BitSource) -> (r: Result<TypeTag, SmlError>)
    ensures
        final(source).stream() == old(source).stream(),
        (match r {
            Ok(t) => dec_tag(old(source).stream(), old(source).cursor()) == Ok::<_, SmlError>(
                (t, final(source).cursor() as nat),
            ),
            Err(e) => dec_tag(old(source).stream(), old(source).cursor()) == Err::<(TypeTag, nat),
                _,
            >(e),
        }),
{
    let c = match source.read_bits(TAG_BITS) {
        Ok(c) => c,
        Err(e) => {
            return Err(e);
        },
    };
    proof {
        lemma_uint_of_bits_bound(
            old(source).stream().subrange(
                old(source).cursor() as int,
                old(source).cursor() + TAG_BITS,
            ),
        );
    }
    match c {
        0 => Ok(TypeTag::Bool),
        1 => Ok(TypeTag::U8),
        2 => Ok(TypeTag::U16),
        3 => Ok(TypeTag::U32),
        4 => Ok(TypeTag::U64),
        5 => Ok(TypeTag::U128),
        6 => Ok(TypeTag::I8),
        7 => Ok(TypeTag::I16),
        8 => Ok(TypeTag::I32),
        9 => Ok(TypeTag::I64),
        10 => Ok(TypeTag::I128),
        11 => Ok(TypeTag::Char),
        12 => Ok(TypeTag::Array),
        13 => Ok(TypeTag::Float),
        14 => Ok(TypeTag::Struct),
        15 => Ok(TypeTag::Optional),
        16 => Ok(TypeTag::EndOfStream),
        _ => Err(SmlError::UnknownTag),
    }
}

/// Reads a tag and checks it against the statically expected one; any
/// other registry tag is a `TypeMismatch`.
pub fn expect_tag(source: &mut BitSource, expected: TypeTag) -> (r: Result<(), SmlError>)
    ensures
        final(source).stream() == old(source).stream(),
        (match r {
            Ok(()) => dec_expect_tag(old(source).stream(), old(source).cursor(), expected)
                == Ok::<nat, SmlError>(final(source).cursor() as nat),
            Err(e) => dec_expect_tag(old(source).stream(), old(source).cursor(), expected)
                == Err::<nat, SmlError>(e),
        }),
{
    let t = match read_tag(source) {
        Ok(t) => t,
        Err(e) => {
            return Err(e);
        },
    };
    if t.wire_code() == expected.wire_code() {
        proof {
            lemma_tag_code_roundtrip(t);
            lemma_tag_code_roundtrip(expected);
        }
        Ok(())
    } else {
        Err(SmlError::TypeMismatch)
    }
}

/// Decoding undoes encoding: a tag written at the end of any prefix is
/// read back exactly, whatever follows it.
pub proof fn lemma_tag_roundtrip(pre: Seq<bool>, t: TypeTag, post: Seq<bool>)
    ensures
        dec_tag(pre + enc_tag(t) + post, pre.len()) == Ok::<_, SmlError>(
            (t, pre.len() + TAG_BITS as nat),
        ),
{
    let bits = pre + enc_tag(t) + post;
    lemma_bits_of_uint_len(tag_code(t), 5);
    lemma_tag_code_roundtrip(t);
    lemma_pow2_values();
    assert(bits.subrange(pre.len() as int, pre.len() as int + 5) =~= enc_tag(t));
    lemma_uint_bits_roundtrip(tag_code(t), 5);
}

} // verus!
