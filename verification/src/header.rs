//! The width header: the record of per-type bit-widths that schema-elided
//! encoding shares across a batch of values.
//!
//! A width of 0 for a type means "this type never appears, no bits are
//! reserved"; the boolean width is fixed at 1 and is not independently
//! configurable.  Headers merge with [`SmlHeader::combine`], the
//! elementwise maximum, which is commutative, associative and idempotent,
//! so a header for a whole batch can be computed by folding per-value
//! minimal headers in any order.
//!
//! On the wire a header is one eight-bit field per registered primitive
//! type, in registry declaration order, followed by byte-alignment
//! padding.  Eight bits is the smallest whole-byte field that can carry
//! every legal width, 0 through 128; a decoded field beyond 128 is
//! rejected as `WidthOverflow`.

use crate::bits::{bits_of_uint, lemma_bits_of_uint_len, lemma_pow2_values,
    lemma_uint_bits_roundtrip, lemma_uint_of_bits_bound, pad_len, pow2, sig_bits, uint_of_bits,
    zero_bits};
use crate::channel::{BitSink, BitSource};
use crate::error::SmlError;
use crate::value::int_mag;
use vstd::prelude::*;

verus! {

/// The width in bits of each serialized header field.
pub const WIDTH_FIELD_BITS: u32 = 8;

/// A record of the declared bit-width of every primitive type, used by
/// the schema-elided codec in place of per-value tags and length fields.
#[derive(Clone, Copy, Debug, PartialEq, Eq, Structural)]
pub struct SmlHeader {
    pub bool_bits: u8,
    pub char_bits: u8,
    pub i8_bits: u8,
    pub i16_bits: u8,
    pub i32_bits: u8,
    pub i64_bits: u8,
    pub i128_bits: u8,
    pub u8_bits: u8,
    pub u16_bits: u8,
    pub u32_bits: u8,
    pub u64_bits: u8,
    pub u128_bits: u8,
}

/// The elementwise maximum of two headers.
pub open spec fn combine_spec(a: SmlHeader, b: SmlHeader) -> SmlHeader {
    SmlHeader {
        bool_bits: if a.bool_bits >= b.bool_bits {
            a.bool_bits
        } else {
            b.bool_bits
        },
        char_bits: if a.char_bits >= b.char_bits {
            a.char_bits
        } else {
            b.char_bits
        },
        i8_bits: if a.i8_bits >= b.i8_bits {
            a.i8_bits
        } else {
            b.i8_bits
        },
        i16_bits: if a.i16_bits >= b.i16_bits {
            a.i16_bits
        } else {
            b.i16_bits
        },
        i32_bits: if a.i32_bits >= b.i32_bits {
            a.i32_bits
        } else {
            b.i32_bits
        },
        i64_bits: if a.i64_bits >= b.i64_bits {
            a.i64_bits
        } else {
            b.i64_bits
        },
        i128_bits: if a.i128_bits >= b.i128_bits {
            a.i128_bits
        } else {
            b.i128_bits
        },
        u8_bits: if a.u8_bits >= b.u8_bits {
            a.u8_bits
        } else {
            b.u8_bits
        },
        u16_bits: if a.u16_bits >= b.u16_bits {
            a.u16_bits
        } else {
            b.u16_bits
        },
        u32_bits: if a.u32_bits >= b.u32_bits {
            a.u32_bits
        } else {
            b.u32_bits
        },
        u64_bits: if a.u64_bits >= b.u64_bits {
            a.u64_bits
        } else {
            b.u64_bits
        },
        u128_bits: if a.u128_bits >= b.u128_bits {
            a.u128_bits
        } else {
            b.u128_bits
        },
    }
}

/// `a` declares no more bits than `b` for any type.
pub open spec fn header_le(a: SmlHeader, b: SmlHeader) -> bool {
    &&& a.bool_bits <= b.bool_bits
    &&& a.char_bits <= b.char_bits
    &&& a.i8_bits <= b.i8_bits
    &&& a.i16_bits <= b.i16_bits
    &&& a.i32_bits <= b.i32_bits
    &&& a.i64_bits <= b.i64_bits
    &&& a.i128_bits <= b.i128_bits
    &&& a.u8_bits <= b.u8_bits
    &&& a.u16_bits <= b.u16_bits
    &&& a.u32_bits <= b.u32_bits
    &&& a.u64_bits <= b.u64_bits
    &&& a.u128_bits <= b.u128_bits
}

/// A header folded over a sequence of per-value headers, the way a batch
/// encoder accumulates the shared width declaration.
pub open spec fn fold_combine(hs: Seq<SmlHeader>) -> SmlHeader
    decreases hs.len(),
{
    if hs.len() == 0 {
        SmlHeader {
            bool_bits: 0,
            char_bits: 0,
            i8_bits: 0,
            i16_bits: 0,
            i32_bits: 0,
            i64_bits: 0,
            i128_bits: 0,
            u8_bits: 0,
            u16_bits: 0,
            u32_bits: 0,
            u64_bits: 0,
            u128_bits: 0,
        }
    } else {
        combine_spec(fold_combine(hs.drop_last()), hs.last())
    }
}

/// The wire form of a header: one eight-bit field per type, in registry
/// declaration order.
pub open spec fn enc_header(h: SmlHeader) -> Seq<bool> {
    bits_of_uint(h.bool_bits as nat, 8) + bits_of_uint(h.char_bits as nat, 8) + bits_of_uint(
        h.i8_bits as nat,
        8,
    ) + bits_of_uint(h.i16_bits as nat, 8) + bits_of_uint(h.i32_bits as nat, 8) + bits_of_uint(
        h.i64_bits as nat,
        8,
    ) + bits_of_uint(h.i128_bits as nat, 8) + bits_of_uint(h.u8_bits as nat, 8) + bits_of_uint(
        h.u16_bits as nat,
        8,
    ) + bits_of_uint(h.u32_bits as nat, 8) + bits_of_uint(h.u64_bits as nat, 8) + bits_of_uint(
        h.u128_bits as nat,
        8,
    )
}

/// Reading a header from position `p`: twelve eight-bit fields, then a
/// skip to the next byte boundary.  A field beyond 128 is not a legal
/// width and is rejected.
pub open spec fn dec_header(bits: Seq<bool>, p: nat) -> Result<(SmlHeader, nat), SmlError> {
    if p + 96 > bits.len() {
        Err(SmlError::TruncatedInput)
    } else {
        let h = SmlHeader {
            bool_bits: uint_of_bits(bits.subrange(p as int, p as int + 8)) as u8,
            char_bits: uint_of_bits(bits.subrange(p as int + 8, p as int + 16)) as u8,
            i8_bits: uint_of_bits(bits.subrange(p as int + 16, p as int + 24)) as u8,
            i16_bits: uint_of_bits(bits.subrange(p as int + 24, p as int + 32)) as u8,
            i32_bits: uint_of_bits(bits.subrange(p as int + 32, p as int + 40)) as u8,
            i64_bits: uint_of_bits(bits.subrange(p as int + 40, p as int + 48)) as u8,
            i128_bits: uint_of_bits(bits.subrange(p as int + 48, p as int + 56)) as u8,
            u8_bits: uint_of_bits(bits.subrange(p as int + 56, p as int + 64)) as u8,
            u16_bits: uint_of_bits(bits.subrange(p as int + 64, p as int + 72)) as u8,
            u32_bits: uint_of_bits(bits.subrange(p as int + 72, p as int + 80)) as u8,
            u64_bits: uint_of_bits(bits.subrange(p as int + 80, p as int + 88)) as u8,
            u128_bits: uint_of_bits(bits.subrange(p as int + 88, p as int + 96)) as u8,
        };
        if !h.wf() {
            Err(SmlError::WidthOverflow)
        } else {
            Ok((h, p + 96 + pad_len(p + 96)))
        }
    }
}

/// The minimal header for one bare unsigned 64-bit value: just enough
/// `u64` bits for its magnitude, nothing reserved for any other type.
pub open spec fn min_header_u64(v: nat) -> SmlHeader
    recommends
        v < pow2(64),
{
    SmlHeader {
        u64_bits: sig_bits(v) as u8,
        ..SmlHeader {
        bool_bits: 0,
        char_bits: 0,
        i8_bits: 0,
        i16_bits: 0,
        i32_bits: 0,
        i64_bits: 0,
        i128_bits: 0,
        u8_bits: 0,
        u16_bits: 0,
        u32_bits: 0,
        u64_bits: 0,
        u128_bits: 0,
    }
    }
}

/// The minimal header for one bare signed 64-bit value: one bit more
/// than the magnitude's significant bits, so the two's-complement window
/// always holds the sign.
pub open spec fn min_header_i64(x: int) -> SmlHeader
    recommends
        -pow2(63) <= x < pow2(63),
{
    SmlHeader {
        i64_bits: (sig_bits(int_mag(x)) + 1) as u8,
        ..SmlHeader {
        bool_bits: 0,
        char_bits: 0,
        i8_bits: 0,
        i16_bits: 0,
        i32_bits: 0,
        i64_bits: 0,
        i128_bits: 0,
        u8_bits: 0,
        u16_bits: 0,
        u32_bits: 0,
        u64_bits: 0,
        u128_bits: 0,
    }
    }
}

impl SmlHeader {
    /// Every declared width is a legal one: at most 128 bits.
    pub open spec fn wf(self) -> bool {
        &&& self.bool_bits <= 128
        &&& self.char_bits <= 128
        &&& self.i8_bits <= 128
        &&& self.i16_bits <= 128
        &&& self.i32_bits <= 128
        &&& self.i64_bits <= 128
        &&& self.i128_bits <= 128
        &&& self.u8_bits <= 128
        &&& self.u16_bits <= 128
        &&& self.u32_bits <= 128
        &&& self.u64_bits <= 128
        &&& self.u128_bits <= 128
    }

    /// Merges two headers by taking each type's larger declared width.
    pub fn combine(&self, other: &SmlHeader) -> (r: SmlHeader)
        ensures
            r == combine_spec(*self, *other),
    {
        SmlHeader {
            bool_bits: if self.bool_bits >= other.bool_bits {
                self.bool_bits
            } else {
                other.bool_bits
            },
            char_bits: if self.char_bits >= other.char_bits {
                self.char_bits
            } else {
                other.char_bits
            },
            i8_bits: if self.i8_bits >= other.i8_bits {
                self.i8_bits
            } else {
                other.i8_bits
            },
            i16_bits: if self.i16_bits >= other.i16_bits {
                self.i16_bits
            } else {
                other.i16_bits
            },
            i32_bits: if self.i32_bits >= other.i32_bits {
                self.i32_bits
            } else {
                other.i32_bits
            },
            i64_bits: if self.i64_bits >= other.i64_bits {
                self.i64_bits
            } else {
                other.i64_bits
            },
            i128_bits: if self.i128_bits >= other.i128_bits {
                self.i128_bits
            } else {
                other.i128_bits
            },
            u8_bits: if self.u8_bits >= other.u8_bits {
                self.u8_bits
            } else {
                other.u8_bits
            },
            u16_bits: if self.u16_bits >= other.u16_bits {
                self.u16_bits
            } else {
                other.u16_bits
            },
            u32_bits: if self.u32_bits >= other.u32_bits {
                self.u32_bits
            } else {
                other.u32_bits
            },
            u64_bits: if self.u64_bits >= other.u64_bits {
                self.u64_bits
            } else {
                other.u64_bits
            },
            u128_bits: if self.u128_bits >= other.u128_bits {
                self.u128_bits
            } else {
                other.u128_bits
            },
        }
    }

    /// The minimal header for one bare `u64` value: the value's
    /// significant bit count for `u64`, nothing reserved for any other
    /// type.
    pub fn min_for_u64(value: u64) -> (r: SmlHeader)
        ensures
            r == min_header_u64(value as nat),
            r.wf(),
    {
        proof {
            lemma_pow2_values();
            crate::bits::lemma_sig_bits_iff(value as nat, 64);
        }
        let width = crate::bits::sig_bits_u128(value as u128);
        SmlHeader {
            bool_bits: 0,
            char_bits: 0,
            i8_bits: 0,
            i16_bits: 0,
            i32_bits: 0,
            i64_bits: 0,
            i128_bits: 0,
            u8_bits: 0,
            u16_bits: 0,
            u32_bits: 0,
            u64_bits: width,
            u128_bits: 0,
        }
    }

    /// The minimal header for one bare `i64` value: one bit more than the
    /// magnitude's significant bits, so the two's-complement window always
    /// holds the sign.
    pub fn min_for_i64(value: i64) -> (r: SmlHeader)
        ensures
            r == min_header_i64(value as int),
            r.wf(),
    {
        let mag: u64 = if value < 0 {
            (-(value as i128)) as u64
        } else {
            value as u64
        };
        assert(mag as nat == int_mag(value as int));
        proof {
            lemma_pow2_values();
            crate::bits::lemma_sig_bits_iff(mag as nat, 64);
        }
        let width = crate::bits::sig_bits_u128(mag as u128);
        SmlHeader {
            bool_bits: 0,
            char_bits: 0,
            i8_bits: 0,
            i16_bits: 0,
            i32_bits: 0,
            i64_bits: width + 1,
            i128_bits: 0,
            u8_bits: 0,
            u16_bits: 0,
            u32_bits: 0,
            u64_bits: 0,
            u128_bits: 0,
        }
    }

    /// Serializes the header: twelve eight-bit fields in registry order,
    /// then padding to the next byte boundary.
    pub fn to_writer(&self, sink: &mut BitSink)
        ensures
            final(sink)@ == old(sink)@ + enc_header(*self) + zero_bits(
                pad_len((old(sink)@.len() + 96) as nat),
            ),
    {
        proof {
            lemma_pow2_values();
        }
        sink.write_bits(WIDTH_FIELD_BITS, self.bool_bits as u128);
        sink.write_bits(WIDTH_FIELD_BITS, self.char_bits as u128);
        sink.write_bits(WIDTH_FIELD_BITS, self.i8_bits as u128);
        sink.write_bits(WIDTH_FIELD_BITS, self.i16_bits as u128);
        sink.write_bits(WIDTH_FIELD_BITS, self.i32_bits as u128);
        sink.write_bits(WIDTH_FIELD_BITS, self.i64_bits as u128);
        sink.write_bits(WIDTH_FIELD_BITS, self.i128_bits as u128);
        sink.write_bits(WIDTH_FIELD_BITS, self.u8_bits as u128);
        sink.write_bits(WIDTH_FIELD_BITS, self.u16_bits as u128);
        sink.write_bits(WIDTH_FIELD_BITS, self.u32_bits as u128);
        sink.write_bits(WIDTH_FIELD_BITS, self.u64_bits as u128);
        sink.write_bits(WIDTH_FIELD_BITS, self.u128_bits as u128);
        proof {
            lemma_bits_of_uint_len(self.bool_bits as nat, 8);
            lemma_bits_of_uint_len(self.char_bits as nat, 8);
            lemma_bits_of_uint_len(self.i8_bits as nat, 8);
            lemma_bits_of_uint_len(self.i16_bits as nat, 8);
            lemma_bits_of_uint_len(self.i32_bits as nat, 8);
            lemma_bits_of_uint_len(self.i64_bits as nat, 8);
            lemma_bits_of_uint_len(self.i128_bits as nat, 8);
            lemma_bits_of_uint_len(self.u8_bits as nat, 8);
            lemma_bits_of_uint_len(self.u16_bits as nat, 8);
            lemma_bits_of_uint_len(self.u32_bits as nat, 8);
            lemma_bits_of_uint_len(self.u64_bits as nat, 8);
            lemma_bits_of_uint_len(self.u128_bits as nat, 8);
            assert(sink@.len() == old(sink)@.len() + 96);
        }
        sink.byte_align();
        proof {
            assert(sink@ =~= old(sink)@ + enc_header(*self) + zero_bits(
                pad_len((old(sink)@.len() + 96) as nat),
            ));
        }
    }

    /// Parses a header: twelve eight-bit fields in registry order, then a
    /// skip to the next byte boundary.
    pub fn from_reader(source: &mut BitSource) -> (r: Result<SmlHeader, SmlError>)
        ensures
            final(source).stream() == old(source).stream(),
            (match r {
                Ok(h) => dec_header(old(source).stream(), old(source).cursor()) == Ok::<
                    _,
                    SmlError,
                >((h, final(source).cursor() as nat)) && h.wf(),
                Err(e) => dec_header(old(source).stream(), old(source).cursor()) == Err::<
                    (SmlHeader, nat),
                    _,
                >(e),
            }),
    {
        let ghost bits = old(source).stream();
        let ghost p = old(source).cursor();
        proof {
            lemma_pow2_values();
        }
        let f0 = match source.read_bits(8) {
            Ok(v) => v,
            Err(e) => {
                return Err(e);
            },
        };
        proof {
            lemma_uint_of_bits_bound(bits.subrange(p as int, p as int + 8));
        }
        let f1 = match source.read_bits(8) {
            Ok(v) => v,
            Err(e) => {
                return Err(e);
            },
        };
        proof {
            lemma_uint_of_bits_bound(bits.subrange(p as int + 8, p as int + 16));
        }
        let f2 = match source.read_bits(8) {
            Ok(v) => v,
            Err(e) => {
                return Err(e);
            },
        };
        proof {
            lemma_uint_of_bits_bound(bits.subrange(p as int + 16, p as int + 24));
        }
        let f3 = match source.read_bits(8) {
            Ok(v) => v,
            Err(e) => {
                return Err(e);
            },
        };
        proof {
            lemma_uint_of_bits_bound(bits.subrange(p as int + 24, p as int + 32));
        }
        let f4 = match source.read_bits(8) {
            Ok(v) => v,
            Err(e) => {
                return Err(e);
            },
        };
        proof {
            lemma_uint_of_bits_bound(bits.subrange(p as int + 32, p as int + 40));
        }
        let f5 = match source.read_bits(8) {
            Ok(v) => v,
            Err(e) => {
                return Err(e);
            },
        };
        proof {
            lemma_uint_of_bits_bound(bits.subrange(p as int + 40, p as int + 48));
        }
        let f6 = match source.read_bits(8) {
            Ok(v) => v,
            Err(e) => {
                return Err(e);
            },
        };
        proof {
            lemma_uint_of_bits_bound(bits.subrange(p as int + 48, p as int + 56));
        }
        let f7 = match source.read_bits(8) {
            Ok(v) => v,
            Err(e) => {
                return Err(e);
            },
        };
        proof {
            lemma_uint_of_bits_bound(bits.subrange(p as int + 56, p as int + 64));
        }
        let f8 = match source.read_bits(8) {
            Ok(v) => v,
            Err(e) => {
                return Err(e);
            },
        };
        proof {
            lemma_uint_of_bits_bound(bits.subrange(p as int + 64, p as int + 72));
        }
        let f9 = match source.read_bits(8) {
            Ok(v) => v,
            Err(e) => {
                return Err(e);
            },
        };
        proof {
            lemma_uint_of_bits_bound(bits.subrange(p as int + 72, p as int + 80));
        }
        let f10 = match source.read_bits(8) {
            Ok(v) => v,
            Err(e) => {
                return Err(e);
            },
        };
        proof {
            lemma_uint_of_bits_bound(bits.subrange(p as int + 80, p as int + 88));
        }
        let f11 = match source.read_bits(8) {
            Ok(v) => v,
            Err(e) => {
                return Err(e);
            },
        };
        proof {
            lemma_uint_of_bits_bound(bits.subrange(p as int + 88, p as int + 96));
        }
        source.skip_to_byte_align();
        let h = SmlHeader {
            bool_bits: f0 as u8,
            char_bits: f1 as u8,
            i8_bits: f2 as u8,
            i16_bits: f3 as u8,
            i32_bits: f4 as u8,
            i64_bits: f5 as u8,
            i128_bits: f6 as u8,
            u8_bits: f7 as u8,
            u16_bits: f8 as u8,
            u32_bits: f9 as u8,
            u64_bits: f10 as u8,
            u128_bits: f11 as u8,
        };
        if h.bool_bits > 128 || h.char_bits > 128 || h.i8_bits > 128 || h.i16_bits > 128
            || h.i32_bits > 128 || h.i64_bits > 128 || h.i128_bits > 128 || h.u8_bits > 128
            || h.u16_bits > 128 || h.u32_bits > 128 || h.u64_bits > 128 || h.u128_bits > 128 {
            return Err(SmlError::WidthOverflow);
        }
        Ok(h)
    }
}

impl Default for SmlHeader {
    /// The header that declares every type at its full native width:
    /// one bit for booleans, a two-bit byte-length class for characters,
    /// and each integer type's storage width.
    fn default() -> (r: SmlHeader)
        ensures
            r == (SmlHeader {
                bool_bits: 1,
                char_bits: 2,
                i8_bits: 8,
                i16_bits: 16,
                i32_bits: 32,
                i64_bits: 64,
                i128_bits: 128,
                u8_bits: 8,
                u16_bits: 16,
                u32_bits: 32,
                u64_bits: 64,
                u128_bits: 128,
            }),
    {
        SmlHeader {
            bool_bits: 1,
            char_bits: 2,
            i8_bits: 8,
            i16_bits: 16,
            i32_bits: 32,
            i64_bits: 64,
            i128_bits: 128,
            u8_bits: 8,
            u16_bits: 16,
            u32_bits: 32,
            u64_bits: 64,
            u128_bits: 128,
        }
    }
}

/// Merging is commutative: `combine(a, b) == combine(b, a)`.
pub proof fn lemma_combine_commutative(a: SmlHeader, b: SmlHeader)
    ensures
        combine_spec(a, b) == combine_spec(b, a),
{
}

/// Merging is associative: `combine(a, combine(b, c)) ==
/// combine(combine(a, b), c)`.
pub proof fn lemma_combine_associative(a: SmlHeader, b: SmlHeader, c: SmlHeader)
    ensures
        combine_spec(a, combine_spec(b, c)) == combine_spec(combine_spec(a, b), c),
{
}

/// Merging two legal headers yields a legal header: the maximum of two
/// widths at most 128 is at most 128.
pub proof fn lemma_combine_preserves_wf(a: SmlHeader, b: SmlHeader)
    requires
        a.wf(),
        b.wf(),
    ensures
        combine_spec(a, b).wf(),
{
}

/// Merging is idempotent: `combine(h, h) == h`.
pub proof fn lemma_combine_idempotent(h: SmlHeader)
    ensures
        combine_spec(h, h) == h,
{
}

/// A fold of per-value headers covers every header that went into it:
/// no type's declared width ever shrinks under `combine`.
pub proof fn lemma_fold_combine_covers(hs: Seq<SmlHeader>, i: int)
    requires
        0 <= i < hs.len(),
    ensures
        header_le(hs[i], fold_combine(hs)),
    decreases hs.len(),
{
    if i < hs.len() - 1 {
        lemma_fold_combine_covers(hs.drop_last(), i);
    }
}

/// Decoding a serialized header after any prefix recovers it exactly,
/// with the cursor left at the following byte boundary.
pub proof fn lemma_header_roundtrip(pre: Seq<bool>, h: SmlHeader, post: Seq<bool>)
    requires
        h.wf(),
    ensures
        dec_header(pre + enc_header(h) + post, pre.len()) == Ok::<_, SmlError>(
            (h, pre.len() + 96 + pad_len(pre.len() + 96)),
        ),
{
    let bits = pre + enc_header(h) + post;
    let p = pre.len() as int;
    lemma_pow2_values();
    lemma_bits_of_uint_len(h.bool_bits as nat, 8);
    lemma_bits_of_uint_len(h.char_bits as nat, 8);
    lemma_bits_of_uint_len(h.i8_bits as nat, 8);
    lemma_bits_of_uint_len(h.i16_bits as nat, 8);
    lemma_bits_of_uint_len(h.i32_bits as nat, 8);
    lemma_bits_of_uint_len(h.i64_bits as nat, 8);
    lemma_bits_of_uint_len(h.i128_bits as nat, 8);
    lemma_bits_of_uint_len(h.u8_bits as nat, 8);
    lemma_bits_of_uint_len(h.u16_bits as nat, 8);
    lemma_bits_of_uint_len(h.u32_bits as nat, 8);
    lemma_bits_of_uint_len(h.u64_bits as nat, 8);
    lemma_bits_of_uint_len(h.u128_bits as nat, 8);
    assert(enc_header(h).len() == 96);
    assert(bits.subrange(p, p + 8) =~= bits_of_uint(h.bool_bits as nat, 8));
    assert(bits.subrange(p + 8, p + 16) =~= bits_of_uint(h.char_bits as nat, 8));
    assert(bits.subrange(p + 16, p + 24) =~= bits_of_uint(h.i8_bits as nat, 8));
    assert(bits.subrange(p + 24, p + 32) =~= bits_of_uint(h.i16_bits as nat, 8));
    assert(bits.subrange(p + 32, p + 40) =~= bits_of_uint(h.i32_bits as nat, 8));
    assert(bits.subrange(p + 40, p + 48) =~= bits_of_uint(h.i64_bits as nat, 8));
    assert(bits.subrange(p + 48, p + 56) =~= bits_of_uint(h.i128_bits as nat, 8));
    assert(bits.subrange(p + 56, p + 64) =~= bits_of_uint(h.u8_bits as nat, 8));
    assert(bits.subrange(p + 64, p + 72) =~= bits_of_uint(h.u16_bits as nat, 8));
    assert(bits.subrange(p + 72, p + 80) =~= bits_of_uint(h.u32_bits as nat, 8));
    assert(bits.subrange(p + 80, p + 88) =~= bits_of_uint(h.u64_bits as nat, 8));
    assert(bits.subrange(p + 88, p + 96) =~= bits_of_uint(h.u128_bits as nat, 8));
    lemma_uint_bits_roundtrip(h.bool_bits as nat, 8);
    lemma_uint_bits_roundtrip(h.char_bits as nat, 8);
    lemma_uint_bits_roundtrip(h.i8_bits as nat, 8);
    lemma_uint_bits_roundtrip(h.i16_bits as nat, 8);
    lemma_uint_bits_roundtrip(h.i32_bits as nat, 8);
    lemma_uint_bits_roundtrip(h.i64_bits as nat, 8);
    lemma_uint_bits_roundtrip(h.i128_bits as nat, 8);
    lemma_uint_bits_roundtrip(h.u8_bits as nat, 8);
    lemma_uint_bits_roundtrip(h.u16_bits as nat, 8);
    lemma_uint_bits_roundtrip(h.u32_bits as nat, 8);
    lemma_uint_bits_roundtrip(h.u64_bits as nat, 8);
    lemma_uint_bits_roundtrip(h.u128_bits as nat, 8);
}

/// A builder of width headers: unset types default to width 0, meaning
/// the type never appears; the boolean width is fixed at 1 and cannot be
/// set.  A header with every type at its native full width is
/// `SmlHeader::default()`.
#[derive(Clone, Copy, Debug, PartialEq, Eq)]
pub struct SmlHeaderBuilder {
    pub char_bits: Option<u8>,
    pub i8_bits: Option<u8>,
    pub i16_bits: Option<u8>,
    pub i32_bits: Option<u8>,
    pub i64_bits: Option<u8>,
    pub i128_bits: Option<u8>,
    pub u8_bits: Option<u8>,
    pub u16_bits: Option<u8>,
    pub u32_bits: Option<u8>,
    pub u64_bits: Option<u8>,
    pub u128_bits: Option<u8>,
}

/// The width a builder slot yields: the set width, or zero.
pub open spec fn slot_or_zero(o: Option<u8>) -> u8 {
    match o {
        Some(v) => v,
        None => 0,
    }
}

/// The header a builder state yields.
pub open spec fn build_spec(b: SmlHeaderBuilder) -> SmlHeader {
    SmlHeader {
        bool_bits: 1,
        char_bits: slot_or_zero(b.char_bits),
        i8_bits: slot_or_zero(b.i8_bits),
        i16_bits: slot_or_zero(b.i16_bits),
        i32_bits: slot_or_zero(b.i32_bits),
        i64_bits: slot_or_zero(b.i64_bits),
        i128_bits: slot_or_zero(b.i128_bits),
        u8_bits: slot_or_zero(b.u8_bits),
        u16_bits: slot_or_zero(b.u16_bits),
        u32_bits: slot_or_zero(b.u32_bits),
        u64_bits: slot_or_zero(b.u64_bits),
        u128_bits: slot_or_zero(b.u128_bits),
    }
}

impl SmlHeaderBuilder {
    /// A builder with no width set for any type.
    pub fn new() -> (r: SmlHeaderBuilder)
        ensures
            r == (SmlHeaderBuilder {
                char_bits: None,
                i8_bits: None,
                i16_bits: None,
                i32_bits: None,
                i64_bits: None,
                i128_bits: None,
                u8_bits: None,
                u16_bits: None,
                u32_bits: None,
                u64_bits: None,
                u128_bits: None,
            }),
    {
        SmlHeaderBuilder {
            char_bits: None,
            i8_bits: None,
            i16_bits: None,
            i32_bits: None,
            i64_bits: None,
            i128_bits: None,
            u8_bits: None,
            u16_bits: None,
            u32_bits: None,
            u64_bits: None,
            u128_bits: None,
        }
    }

    /// The header this builder describes: set widths as given, unset
    /// types at width 0, booleans fixed at one bit.
    pub fn build(&self) -> (r: SmlHeader)
        ensures
            r == build_spec(*self),
    {
        SmlHeader {
            bool_bits: 1,
            char_bits: match self.char_bits {
                Some(v) => v,
                None => 0,
            },
            i8_bits: match self.i8_bits {
                Some(v) => v,
                None => 0,
            },
            i16_bits: match self.i16_bits {
                Some(v) => v,
                None => 0,
            },
            i32_bits: match self.i32_bits {
                Some(v) => v,
                None => 0,
            },
            i64_bits: match self.i64_bits {
                Some(v) => v,
                None => 0,
            },
            i128_bits: match self.i128_bits {
                Some(v) => v,
                None => 0,
            },
            u8_bits: match self.u8_bits {
                Some(v) => v,
                None => 0,
            },
            u16_bits: match self.u16_bits {
                Some(v) => v,
                None => 0,
            },
            u32_bits: match self.u32_bits {
                Some(v) => v,
                None => 0,
            },
            u64_bits: match self.u64_bits {
                Some(v) => v,
                None => 0,
            },
            u128_bits: match self.u128_bits {
                Some(v) => v,
                None => 0,
            },
        }
    }

    /// Declares the character byte-length class width.
    pub fn with_char_bits(self, bits: u8) -> (r: Self)
        requires
            bits <= 128,
        ensures
            r == (SmlHeaderBuilder { char_bits: Some(bits), ..self }),
    {
        SmlHeaderBuilder { char_bits: Some(bits), ..self }
    }

    /// Declares the `i8` width.
    pub fn with_i8_bits(self, bits: u8) -> (r: Self)
        requires
            bits <= 128,
        ensures
            r == (SmlHeaderBuilder { i8_bits: Some(bits), ..self }),
    {
        SmlHeaderBuilder { i8_bits: Some(bits), ..self }
    }

    /// Declares the `i16` width.
    pub fn with_i16_bits(self, bits: u8) -> (r: Self)
        requires
            bits <= 128,
        ensures
            r == (SmlHeaderBuilder { i16_bits: Some(bits), ..self }),
    {
        SmlHeaderBuilder { i16_bits: Some(bits), ..self }
    }

    /// Declares the `i32` width.
    pub fn with_i32_bits(self, bits: u8) -> (r: Self)
        requires
            bits <= 128,
        ensures
            r == (SmlHeaderBuilder { i32_bits: Some(bits), ..self }),
    {
        SmlHeaderBuilder { i32_bits: Some(bits), ..self }
    }

    /// Declares the `i64` width.
    pub fn with_i64_bits(self, bits: u8) -> (r: Self)
        requires
            bits <= 128,
        ensures
            r == (SmlHeaderBuilder { i64_bits: Some(bits), ..self }),
    {
        SmlHeaderBuilder { i64_bits: Some(bits), ..self }
    }

    /// Declares the `i128` width.
    pub fn with_i128_bits(self, bits: u8) -> (r: Self)
        requires
            bits <= 128,
        ensures
            r == (SmlHeaderBuilder { i128_bits: Some(bits), ..self }),
    {
        SmlHeaderBuilder { i128_bits: Some(bits), ..self }
    }

    /// Declares the `u8` width.
    pub fn with_u8_bits(self, bits: u8) -> (r: Self)
        requires
            bits <= 128,
        ensures
            r == (SmlHeaderBuilder { u8_bits: Some(bits), ..self }),
    {
        SmlHeaderBuilder { u8_bits: Some(bits), ..self }
    }

    /// Declares the `u16` width.
    pub fn with_u16_bits(self, bits: u8) -> (r: Self)
        requires
            bits <= 128,
        ensures
            r == (SmlHeaderBuilder { u16_bits: Some(bits), ..self }),
    {
        SmlHeaderBuilder { u16_bits: Some(bits), ..self }
    }

    /// Declares the `u32` width.
    pub fn with_u32_bits(self, bits: u8) -> (r: Self)
        requires
            bits <= 128,
        ensures
            r == (SmlHeaderBuilder { u32_bits: Some(bits), ..self }),
    {
        SmlHeaderBuilder { u32_bits: Some(bits), ..self }
    }

    /// Declares the `u64` width.
    pub fn with_u64_bits(self, bits: u8) -> (r: Self)
        requires
            bits <= 128,
        ensures
            r == (SmlHeaderBuilder { u64_bits: Some(bits), ..self }),
    {
        SmlHeaderBuilder { u64_bits: Some(bits), ..self }
    }

    /// Declares the `u128` width.
    pub fn with_u128_bits(self, bits: u8) -> (r: Self)
        requires
            bits <= 128,
        ensures
            r == (SmlHeaderBuilder { u128_bits: Some(bits), ..self }),
    {
        SmlHeaderBuilder { u128_bits: Some(bits), ..self }
    }
}

impl Default for SmlHeaderBuilder {
    /// The same state as [`SmlHeaderBuilder::new`]: nothing set.
    fn default() -> (r: SmlHeaderBuilder)
        ensures
            r == (SmlHeaderBuilder {
                char_bits: None,
                i8_bits: None,
                i16_bits: None,
                i32_bits: None,
                i64_bits: None,
                i128_bits: None,
                u8_bits: None,
                u16_bits: None,
                u32_bits: None,
                u64_bits: None,
                u128_bits: None,
            }),
    {
        SmlHeaderBuilder::new()
    }
}

impl From<SmlHeaderBuilder> for SmlHeader {
    /// Building through `into()`: the same header as `build()`.
    fn from(builder: SmlHeaderBuilder) -> (r: SmlHeader) {
        builder.build()
    }
}

impl vstd::std_specs::convert::FromSpecImpl<SmlHeaderBuilder> for SmlHeader {
    open spec fn obeys_from_spec() -> bool {
        true
    }

    open spec fn from_spec(b: SmlHeaderBuilder) -> SmlHeader {
        build_spec(b)
    }
}

} // verus!
