//! The self-describing primitive codec, value part.
//!
//! A bare primitive value is laid out as its magnitude requires, not
//! as its storage width would:
//!
//! * booleans are one bit;
//! * integers are a sign flag (always clear for unsigned values), a
//!   three-bit count of payload nibbles minus one, and the value's low
//!   `nibbles * 4` bits.  Eight nibbles address at most 32 significant
//!   bits; a wider value is refused with `WidthOverflow` before anything
//!   is written;
//! * a negative value transmits its own two's-complement window, not a
//!   separated magnitude: the decoder extends the stored low bits by the
//!   sign flag, subtracting `2^(nibbles*4)` when the flag is set;
//! * floats are a one-bit precision flag (set for double precision)
//!   followed by the raw bit pattern encoded as an unsigned integer.
//!
//! Type tags are not written here; [`crate::composite`] pairs tags with
//! values.

use crate::bits::{bits_of_uint, lemma_bits_of_uint_len, lemma_nibbles_cover, lemma_nibbles_le_8,
    lemma_pow2_values, lemma_sig_bits_iff, lemma_uint_bits_roundtrip, lemma_uint_of_bits_bound,
    lemma_uint_of_bits_single, nibble_count, pow2, pow2_u128, sig_bits, sig_bits_u128, twos_comp,
    uint_of_bits};
use crate::channel::{BitSink, BitSource};
use crate::error::SmlError;
use vstd::prelude::*;

verus! {

/// The magnitude of an integer.
pub open spec fn int_mag(x: int) -> nat {
    if x >= 0 {
        x as nat
    } else {
        (-x) as nat
    }
}

/// Whether the nibble-count field can express `v` at all.
pub open spec fn uint_encodable(v: nat) -> bool {
    sig_bits(v) <= 32
}

/// Whether the nibble-count field can express the integer `x` at all.
pub open spec fn int_encodable(x: int) -> bool {
    sig_bits(int_mag(x)) <= 32
}

/// The wire form of a bare boolean: one bit.
pub open spec fn enc_bool(b: bool) -> Seq<bool> {
    seq![b]
}

/// The wire form of a bare unsigned integer: clear sign flag, nibble
/// count minus one in three bits, then the low `nibbles * 4` value bits.
pub open spec fn enc_uint_sd(v: nat) -> Seq<bool>
    recommends
        uint_encodable(v),
{
    seq![false] + bits_of_uint((nibble_count(v) - 1) as nat, 3) + bits_of_uint(
        v,
        4 * nibble_count(v),
    )
}

/// The wire form of a bare signed integer: sign flag, nibble count of the
/// magnitude minus one, then the value's own two's-complement window.
pub open spec fn enc_int_sd(x: int) -> Seq<bool>
    recommends
        int_encodable(x),
{
    seq![x < 0] + bits_of_uint((nibble_count(int_mag(x)) - 1) as nat, 3) + bits_of_uint(
        twos_comp(x, 4 * nibble_count(int_mag(x))),
        4 * nibble_count(int_mag(x)),
    )
}

/// The wire form of a bare float: precision flag, then the raw bit
/// pattern as an unsigned integer.
pub open spec fn enc_float_sd(double: bool, pattern: nat) -> Seq<bool>
    recommends
        uint_encodable(pattern),
{
    seq![double] + enc_uint_sd(pattern)
}

/// Reading a bare boolean from position `p`.
pub open spec fn dec_bool(bits: Seq<bool>, p: nat) -> Result<(bool, nat), SmlError> {
    if p + 1 > bits.len() {
        Err(SmlError::TruncatedInput)
    } else {
        Ok((uint_of_bits(bits.subrange(p as int, p as int + 1)) == 1, p + 1))
    }
}

/// Reading a bare unsigned integer from position `p`: sign flag (which
/// must be clear), nibble count, payload.
pub open spec fn dec_uint_sd(bits: Seq<bool>, p: nat) -> Result<(nat, nat), SmlError> {
    if p + 4 > bits.len() {
        Err(SmlError::TruncatedInput)
    } else {
        let s = uint_of_bits(bits.subrange(p as int, p as int + 1));
        let n = uint_of_bits(bits.subrange(p as int + 1, p as int + 4)) + 1;
        if p + 4 + 4 * n > bits.len() {
            Err(SmlError::TruncatedInput)
        } else {
            let raw = uint_of_bits(bits.subrange(p as int + 4, p as int + 4 + 4 * n));
            if s == 1 {
                Err(SmlError::TypeMismatch)
            } else {
                Ok((raw, p + 4 + 4 * n))
            }
        }
    }
}

/// Reading a bare signed integer from position `p`: the stored low bits,
/// extended by the sign flag.
pub open spec fn dec_int_sd(bits: Seq<bool>, p: nat) -> Result<(int, nat), SmlError> {
    if p + 4 > bits.len() {
        Err(SmlError::TruncatedInput)
    } else {
        let s = uint_of_bits(bits.subrange(p as int, p as int + 1));
        let n = uint_of_bits(bits.subrange(p as int + 1, p as int + 4)) + 1;
        if p + 4 + 4 * n > bits.len() {
            Err(SmlError::TruncatedInput)
        } else {
            let raw = uint_of_bits(bits.subrange(p as int + 4, p as int + 4 + 4 * n));
            let value: int = if s == 1 {
                raw - pow2(4 * n)
            } else {
                raw as int
            };
            Ok((value, p + 4 + 4 * n))
        }
    }
}

/// Reading a bare float from position `p`: precision flag, then the raw
/// bit pattern.
pub open spec fn dec_float_sd(bits: Seq<bool>, p: nat) -> Result<((bool, nat), nat), SmlError> {
    if p + 1 > bits.len() {
        Err(SmlError::TruncatedInput)
    } else {
        let double = uint_of_bits(bits.subrange(p as int, p as int + 1)) == 1;
        match dec_uint_sd(bits, p + 1) {
            Ok((pattern, q)) => Ok(((double, pattern), q)),
            Err(e) => Err(e),
        }
    }
}

/// How many nibbles the self-describing codec writes for `value`: one for
/// zero, else one per four significant bits, rounded up.
pub fn nibbles_needed(value: u64) -> (r: u8)
    ensures
        r as nat == nibble_count(value as nat),
{
    proof {
        lemma_pow2_values();
        lemma_sig_bits_iff(value as nat, 64);
    }
    let s = sig_bits_u128(value as u128);
    if s == 0 {
        1
    } else {
        (s + 3) / 4
    }
}

/// Writes a bare boolean.
pub fn write_bool_value(sink: &mut BitSink, value: bool)
    ensures
        final(sink)@ == old(sink)@ + enc_bool(value),
{
    proof {
        lemma_pow2_values();
        crate::bits::lemma_bits_of_uint_single(1);
        crate::bits::lemma_bits_of_uint_single(0);
    }
    sink.write_bits(1, if value { 1 } else { 0 });
}

/// Reads a bare boolean.
pub fn read_bool_value(source: &mut BitSource) -> (r: Result<bool, SmlError>)
    ensures
        final(source).stream() == old(source).stream(),
        (match r {
            Ok(v) => dec_bool(old(source).stream(), old(source).cursor()) == Ok::<_, SmlError>(
                (v, final(source).cursor() as nat),
            ),
            Err(e) => dec_bool(old(source).stream(), old(source).cursor()) == Err::<(bool, nat),
                _,
            >(e),
        }),
{
    match source.read_bits(1) {
        Ok(v) => Ok(v == 1),
        Err(e) => Err(e),
    }
}

/// Writes a bare unsigned integer, failing fast with `WidthOverflow` when
/// more than eight nibbles would be needed.
pub fn write_unsigned_value(sink: &mut BitSink, value: u64) -> (r: Result<(), SmlError>)
    ensures
        r is Ok <==> uint_encodable(value as nat),
        r is Ok ==> final(sink)@ == old(sink)@ + enc_uint_sd(value as nat),
        r is Err ==> final(sink)@ == old(sink)@ && r == Err::<(), SmlError>(
            SmlError::WidthOverflow,
        ),
{
    let n = nibbles_needed(value);
    proof {
        lemma_nibbles_le_8(value as nat);
        lemma_nibbles_cover(value as nat);
        lemma_sig_bits_iff(value as nat, 32);
        lemma_pow2_values();
    }
    if n > 8 {
        return Err(SmlError::WidthOverflow);
    }
    sink.write_bits(1, 0);
    sink.write_bits(3, (n - 1) as u128);
    sink.write_bits((4 * n) as u32, value as u128);
    proof {
        crate::bits::lemma_bits_of_uint_single(0);
        lemma_bits_of_uint_len(0, 1);
        lemma_bits_of_uint_len((n - 1) as nat, 3);
        lemma_bits_of_uint_len(value as nat, 4 * nibble_count(value as nat));
        assert(sink@ =~= old(sink)@ + enc_uint_sd(value as nat));
    }
    Ok(())
}

/// Writes a bare signed integer, failing fast with `WidthOverflow` when
/// the magnitude needs more than eight nibbles.
pub fn write_signed_value(sink: &mut BitSink, value: i64) -> (r: Result<(), SmlError>)
    ensures
        r is Ok <==> int_encodable(value as int),
        r is Ok ==> final(sink)@ == old(sink)@ + enc_int_sd(value as int),
        r is Err ==> final(sink)@ == old(sink)@ && r == Err::<(), SmlError>(
            SmlError::WidthOverflow,
        ),
{
    let mag: u64 = if value < 0 {
        (-(value as i128)) as u64
    } else {
        value as u64
    };
    assert(mag as nat == int_mag(value as int));
    let n = nibbles_needed(mag);
    proof {
        lemma_nibbles_le_8(mag as nat);
        lemma_nibbles_cover(mag as nat);
        lemma_sig_bits_iff(mag as nat, 32);
        lemma_pow2_values();
    }
    if n > 8 {
        return Err(SmlError::WidthOverflow);
    }
    write_bool_value(sink, value < 0);
    sink.write_bits(3, (n - 1) as u128);
    let width: u32 = (4 * n) as u32;
    let pattern: u128 = if value < 0 {
        let p2 = pow2_u128((4 * n) as u8);
        p2 - (mag as u128)
    } else {
        value as u128
    };
    assert(pattern as nat == twos_comp(value as int, 4 * nibble_count(mag as nat)));
    sink.write_bits(width, pattern);
    proof {
        lemma_bits_of_uint_len((n - 1) as nat, 3);
        lemma_bits_of_uint_len(
            twos_comp(value as int, 4 * nibble_count(mag as nat)),
            4 * nibble_count(mag as nat),
        );
        assert(sink@ =~= old(sink)@ + enc_int_sd(value as int));
    }
    Ok(())
}

/// Reads a bare unsigned integer.
pub fn read_unsigned_value(source: &mut BitSource) -> (r: Result<u64, SmlError>)
    ensures
        final(source).stream() == old(source).stream(),
        (match r {
            Ok(v) => dec_uint_sd(old(source).stream(), old(source).cursor()) == Ok::<_, SmlError>(
                (v as nat, final(source).cursor() as nat),
            ),
            Err(e) => dec_uint_sd(old(source).stream(), old(source).cursor()) == Err::<(nat, nat),
                _,
            >(e),
        }),
{
    let ghost bits = old(source).stream();
    let ghost p = old(source).cursor();
    let s = match source.read_bits(1) {
        Ok(v) => v,
        Err(e) => {
            return Err(e);
        },
    };
    let nm1 = match source.read_bits(3) {
        Ok(v) => v,
        Err(e) => {
            return Err(e);
        },
    };
    proof {
        lemma_uint_of_bits_bound(bits.subrange(p as int + 1, p as int + 4));
        lemma_pow2_values();
    }
    let n: u32 = (nm1 as u32) + 1;
    let raw = match source.read_bits(4 * n) {
        Ok(v) => v,
        Err(e) => {
            return Err(e);
        },
    };
    proof {
        lemma_uint_of_bits_bound(bits.subrange(p as int + 4, p as int + 4 + 4 * (n as int)));
        crate::bits::lemma_pow2_mono(4 * n as nat, 32);
    }
    if s == 1 {
        Err(SmlError::TypeMismatch)
    } else {
        Ok(raw as u64)
    }
}

/// Reads a bare signed integer, extending the stored low bits by the
/// sign flag.
pub fn read_signed_value(source: &mut BitSource) -> (r: Result<i64, SmlError>)
    ensures
        final(source).stream() == old(source).stream(),
        (match r {
            Ok(v) => dec_int_sd(old(source).stream(), old(source).cursor()) == Ok::<_, SmlError>(
                (v as int, final(source).cursor() as nat),
            ),
            Err(e) => dec_int_sd(old(source).stream(), old(source).cursor()) == Err::<(int, nat),
                _,
            >(e),
        }),
{
    let ghost bits = old(source).stream();
    let ghost p = old(source).cursor();
    let s = match source.read_bits(1) {
        Ok(v) => v,
        Err(e) => {
            return Err(e);
        },
    };
    let nm1 = match source.read_bits(3) {
        Ok(v) => v,
        Err(e) => {
            return Err(e);
        },
    };
    proof {
        lemma_uint_of_bits_bound(bits.subrange(p as int + 1, p as int + 4));
        lemma_pow2_values();
    }
    let n: u32 = (nm1 as u32) + 1;
    let raw = match source.read_bits(4 * n) {
        Ok(v) => v,
        Err(e) => {
            return Err(e);
        },
    };
    proof {
        lemma_uint_of_bits_bound(bits.subrange(p as int + 4, p as int + 4 + 4 * (n as int)));
        crate::bits::lemma_pow2_mono(4 * n as nat, 32);
    }
    if s == 1 {
        let p2 = pow2_u128((4 * n) as u8);
        let diff = p2 - raw;
        Ok(-(diff as i64))
    } else {
        Ok(raw as i64)
    }
}

/// Writes a bare float given its raw bit pattern: `double` says whether
/// the pattern is a 64-bit one.  A single-precision pattern always fits;
/// a double-precision pattern beyond 32 significant bits is refused.
pub fn write_float_value(sink: &mut BitSink, double: bool, pattern: u64) -> (r: Result<
    (),
    SmlError,
>)
    requires
        !double ==> pattern < 0x100000000,
    ensures
        r is Ok <==> uint_encodable(pattern as nat),
        r is Ok ==> final(sink)@ == old(sink)@ + enc_float_sd(double, pattern as nat),
        r is Err ==> final(sink)@ == old(sink)@ && r == Err::<(), SmlError>(
            SmlError::WidthOverflow,
        ),
{
    let n = nibbles_needed(pattern);
    proof {
        lemma_nibbles_le_8(pattern as nat);
        lemma_sig_bits_iff(pattern as nat, 32);
        lemma_pow2_values();
    }
    if n > 8 {
        return Err(SmlError::WidthOverflow);
    }
    write_bool_value(sink, double);
    let r = write_unsigned_value(sink, pattern);
    proof {
        assert(r is Ok);
        assert(sink@ =~= old(sink)@ + enc_float_sd(double, pattern as nat));
    }
    Ok(())
}

/// Reads a bare float back as its precision flag and raw bit pattern.
pub fn read_float_value(source: &mut BitSource) -> (r: Result<(bool, u64), SmlError>)
    ensures
        final(source).stream() == old(source).stream(),
        (match r {
            Ok(v) => dec_float_sd(old(source).stream(), old(source).cursor()) == Ok::<
                _,
                SmlError,
            >(((v.0, v.1 as nat), final(source).cursor() as nat)),
            Err(e) => dec_float_sd(old(source).stream(), old(source).cursor()) == Err::<
                ((bool, nat), nat),
                _,
            >(e),
        }),
{
    let double = match read_bool_value(source) {
        Ok(v) => v,
        Err(e) => {
            return Err(e);
        },
    };
    match read_unsigned_value(source) {
        Ok(v) => Ok((double, v)),
        Err(e) => Err(e),
    }
}


/// Round trip, bare boolean: decoding after any prefix recovers the bit.
pub proof fn lemma_bool_value_roundtrip(pre: Seq<bool>, b: bool, post: Seq<bool>)
    ensures
        dec_bool(pre + enc_bool(b) + post, pre.len()) == Ok::<_, SmlError>(
            (b, pre.len() + 1 as nat),
        ),
{
    let bits = pre + enc_bool(b) + post;
    let p = pre.len() as int;
    assert(bits.subrange(p, p + 1) =~= seq![b]);
    lemma_uint_of_bits_single(b);
}

/// Round trip, bare unsigned integer: every value the nibble field can
/// express is decoded back exactly, wherever it stands in a stream.
pub proof fn lemma_uint_sd_roundtrip(pre: Seq<bool>, v: nat, post: Seq<bool>)
    requires
        uint_encodable(v),
    ensures
        dec_uint_sd(pre + enc_uint_sd(v) + post, pre.len()) == Ok::<_, SmlError>(
            (v, pre.len() + enc_uint_sd(v).len()),
        ),
        enc_uint_sd(v).len() == 4 + 4 * nibble_count(v),
{
    let n = nibble_count(v);
    let lenf = bits_of_uint((n - 1) as nat, 3);
    let payload = bits_of_uint(v, 4 * n);
    let enc = enc_uint_sd(v);
    let bits = pre + enc + post;
    let p = pre.len() as int;
    lemma_nibbles_cover(v);
    lemma_nibbles_le_8(v);
    lemma_pow2_values();
    lemma_bits_of_uint_len((n - 1) as nat, 3);
    lemma_bits_of_uint_len(v, 4 * n);
    assert(enc.len() == 4 + 4 * n);
    assert(bits.subrange(p, p + 1) =~= seq![false]);
    lemma_uint_of_bits_single(false);
    assert(bits.subrange(p + 1, p + 4) =~= lenf);
    lemma_uint_bits_roundtrip((n - 1) as nat, 3);
    assert(bits.subrange(p + 4, p + 4 + 4 * (n as int)) =~= payload);
    lemma_uint_bits_roundtrip(v, 4 * n);
}

/// Round trip, bare signed integer: the sign flag and the stored
/// two's-complement window recover the integer exactly.
pub proof fn lemma_int_sd_roundtrip(pre: Seq<bool>, x: int, post: Seq<bool>)
    requires
        int_encodable(x),
    ensures
        dec_int_sd(pre + enc_int_sd(x) + post, pre.len()) == Ok::<_, SmlError>(
            (x, pre.len() + enc_int_sd(x).len()),
        ),
        enc_int_sd(x).len() == 4 + 4 * nibble_count(int_mag(x)),
{
    let m = int_mag(x);
    let n = nibble_count(m);
    let tc = twos_comp(x, 4 * n);
    let lenf = bits_of_uint((n - 1) as nat, 3);
    let payload = bits_of_uint(tc, 4 * n);
    let enc = enc_int_sd(x);
    let bits = pre + enc + post;
    let p = pre.len() as int;
    lemma_nibbles_cover(m);
    lemma_nibbles_le_8(m);
    lemma_pow2_values();
    lemma_bits_of_uint_len((n - 1) as nat, 3);
    lemma_bits_of_uint_len(tc, 4 * n);
    assert(tc < pow2(4 * n));
    assert(enc.len() == 4 + 4 * n);
    assert(bits.subrange(p, p + 1) =~= seq![x < 0]);
    lemma_uint_of_bits_single(x < 0);
    assert(bits.subrange(p + 1, p + 4) =~= lenf);
    lemma_uint_bits_roundtrip((n - 1) as nat, 3);
    assert(bits.subrange(p + 4, p + 4 + 4 * (n as int)) =~= payload);
    lemma_uint_bits_roundtrip(tc, 4 * n);
}

/// Round trip, bare float: flag and raw pattern are both recovered.
pub proof fn lemma_float_sd_roundtrip(pre: Seq<bool>, double: bool, pattern: nat, post: Seq<bool>)
    requires
        uint_encodable(pattern),
    ensures
        dec_float_sd(pre + enc_float_sd(double, pattern) + post, pre.len()) == Ok::<_, SmlError>(
            ((double, pattern), pre.len() + enc_float_sd(double, pattern).len()),
        ),
{
    let enc = enc_float_sd(double, pattern);
    let bits = pre + enc + post;
    let p = pre.len() as int;
    lemma_uint_sd_roundtrip(pre + seq![double], pattern, post);
    assert(bits =~= (pre + seq![double]) + enc_uint_sd(pattern) + post);
    assert(bits.subrange(p, p + 1) =~= seq![double]);
    lemma_uint_of_bits_single(double);
}

} // verus!
