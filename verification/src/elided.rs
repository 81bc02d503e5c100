//! The schema-elided primitive codec.
//!
//! No tag and no length field: a value is exactly
//! `header.<type>_bits` bits of its native bit pattern, and the decoder
//! reads the same fixed width back, sign-extending for signed types.
//! The shared header must cover every value encoded under it; the policy
//! here is to bounds-check before writing and fail with `WidthOverflow`,
//! never to truncate silently.  A batch encoder obtains a sufficient
//! header by folding per-value minimal headers with
//! [`crate::header::SmlHeader::combine`]; `lemma_header_sufficiency_u64`
//! and `lemma_header_sufficiency_i64` prove that this always suffices.

use crate::bits::{bits_of_uint, lemma_bits_of_uint_len, lemma_pow2_mono, lemma_pow2_values,
    lemma_sig_bits_iff, lemma_twos_comp_roundtrip, lemma_uint_bits_roundtrip,
    lemma_uint_of_bits_bound, pow2, pow2_u128, sig_bits, sig_bits_u128, twos_comp, uint_of_bits};
use crate::channel::{BitSink, BitSource};
use crate::error::SmlError;
use crate::header::{fold_combine, lemma_fold_combine_covers, min_header_i64, min_header_u64,
    SmlHeader};
use crate::value::int_mag;
use vstd::prelude::*;

verus! {

/// Whether a `w`-bit unsigned field can hold `v`.
pub open spec fn uint_fits(v: nat, w: nat) -> bool {
    sig_bits(v) <= w
}

/// Whether a `w`-bit two's-complement field can hold the integer `x`.
pub open spec fn int_fits(x: int, w: nat) -> bool {
    &&& w >= 1
    &&& -pow2((w - 1) as nat) <= x < pow2((w - 1) as nat)
}

/// The schema-elided wire form of an unsigned value: its low `w` bits.
pub open spec fn enc_elided_uint(v: nat, w: nat) -> Seq<bool>
    recommends
        uint_fits(v, w),
{
    bits_of_uint(v, w)
}

/// The schema-elided wire form of a signed value: its `w`-bit
/// two's-complement window.
pub open spec fn enc_elided_int(x: int, w: nat) -> Seq<bool>
    recommends
        int_fits(x, w),
{
    bits_of_uint(twos_comp(x, w), w)
}

/// Reading a `w`-bit unsigned field at position `p`.
pub open spec fn dec_elided_uint(bits: Seq<bool>, p: nat, w: nat) -> Result<(nat, nat), SmlError> {
    if p + w > bits.len() {
        Err(SmlError::TruncatedInput)
    } else {
        Ok((uint_of_bits(bits.subrange(p as int, (p + w) as int)), p + w))
    }
}

/// Reading a `w`-bit signed field at position `p`: the raw bits,
/// sign-extended from bit `w - 1`.
pub open spec fn dec_elided_int(bits: Seq<bool>, p: nat, w: nat) -> Result<(int, nat), SmlError> {
    if p + w > bits.len() {
        Err(SmlError::TruncatedInput)
    } else {
        let raw = uint_of_bits(bits.subrange(p as int, (p + w) as int));
        let value: int = if w >= 1 && raw >= pow2((w - 1) as nat) {
            raw - pow2(w)
        } else {
            raw as int
        };
        Ok((value, p + w))
    }
}

/// Writes `value` in exactly `width` bits, or fails with `WidthOverflow`
/// when the value's significant bits do not fit: nothing is then written.
pub fn write_elided_unsigned(sink: &mut BitSink, value: u128, width: u8) -> (r: Result<
    (),
    SmlError,
>)
    requires
        width <= 128,
    ensures
        r is Ok <==> uint_fits(value as nat, width as nat),
        r is Ok ==> final(sink)@ == old(sink)@ + enc_elided_uint(value as nat, width as nat),
        r is Err ==> final(sink)@ == old(sink)@ && r == Err::<(), SmlError>(
            SmlError::WidthOverflow,
        ),
{
    let s = sig_bits_u128(value);
    proof {
        lemma_sig_bits_iff(value as nat, width as nat);
    }
    if s > width {
        return Err(SmlError::WidthOverflow);
    }
    sink.write_bits(width as u32, value);
    Ok(())
}

/// Reads a `width`-bit unsigned field.
pub fn read_elided_unsigned(source: &mut BitSource, width: u8) -> (r: Result<u128, SmlError>)
    requires
        width <= 128,
    ensures
        final(source).stream() == old(source).stream(),
        (match r {
            Ok(v) => dec_elided_uint(old(source).stream(), old(source).cursor(), width as nat)
                == Ok::<_, SmlError>((v as nat, final(source).cursor() as nat)),
            Err(e) => dec_elided_uint(old(source).stream(), old(source).cursor(), width as nat)
                == Err::<(nat, nat), _>(e),
        }),
{
    source.read_bits(width as u32)
}

/// Writes `value` as a `width`-bit two's-complement window, or fails with
/// `WidthOverflow` when the signed range of the field cannot hold it:
/// nothing is then written.
pub fn write_elided_signed(sink: &mut BitSink, value: i128, width: u8) -> (r: Result<
    (),
    SmlError,
>)
    requires
        width <= 128,
    ensures
        r is Ok <==> int_fits(value as int, width as nat),
        r is Ok ==> final(sink)@ == old(sink)@ + enc_elided_int(value as int, width as nat),
        r is Err ==> final(sink)@ == old(sink)@ && r == Err::<(), SmlError>(
            SmlError::WidthOverflow,
        ),
{
    proof {
        lemma_pow2_values();
    }
    if width == 0 {
        return Err(SmlError::WidthOverflow);
    }
    let fits: bool = if value >= 0 {
        sig_bits_u128(value as u128) <= width - 1
    } else {
        sig_bits_u128((-(value + 1)) as u128) <= width - 1
    };
    proof {
        lemma_sig_bits_iff(int_mag(value as int) as nat, (width - 1) as nat);
        if value < 0 {
            lemma_sig_bits_iff((-(value + 1)) as nat, (width - 1) as nat);
        }
    }
    if !fits {
        return Err(SmlError::WidthOverflow);
    }
    let pattern: u128 = if value >= 0 {
        value as u128
    } else if width == 128 {
        let mag: u128 = (-(value as i128 + 1)) as u128 + 1;
        (u128::MAX - mag) + 1
    } else {
        let mag: u128 = (-(value as i128 + 1)) as u128 + 1;
        pow2_u128(width) - mag
    };
    proof {
        assert(pattern as nat == twos_comp(value as int, width as nat));
        lemma_twos_comp_roundtrip(value as int, width as nat);
        if width < 128 {
            lemma_pow2_mono(width as nat, 128);
        }
    }
    sink.write_bits(width as u32, pattern);
    Ok(())
}

/// Reads a `width`-bit signed field, sign-extending from its top bit.
pub fn read_elided_signed(source: &mut BitSource, width: u8) -> (r: Result<i128, SmlError>)
    requires
        width <= 128,
    ensures
        final(source).stream() == old(source).stream(),
        (match r {
            Ok(v) => dec_elided_int(old(source).stream(), old(source).cursor(), width as nat)
                == Ok::<_, SmlError>((v as int, final(source).cursor() as nat)),
            Err(e) => dec_elided_int(old(source).stream(), old(source).cursor(), width as nat)
                == Err::<(int, nat), _>(e),
        }),
{
    let ghost bits = old(source).stream();
    let ghost p = old(source).cursor();
    let raw = match source.read_bits(width as u32) {
        Ok(v) => v,
        Err(e) => {
            return Err(e);
        },
    };
    proof {
        lemma_pow2_values();
        lemma_uint_of_bits_bound(bits.subrange(p as int, p as int + width as int));
    }
    if width == 0 {
        return Ok(0);
    }
    let half = pow2_u128(width - 1);
    if raw < half {
        proof {
            lemma_pow2_mono((width - 1) as nat, 127);
        }
        Ok(raw as i128)
    } else if width == 128 {
        let diff = (u128::MAX - raw) + 1;
        if diff == half {
            Ok(i128::MIN)
        } else {
            Ok(-(diff as i128))
        }
    } else {
        let diff = pow2_u128(width) - raw;
        proof {
            assert(pow2(width as nat) == 2 * pow2((width - 1) as nat));
            lemma_pow2_mono((width - 1) as nat, 127);
        }
        Ok(-(diff as i128))
    }
}

/// Round trip, schema-elided unsigned value: any value whose significant
/// bits fit the declared width is read back exactly.
pub proof fn lemma_elided_uint_roundtrip(pre: Seq<bool>, v: nat, w: nat, post: Seq<bool>)
    requires
        uint_fits(v, w),
    ensures
        dec_elided_uint(pre + enc_elided_uint(v, w) + post, pre.len(), w) == Ok::<_, SmlError>(
            (v, pre.len() + w),
        ),
{
    let bits = pre + enc_elided_uint(v, w) + post;
    lemma_bits_of_uint_len(v, w);
    lemma_sig_bits_iff(v, w);
    assert(bits.subrange(pre.len() as int, (pre.len() + w) as int) =~= bits_of_uint(v, w));
    lemma_uint_bits_roundtrip(v, w);
}

/// Round trip, schema-elided signed value: any integer within the signed
/// range of the declared width is read back exactly.
pub proof fn lemma_elided_int_roundtrip(pre: Seq<bool>, x: int, w: nat, post: Seq<bool>)
    requires
        int_fits(x, w),
    ensures
        dec_elided_int(pre + enc_elided_int(x, w) + post, pre.len(), w) == Ok::<_, SmlError>(
            (x, pre.len() + w),
        ),
{
    let tc = twos_comp(x, w);
    let bits = pre + enc_elided_int(x, w) + post;
    lemma_twos_comp_roundtrip(x, w);
    lemma_bits_of_uint_len(tc, w);
    assert(bits.subrange(pre.len() as int, (pre.len() + w) as int) =~= bits_of_uint(tc, w));
    lemma_uint_bits_roundtrip(tc, w);
}

/// Header sufficiency, unsigned batch: fold the per-value minimal headers
/// of a `u64` batch with `combine`, encode each value in the resulting
/// shared `u64` width, and every one of them decodes back losslessly.
pub proof fn lemma_header_sufficiency_u64(vs: Seq<u64>, i: int, pre: Seq<bool>, post: Seq<bool>)
    requires
        0 <= i < vs.len(),
    ensures
        ({
            let h = fold_combine(vs.map_values(|v: u64| min_header_u64(v as nat)));
            let w = h.u64_bits as nat;
            dec_elided_uint(pre + enc_elided_uint(vs[i] as nat, w) + post, pre.len(), w)
                == Ok::<_, SmlError>((vs[i] as nat, pre.len() + w))
        }),
{
    let hs = vs.map_values(|v: u64| min_header_u64(v as nat));
    let h = fold_combine(hs);
    lemma_fold_combine_covers(hs, i);
    lemma_pow2_values();
    lemma_sig_bits_iff(vs[i] as nat, 64);
    assert(hs[i] == min_header_u64(vs[i] as nat));
    lemma_elided_uint_roundtrip(pre, vs[i] as nat, h.u64_bits as nat, post);
}

/// Header sufficiency, signed batch: the same, for `i64` values under the
/// folded shared `i64` width.
pub proof fn lemma_header_sufficiency_i64(vs: Seq<i64>, i: int, pre: Seq<bool>, post: Seq<bool>)
    requires
        0 <= i < vs.len(),
    ensures
        ({
            let h = fold_combine(vs.map_values(|v: i64| min_header_i64(v as int)));
            let w = h.i64_bits as nat;
            dec_elided_int(pre + enc_elided_int(vs[i] as int, w) + post, pre.len(), w)
                == Ok::<_, SmlError>((vs[i] as int, pre.len() + w))
        }),
{
    let hs = vs.map_values(|v: i64| min_header_i64(v as int));
    let h = fold_combine(hs);
    lemma_fold_combine_covers(hs, i);
    lemma_pow2_values();
    let x = vs[i] as int;
    let m = int_mag(x);
    lemma_sig_bits_iff(m, 64);
    assert(hs[i] == min_header_i64(x));
    let w0 = (sig_bits(m) + 1) as nat;
    assert(h.i64_bits as nat >= w0);
    lemma_sig_bits_iff(m, sig_bits(m));
    assert(m < pow2(sig_bits(m)));
    crate::bits::lemma_pow2_mono(sig_bits(m), (h.i64_bits - 1) as nat);
    assert(int_fits(x, h.i64_bits as nat));
    lemma_elided_int_roundtrip(pre, x, h.i64_bits as nat, post);
}


/// The per-value minimal headers of a `u64` batch.
pub open spec fn min_headers_u64(vs: Seq<u64>) -> Seq<SmlHeader> {
    vs.map_values(|v: u64| min_header_u64(v as nat))
}

/// The concatenated schema-elided encodings of a `u64` batch, each value
/// in the same shared width.
pub open spec fn enc_elided_uint_seq(vs: Seq<u64>, w: nat) -> Seq<bool>
    decreases vs.len(),
{
    if vs.len() == 0 {
        Seq::empty()
    } else {
        enc_elided_uint_seq(vs.drop_last(), w) + enc_elided_uint(vs.last() as nat, w)
    }
}

/// Reading `count` consecutive `w`-bit unsigned fields from position `p`.
pub open spec fn dec_elided_uint_seq(bits: Seq<bool>, p: nat, w: nat, count: nat) -> Result<
    (Seq<u64>, nat),
    SmlError,
>
    decreases count,
{
    if count == 0 {
        Ok((Seq::empty(), p))
    } else {
        match dec_elided_uint(bits, p, w) {
            Ok((v, q)) => if v <= u64::MAX {
                match dec_elided_uint_seq(bits, q, w, (count - 1) as nat) {
                    Ok((vs, q2)) => Ok((seq![v as u64] + vs, q2)),
                    Err(e) => Err(e),
                }
            } else {
                Err(SmlError::WidthOverflow)
            },
            Err(e) => Err(e),
        }
    }
}

/// Builds the shared header for a batch: the fold of each value's
/// minimal header, computed incrementally with `combine`.
pub fn batch_header_u64(values: &Vec<u64>) -> (r: SmlHeader)
    ensures
        r == fold_combine(min_headers_u64(values@)),
        r.wf(),
{
    let mut h = SmlHeader {
        bool_bits: 0,
        char_bits: 0,
        i8_bits: 0,
        i16_bits: 0,
        i32_bits: 0,
        i64_bits: 0,
        i128_bits: 0,
        u8_bits: 0,
        u16_bits: 0,
        u32_bits: 0,
        u64_bits: 0,
        u128_bits: 0,
    };
    proof {
        assert(min_headers_u64(values@.take(0)) =~= Seq::<SmlHeader>::empty());
    }
    let mut i: usize = 0;
    while i < values.len()
        invariant
            i <= values@.len(),
            h == fold_combine(min_headers_u64(values@.take(i as int))),
            h.wf(),
        decreases values@.len() - i,
    {
        let next = SmlHeader::min_for_u64(values[i]);
        proof {
            crate::header::lemma_combine_preserves_wf(h, next);
            let hs = min_headers_u64(values@.take(i as int + 1));
            assert(hs.drop_last() =~= min_headers_u64(values@.take(i as int)));
            assert(hs.last() == min_header_u64(values@[i as int] as nat));
        }
        h = h.combine(&next);
        i = i + 1;
    }
    proof {
        assert(values@.take(values@.len() as int) =~= values@);
    }
    h
}

/// The folded header covers every value of the batch it was built from.
pub proof fn lemma_batch_header_covers_u64(vs: Seq<u64>)
    ensures
        forall|i: int|
            0 <= i < vs.len() ==> sig_bits(#[trigger] vs[i] as nat) <= fold_combine(
                min_headers_u64(vs),
            ).u64_bits,
{
    let hs = min_headers_u64(vs);
    assert forall|i: int| 0 <= i < vs.len() implies sig_bits(#[trigger] vs[i] as nat)
        <= fold_combine(hs).u64_bits by {
        lemma_fold_combine_covers(hs, i);
        lemma_pow2_values();
        lemma_sig_bits_iff(vs[i] as nat, 64);
    }
}

/// Encodes a whole `u64` batch in one shared width.  The precondition is
/// the schema-elided contract: the header covers every value of the
/// batch, as the fold of per-value minimal headers always does
/// ([`lemma_batch_header_covers_u64`]); under it no write can overflow,
/// so the batch encoder is total.
pub fn write_u64_batch(sink: &mut BitSink, values: &Vec<u64>, header: &SmlHeader)
    requires
        header.wf(),
        forall|i: int|
            0 <= i < values@.len() ==> sig_bits(#[trigger] values@[i] as nat) <= header.u64_bits,
    ensures
        final(sink)@ == old(sink)@ + enc_elided_uint_seq(values@, header.u64_bits as nat),
{
    proof {
        assert(enc_elided_uint_seq(values@.take(0), header.u64_bits as nat) =~= Seq::<
            bool,
        >::empty());
        assert(sink@ =~= old(sink)@ + enc_elided_uint_seq(
            values@.take(0),
            header.u64_bits as nat,
        ));
    }
    let mut i: usize = 0;
    while i < values.len()
        invariant
            i <= values@.len(),
            header.wf(),
            forall|j: int|
                0 <= j < values@.len() ==> sig_bits(#[trigger] values@[j] as nat)
                    <= header.u64_bits,
            sink@ == old(sink)@ + enc_elided_uint_seq(
                values@.take(i as int),
                header.u64_bits as nat,
            ),
        decreases values@.len() - i,
    {
        let r = write_u64_elided(sink, values[i], header);
        proof {
            assert(r is Ok);
            let done = values@.take(i as int + 1);
            assert(done.drop_last() =~= values@.take(i as int));
            assert(done.last() == values@[i as int]);
            assert(sink@ =~= old(sink)@ + enc_elided_uint_seq(done, header.u64_bits as nat));
        }
        i = i + 1;
    }
    proof {
        assert(values@.take(values@.len() as int) =~= values@);
    }
}

/// Decodes a `u64` batch of known length from one shared width.
pub fn read_u64_batch(source: &mut BitSource, count: usize, header: &SmlHeader) -> (r: Result<
    Vec<u64>,
    SmlError,
>)
    requires
        header.wf(),
    ensures
        final(source).stream() == old(source).stream(),
        (match r {
            Ok(vs) => dec_elided_uint_seq(
                old(source).stream(),
                old(source).cursor(),
                header.u64_bits as nat,
                count as nat,
            ) == Ok::<_, SmlError>((vs@, final(source).cursor() as nat)),
            Err(e) => dec_elided_uint_seq(
                old(source).stream(),
                old(source).cursor(),
                header.u64_bits as nat,
                count as nat,
            ) == Err::<(Seq<u64>, nat), _>(e),
        }),
{
    let ghost bits = old(source).stream();
    let ghost p0 = old(source).cursor();
    let ghost w = header.u64_bits as nat;
    let mut acc: Vec<u64> = Vec::new();
    proof {
        match dec_elided_uint_seq(bits, p0, w, count as nat) {
            Ok(pair) => {
                assert(acc@ + pair.0 =~= pair.0);
            },
            Err(_) => {},
        }
    }
    let mut i: usize = 0;
    while i < count
        invariant
            i <= count,
            header.wf(),
            bits == old(source).stream(),
            p0 == old(source).cursor(),
            source.stream() == bits,
            w == header.u64_bits as nat,
            dec_elided_uint_seq(bits, p0, w, count as nat) == (match dec_elided_uint_seq(
                bits,
                source.cursor(),
                w,
                (count - i) as nat,
            ) {
                Ok((vs, q)) => Ok::<_, SmlError>((acc@ + vs, q)),
                Err(e) => Err::<(Seq<u64>, nat), _>(e),
            }),
        decreases count - i,
    {
        let ghost cur0 = source.cursor();
        let ghost prev = acc@;
        let v = match read_u64_elided(source, header) {
            Ok(v) => v,
            Err(e) => {
                proof {
                    assert(dec_elided_uint_seq(bits, cur0, w, (count - i) as nat)
                        == Err::<(Seq<u64>, nat), SmlError>(e));
                }
                return Err(e);
            },
        };
        acc.push(v);
        proof {
            match dec_elided_uint_seq(bits, source.cursor(), w, (count - i - 1) as nat) {
                Ok(pair) => {
                    assert(prev + (seq![v] + pair.0) =~= prev.push(v) + pair.0);
                },
                Err(_) => {},
            }
        }
        i = i + 1;
    }
    proof {
        assert(acc@ + Seq::<u64>::empty() =~= acc@);
    }
    Ok(acc)
}

/// Splitting a batch encoding at its first value.
proof fn lemma_enc_seq_first(vs: Seq<u64>, w: nat)
    requires
        vs.len() > 0,
    ensures
        enc_elided_uint_seq(vs, w) == enc_elided_uint(vs[0] as nat, w) + enc_elided_uint_seq(
            vs.drop_first(),
            w,
        ),
    decreases vs.len(),
{
    if vs.len() == 1 {
        assert(vs.drop_last() =~= Seq::<u64>::empty());
        assert(vs.drop_first() =~= Seq::<u64>::empty());
        assert(enc_elided_uint_seq(vs, w) =~= enc_elided_uint(vs[0] as nat, w)
            + enc_elided_uint_seq(vs.drop_first(), w));
    } else {
        lemma_enc_seq_first(vs.drop_last(), w);
        assert(vs.drop_last().drop_first() =~= vs.drop_first().drop_last());
        assert(vs.drop_first().last() == vs.last());
        assert(vs.drop_last()[0] == vs[0]);
        assert(enc_elided_uint_seq(vs, w) =~= enc_elided_uint(vs[0] as nat, w)
            + enc_elided_uint_seq(vs.drop_first(), w));
    }
}

/// A batch encoding is exactly one field of `w` bits per value.
pub proof fn lemma_enc_seq_len(vs: Seq<u64>, w: nat)
    ensures
        enc_elided_uint_seq(vs, w).len() == vs.len() * w,
    decreases vs.len(),
{
    if vs.len() == 0 {
    } else {
        lemma_enc_seq_len(vs.drop_last(), w);
        lemma_bits_of_uint_len(vs.last() as nat, w);
        assert((vs.len() - 1) * w + w == vs.len() * w) by (nonlinear_arith)
            requires
                vs.len() >= 1,
        ;
    }
}

/// Round trip for a whole schema-elided batch: under any width that
/// covers every value of the batch - which the folded per-value minimal
/// header always is ([`lemma_batch_header_covers_u64`]) - the batch
/// decodes back losslessly, wherever it stands in a stream.
pub proof fn lemma_u64_batch_roundtrip(pre: Seq<bool>, vs: Seq<u64>, w: nat, post: Seq<bool>)
    requires
        forall|i: int| 0 <= i < vs.len() ==> sig_bits(#[trigger] vs[i] as nat) <= w,
    ensures
        dec_elided_uint_seq(pre + enc_elided_uint_seq(vs, w) + post, pre.len(), w, vs.len())
            == Ok::<_, SmlError>((vs, pre.len() + vs.len() * w)),
    decreases vs.len(),
{
    let bits = pre + enc_elided_uint_seq(vs, w) + post;
    if vs.len() == 0 {
        assert(vs =~= Seq::<u64>::empty());
        assert(vs.len() * w == 0);
    } else {
        let head = enc_elided_uint(vs[0] as nat, w);
        let rest = vs.drop_first();
        lemma_enc_seq_first(vs, w);
        lemma_bits_of_uint_len(vs[0] as nat, w);
        lemma_enc_seq_len(rest, w);
        assert(bits =~= pre + head + (enc_elided_uint_seq(rest, w) + post));
        lemma_elided_uint_roundtrip(pre, vs[0] as nat, w, enc_elided_uint_seq(rest, w) + post);
        assert(bits =~= (pre + head) + enc_elided_uint_seq(rest, w) + post);
        lemma_u64_batch_roundtrip(pre + head, rest, w, post);
        assert(seq![vs[0]] + rest =~= vs);
        assert(w + (vs.len() - 1) * w == vs.len() * w) by (nonlinear_arith)
            requires
                vs.len() >= 1,
        ;
    }
}

/// Writes a `u8` in the header's declared `u8` width.
pub fn write_u8_elided(sink: &mut BitSink, value: u8, header: &SmlHeader) -> (r: Result<
    (),
    SmlError,
>)
    requires
        header.wf(),
    ensures
        r is Ok <==> uint_fits(value as nat, header.u8_bits as nat),
        r is Ok ==> final(sink)@ == old(sink)@ + enc_elided_uint(
            value as nat,
            header.u8_bits as nat,
        ),
        r is Err ==> final(sink)@ == old(sink)@ && r == Err::<(), SmlError>(
            SmlError::WidthOverflow,
        ),
{
    write_elided_unsigned(sink, value as u128, header.u8_bits)
}

/// Reads a `u8` from the header's declared `u8` width; a wire value
/// beyond the type's range is a `WidthOverflow`.
pub fn read_u8_elided(source: &mut BitSource, header: &SmlHeader) -> (r: Result<u8, SmlError>)
    requires
        header.wf(),
    ensures
        final(source).stream() == old(source).stream(),
        (match r {
            Ok(v) => dec_elided_uint(old(source).stream(), old(source).cursor(), header.u8_bits as nat)
                == Ok::<_, SmlError>((v as nat, final(source).cursor() as nat)),
            Err(e) => (match dec_elided_uint(
                old(source).stream(),
                old(source).cursor(),
                header.u8_bits as nat,
            ) {
                Ok((v, _)) => v > u8::MAX && e == SmlError::WidthOverflow,
                Err(e2) => e == e2,
            }),
        }),
{
    let raw = match read_elided_unsigned(source, header.u8_bits) {
        Ok(v) => v,
        Err(e) => {
            return Err(e);
        },
    };
    if raw > u8::MAX as u128 {
        return Err(SmlError::WidthOverflow);
    }
    Ok(raw as u8)
}

/// Writes a `u16` in the header's declared `u16` width.
pub fn write_u16_elided(sink: &mut BitSink, value: u16, header: &SmlHeader) -> (r: Result<
    (),
    SmlError,
>)
    requires
        header.wf(),
    ensures
        r is Ok <==> uint_fits(value as nat, header.u16_bits as nat),
        r is Ok ==> final(sink)@ == old(sink)@ + enc_elided_uint(
            value as nat,
            header.u16_bits as nat,
        ),
        r is Err ==> final(sink)@ == old(sink)@ && r == Err::<(), SmlError>(
            SmlError::WidthOverflow,
        ),
{
    write_elided_unsigned(sink, value as u128, header.u16_bits)
}

/// Reads a `u16` from the header's declared `u16` width; a wire value
/// beyond the type's range is a `WidthOverflow`.
pub fn read_u16_elided(source: &mut BitSource, header: &SmlHeader) -> (r: Result<u16, SmlError>)
    requires
        header.wf(),
    ensures
        final(source).stream() == old(source).stream(),
        (match r {
            Ok(v) => dec_elided_uint(old(source).stream(), old(source).cursor(), header.u16_bits as nat)
                == Ok::<_, SmlError>((v as nat, final(source).cursor() as nat)),
            Err(e) => (match dec_elided_uint(
                old(source).stream(),
                old(source).cursor(),
                header.u16_bits as nat,
            ) {
                Ok((v, _)) => v > u16::MAX && e == SmlError::WidthOverflow,
                Err(e2) => e == e2,
            }),
        }),
{
    let raw = match read_elided_unsigned(source, header.u16_bits) {
        Ok(v) => v,
        Err(e) => {
            return Err(e);
        },
    };
    if raw > u16::MAX as u128 {
        return Err(SmlError::WidthOverflow);
    }
    Ok(raw as u16)
}

/// Writes a `u32` in the header's declared `u32` width.
pub fn write_u32_elided(sink: &mut BitSink, value: u32, header: &SmlHeader) -> (r: Result<
    (),
    SmlError,
>)
    requires
        header.wf(),
    ensures
        r is Ok <==> uint_fits(value as nat, header.u32_bits as nat),
        r is Ok ==> final(sink)@ == old(sink)@ + enc_elided_uint(
            value as nat,
            header.u32_bits as nat,
        ),
        r is Err ==> final(sink)@ == old(sink)@ && r == Err::<(), SmlError>(
            SmlError::WidthOverflow,
        ),
{
    write_elided_unsigned(sink, value as u128, header.u32_bits)
}

/// Reads a `u32` from the header's declared `u32` width; a wire value
/// beyond the type's range is a `WidthOverflow`.
pub fn read_u32_elided(source: &mut BitSource, header: &SmlHeader) -> (r: Result<u32, SmlError>)
    requires
        header.wf(),
    ensures
        final(source).stream() == old(source).stream(),
        (match r {
            Ok(v) => dec_elided_uint(old(source).stream(), old(source).cursor(), header.u32_bits as nat)
                == Ok::<_, SmlError>((v as nat, final(source).cursor() as nat)),
            Err(e) => (match dec_elided_uint(
                old(source).stream(),
                old(source).cursor(),
                header.u32_bits as nat,
            ) {
                Ok((v, _)) => v > u32::MAX && e == SmlError::WidthOverflow,
                Err(e2) => e == e2,
            }),
        }),
{
    let raw = match read_elided_unsigned(source, header.u32_bits) {
        Ok(v) => v,
        Err(e) => {
            return Err(e);
        },
    };
    if raw > u32::MAX as u128 {
        return Err(SmlError::WidthOverflow);
    }
    Ok(raw as u32)
}

/// Writes a `u64` in the header's declared `u64` width.
pub fn write_u64_elided(sink: &mut BitSink, value: u64, header: &SmlHeader) -> (r: Result<
    (),
    SmlError,
>)
    requires
        header.wf(),
    ensures
        r is Ok <==> uint_fits(value as nat, header.u64_bits as nat),
        r is Ok ==> final(sink)@ == old(sink)@ + enc_elided_uint(
            value as nat,
            header.u64_bits as nat,
        ),
        r is Err ==> final(sink)@ == old(sink)@ && r == Err::<(), SmlError>(
            SmlError::WidthOverflow,
        ),
{
    write_elided_unsigned(sink, value as u128, header.u64_bits)
}

/// Reads a `u64` from the header's declared `u64` width; a wire value
/// beyond the type's range is a `WidthOverflow`.
pub fn read_u64_elided(source: &mut BitSource, header: &SmlHeader) -> (r: Result<u64, SmlError>)
    requires
        header.wf(),
    ensures
        final(source).stream() == old(source).stream(),
        (match r {
            Ok(v) => dec_elided_uint(old(source).stream(), old(source).cursor(), header.u64_bits as nat)
                == Ok::<_, SmlError>((v as nat, final(source).cursor() as nat)),
            Err(e) => (match dec_elided_uint(
                old(source).stream(),
                old(source).cursor(),
                header.u64_bits as nat,
            ) {
                Ok((v, _)) => v > u64::MAX && e == SmlError::WidthOverflow,
                Err(e2) => e == e2,
            }),
        }),
{
    let raw = match read_elided_unsigned(source, header.u64_bits) {
        Ok(v) => v,
        Err(e) => {
            return Err(e);
        },
    };
    if raw > u64::MAX as u128 {
        return Err(SmlError::WidthOverflow);
    }
    Ok(raw as u64)
}

/// Writes a `u128` in the header's declared `u128` width.
pub fn write_u128_elided(sink: &mut BitSink, value: u128, header: &SmlHeader) -> (r: Result<
    (),
    SmlError,
>)
    requires
        header.wf(),
    ensures
        r is Ok <==> uint_fits(value as nat, header.u128_bits as nat),
        r is Ok ==> final(sink)@ == old(sink)@ + enc_elided_uint(
            value as nat,
            header.u128_bits as nat,
        ),
        r is Err ==> final(sink)@ == old(sink)@ && r == Err::<(), SmlError>(
            SmlError::WidthOverflow,
        ),
{
    write_elided_unsigned(sink, value as u128, header.u128_bits)
}

/// Reads a `u128` from the header's declared `u128` width; a wire value
/// beyond the type's range is a `WidthOverflow`.
pub fn read_u128_elided(source: &mut BitSource, header: &SmlHeader) -> (r: Result<u128, SmlError>)
    requires
        header.wf(),
    ensures
        final(source).stream() == old(source).stream(),
        (match r {
            Ok(v) => dec_elided_uint(old(source).stream(), old(source).cursor(), header.u128_bits as nat)
                == Ok::<_, SmlError>((v as nat, final(source).cursor() as nat)),
            Err(e) => (match dec_elided_uint(
                old(source).stream(),
                old(source).cursor(),
                header.u128_bits as nat,
            ) {
                Ok((v, _)) => v > u128::MAX && e == SmlError::WidthOverflow,
                Err(e2) => e == e2,
            }),
        }),
{
    let raw = match read_elided_unsigned(source, header.u128_bits) {
        Ok(v) => v,
        Err(e) => {
            return Err(e);
        },
    };
    if raw > u128::MAX as u128 {
        return Err(SmlError::WidthOverflow);
    }
    Ok(raw as u128)
}

/// Writes an `i8` in the header's declared `i8` width.
pub fn write_i8_elided(sink: &mut BitSink, value: i8, header: &SmlHeader) -> (r: Result<
    (),
    SmlError,
>)
    requires
        header.wf(),
    ensures
        r is Ok <==> int_fits(value as int, header.i8_bits as nat),
        r is Ok ==> final(sink)@ == old(sink)@ + enc_elided_int(
            value as int,
            header.i8_bits as nat,
        ),
        r is Err ==> final(sink)@ == old(sink)@ && r == Err::<(), SmlError>(
            SmlError::WidthOverflow,
        ),
{
    write_elided_signed(sink, value as i128, header.i8_bits)
}

/// Reads an `i8` from the header's declared `i8` width; a wire value
/// outside the type's range is a `WidthOverflow`.
pub fn read_i8_elided(source: &mut BitSource, header: &SmlHeader) -> (r: Result<i8, SmlError>)
    requires
        header.wf(),
    ensures
        final(source).stream() == old(source).stream(),
        (match r {
            Ok(v) => dec_elided_int(old(source).stream(), old(source).cursor(), header.i8_bits as nat)
                == Ok::<_, SmlError>((v as int, final(source).cursor() as nat)),
            Err(e) => (match dec_elided_int(
                old(source).stream(),
                old(source).cursor(),
                header.i8_bits as nat,
            ) {
                Ok((v, _)) => !(i8::MIN <= v <= i8::MAX) && e == SmlError::WidthOverflow,
                Err(e2) => e == e2,
            }),
        }),
{
    let raw = match read_elided_signed(source, header.i8_bits) {
        Ok(v) => v,
        Err(e) => {
            return Err(e);
        },
    };
    if raw > i8::MAX as i128 || raw < i8::MIN as i128 {
        return Err(SmlError::WidthOverflow);
    }
    Ok(raw as i8)
}

/// Writes an `i16` in the header's declared `i16` width.
pub fn write_i16_elided(sink: &mut BitSink, value: i16, header: &SmlHeader) -> (r: Result<
    (),
    SmlError,
>)
    requires
        header.wf(),
    ensures
        r is Ok <==> int_fits(value as int, header.i16_bits as nat),
        r is Ok ==> final(sink)@ == old(sink)@ + enc_elided_int(
            value as int,
            header.i16_bits as nat,
        ),
        r is Err ==> final(sink)@ == old(sink)@ && r == Err::<(), SmlError>(
            SmlError::WidthOverflow,
        ),
{
    write_elided_signed(sink, value as i128, header.i16_bits)
}

/// Reads an `i16` from the header's declared `i16` width; a wire value
/// outside the type's range is a `WidthOverflow`.
pub fn read_i16_elided(source: &mut BitSource, header: &SmlHeader) -> (r: Result<i16, SmlError>)
    requires
        header.wf(),
    ensures
        final(source).stream() == old(source).stream(),
        (match r {
            Ok(v) => dec_elided_int(old(source).stream(), old(source).cursor(), header.i16_bits as nat)
                == Ok::<_, SmlError>((v as int, final(source).cursor() as nat)),
            Err(e) => (match dec_elided_int(
                old(source).stream(),
                old(source).cursor(),
                header.i16_bits as nat,
            ) {
                Ok((v, _)) => !(i16::MIN <= v <= i16::MAX) && e == SmlError::WidthOverflow,
                Err(e2) => e == e2,
            }),
        }),
{
    let raw = match read_elided_signed(source, header.i16_bits) {
        Ok(v) => v,
        Err(e) => {
            return Err(e);
        },
    };
    if raw > i16::MAX as i128 || raw < i16::MIN as i128 {
        return Err(SmlError::WidthOverflow);
    }
    Ok(raw as i16)
}

/// Writes an `i32` in the header's declared `i32` width.
pub fn write_i32_elided(sink: &mut BitSink, value: i32, header: &SmlHeader) -> (r: Result<
    (),
    SmlError,
>)
    requires
        header.wf(),
    ensures
        r is Ok <==> int_fits(value as int, header.i32_bits as nat),
        r is Ok ==> final(sink)@ == old(sink)@ + enc_elided_int(
            value as int,
            header.i32_bits as nat,
        ),
        r is Err ==> final(sink)@ == old(sink)@ && r == Err::<(), SmlError>(
            SmlError::WidthOverflow,
        ),
{
    write_elided_signed(sink, value as i128, header.i32_bits)
}

/// Reads an `i32` from the header's declared `i32` width; a wire value
/// outside the type's range is a `WidthOverflow`.
pub fn read_i32_elided(source: &mut BitSource, header: &SmlHeader) -> (r: Result<i32, SmlError>)
    requires
        header.wf(),
    ensures
        final(source).stream() == old(source).stream(),
        (match r {
            Ok(v) => dec_elided_int(old(source).stream(), old(source).cursor(), header.i32_bits as nat)
                == Ok::<_, SmlError>((v as int, final(source).cursor() as nat)),
            Err(e) => (match dec_elided_int(
                old(source).stream(),
                old(source).cursor(),
                header.i32_bits as nat,
            ) {
                Ok((v, _)) => !(i32::MIN <= v <= i32::MAX) && e == SmlError::WidthOverflow,
                Err(e2) => e == e2,
            }),
        }),
{
    let raw = match read_elided_signed(source, header.i32_bits) {
        Ok(v) => v,
        Err(e) => {
            return Err(e);
        },
    };
    if raw > i32::MAX as i128 || raw < i32::MIN as i128 {
        return Err(SmlError::WidthOverflow);
    }
    Ok(raw as i32)
}

/// Writes an `i64` in the header's declared `i64` width.
pub fn write_i64_elided(sink: &mut BitSink, value: i64, header: &SmlHeader) -> (r: Result<
    (),
    SmlError,
>)
    requires
        header.wf(),
    ensures
        r is Ok <==> int_fits(value as int, header.i64_bits as nat),
        r is Ok ==> final(sink)@ == old(sink)@ + enc_elided_int(
            value as int,
            header.i64_bits as nat,
        ),
        r is Err ==> final(sink)@ == old(sink)@ && r == Err::<(), SmlError>(
            SmlError::WidthOverflow,
        ),
{
    write_elided_signed(sink, value as i128, header.i64_bits)
}

/// Reads an `i64` from the header's declared `i64` width; a wire value
/// outside the type's range is a `WidthOverflow`.
pub fn read_i64_elided(source: &mut BitSource, header: &SmlHeader) -> (r: Result<i64, SmlError>)
    requires
        header.wf(),
    ensures
        final(source).stream() == old(source).stream(),
        (match r {
            Ok(v) => dec_elided_int(old(source).stream(), old(source).cursor(), header.i64_bits as nat)
                == Ok::<_, SmlError>((v as int, final(source).cursor() as nat)),
            Err(e) => (match dec_elided_int(
                old(source).stream(),
                old(source).cursor(),
                header.i64_bits as nat,
            ) {
                Ok((v, _)) => !(i64::MIN <= v <= i64::MAX) && e == SmlError::WidthOverflow,
                Err(e2) => e == e2,
            }),
        }),
{
    let raw = match read_elided_signed(source, header.i64_bits) {
        Ok(v) => v,
        Err(e) => {
            return Err(e);
        },
    };
    if raw > i64::MAX as i128 || raw < i64::MIN as i128 {
        return Err(SmlError::WidthOverflow);
    }
    Ok(raw as i64)
}

/// Writes an `i128` in the header's declared `i128` width.
pub fn write_i128_elided(sink: &mut BitSink, value: i128, header: &SmlHeader) -> (r: Result<
    (),
    SmlError,
>)
    requires
        header.wf(),
    ensures
        r is Ok <==> int_fits(value as int, header.i128_bits as nat),
        r is Ok ==> final(sink)@ == old(sink)@ + enc_elided_int(
            value as int,
            header.i128_bits as nat,
        ),
        r is Err ==> final(sink)@ == old(sink)@ && r == Err::<(), SmlError>(
            SmlError::WidthOverflow,
        ),
{
    write_elided_signed(sink, value as i128, header.i128_bits)
}

/// Reads an `i128` from the header's declared `i128` width; a wire value
/// outside the type's range is a `WidthOverflow`.
pub fn read_i128_elided(source: &mut BitSource, header: &SmlHeader) -> (r: Result<i128, SmlError>)
    requires
        header.wf(),
    ensures
        final(source).stream() == old(source).stream(),
        (match r {
            Ok(v) => dec_elided_int(old(source).stream(), old(source).cursor(), header.i128_bits as nat)
                == Ok::<_, SmlError>((v as int, final(source).cursor() as nat)),
            Err(e) => (match dec_elided_int(
                old(source).stream(),
                old(source).cursor(),
                header.i128_bits as nat,
            ) {
                Ok((v, _)) => !(i128::MIN <= v <= i128::MAX) && e == SmlError::WidthOverflow,
                Err(e2) => e == e2,
            }),
        }),
{
    let raw = match read_elided_signed(source, header.i128_bits) {
        Ok(v) => v,
        Err(e) => {
            return Err(e);
        },
    };
    if raw > i128::MAX as i128 || raw < i128::MIN as i128 {
        return Err(SmlError::WidthOverflow);
    }
    Ok(raw as i128)
}

/// Writes a boolean in the header's declared boolean width (fixed at one
/// bit by every constructor of this crate).
pub fn write_bool_elided(sink: &mut BitSink, value: bool, header: &SmlHeader) -> (r: Result<
    (),
    SmlError,
>)
    requires
        header.wf(),
    ensures
        r is Ok <==> uint_fits((if value { 1nat } else { 0nat }), header.bool_bits as nat),
        r is Ok ==> final(sink)@ == old(sink)@ + enc_elided_uint(
            (if value { 1nat } else { 0nat }),
            header.bool_bits as nat,
        ),
        r is Err ==> final(sink)@ == old(sink)@ && r == Err::<(), SmlError>(
            SmlError::WidthOverflow,
        ),
{
    write_elided_unsigned(sink, if value { 1 } else { 0 }, header.bool_bits)
}

/// Reads a boolean from the header's declared boolean width: any nonzero
/// field is `true` only when it is exactly 1; other values are rejected.
pub fn read_bool_elided(source: &mut BitSource, header: &SmlHeader) -> (r: Result<bool, SmlError>)
    requires
        header.wf(),
    ensures
        final(source).stream() == old(source).stream(),
        (match r {
            Ok(v) => dec_elided_uint(old(source).stream(), old(source).cursor(), header.bool_bits as nat)
                == Ok::<_, SmlError>(((if v { 1nat } else { 0nat }), final(source).cursor() as nat)),
            Err(e) => (match dec_elided_uint(
                old(source).stream(),
                old(source).cursor(),
                header.bool_bits as nat,
            ) {
                Ok((v, _)) => v > 1 && e == SmlError::WidthOverflow,
                Err(e2) => e == e2,
            }),
        }),
{
    let raw = match read_elided_unsigned(source, header.bool_bits) {
        Ok(v) => v,
        Err(e) => {
            return Err(e);
        },
    };
    if raw > 1 {
        return Err(SmlError::WidthOverflow);
    }
    Ok(raw == 1)
}

} // verus!
