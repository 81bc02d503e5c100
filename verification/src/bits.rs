//! Mathematical model of bit streams.
//!
//! A stream is a `Seq<bool>`; a numeric field of `width` bits is laid out
//! most significant bit first.  This module defines the correspondence
//! between numbers and bit sequences and proves the facts the codec needs:
//! round trips, significant-bit counts and two's-complement windows.

use vstd::prelude::*;

verus! {

/// 2 to the power `n`.
pub open spec fn pow2(n: nat) -> nat
    decreases n,
{
    if n == 0 {
        1
    } else {
        2 * pow2((n - 1) as nat)
    }
}

/// The low `width` bits of `v`, most significant first.
pub open spec fn bits_of_uint(v: nat, width: nat) -> Seq<bool>
    decreases width,
{
    if width == 0 {
        Seq::empty()
    } else {
        bits_of_uint(v / 2, (width - 1) as nat).push(v % 2 == 1)
    }
}

/// The number denoted by a bit sequence, most significant bit first.
pub open spec fn uint_of_bits(s: Seq<bool>) -> nat
    decreases s.len(),
{
    if s.len() == 0 {
        0
    } else {
        uint_of_bits(s.drop_last()) * 2 + (if s.last() {
            1nat
        } else {
            0nat
        })
    }
}

/// A run of `n` clear bits, as written by byte-alignment padding.
pub open spec fn zero_bits(n: nat) -> Seq<bool> {
    Seq::new(n, |i: int| false)
}

/// How many padding bits byte-alignment appends to a stream of length `n`.
pub open spec fn pad_len(n: nat) -> nat {
    if n % 8 == 0 {
        0
    } else {
        (8 - n % 8) as nat
    }
}

/// The bits of a byte sequence, each byte most significant bit first.
pub open spec fn bits_of_bytes(bs: Seq<u8>) -> Seq<bool>
    decreases bs.len(),
{
    if bs.len() == 0 {
        Seq::empty()
    } else {
        bits_of_uint(bs[0] as nat, 8) + bits_of_bytes(bs.drop_first())
    }
}

/// The number of significant binary digits of `v`; 0 for `v == 0`.
pub open spec fn sig_bits(v: nat) -> nat
    decreases v,
{
    if v == 0 {
        0
    } else {
        1 + sig_bits(v / 2)
    }
}

/// The number of 4-bit nibbles the self-describing integer codec uses for
/// `v`: at least one, and enough to cover every significant bit.
pub open spec fn nibble_count(v: nat) -> nat {
    if sig_bits(v) == 0 {
        1
    } else {
        (sig_bits(v) + 3) / 4
    }
}

/// The `w`-bit two's-complement window of the integer `x`.
pub open spec fn twos_comp(x: int, w: nat) -> nat
    recommends
        -pow2(w) <= x,
{
    if x >= 0 {
        x as nat
    } else {
        (x + pow2(w)) as nat
    }
}

pub proof fn lemma_pow2_pos(n: nat)
    ensures
        pow2(n) >= 1,
    decreases n,
{
    if n > 0 {
        lemma_pow2_pos((n - 1) as nat);
    }
}

pub proof fn lemma_pow2_mono(a: nat, b: nat)
    requires
        a <= b,
    ensures
        pow2(a) <= pow2(b),
    decreases b,
{
    if a < b {
        lemma_pow2_mono(a, (b - 1) as nat);
        lemma_pow2_pos((b - 1) as nat);
    }
}

pub proof fn lemma_pow2_adds(a: nat, b: nat)
    ensures
        pow2(a + b) == pow2(a) * pow2(b),
    decreases a,
{
    if a > 0 {
        let p = pow2((a - 1) as nat);
        let q = pow2(b);
        lemma_pow2_adds((a - 1) as nat, b);
        assert(pow2((a - 1) as nat + b) == p * q);
        assert((a + b - 1) as nat == (a - 1) as nat + b);
        assert(pow2(a + b) == 2 * pow2((a + b - 1) as nat));
        assert(pow2(a) == 2 * p);
        assert(2 * (p * q) == (2 * p) * q) by (nonlinear_arith);
        assert(pow2(a + b) == 2 * (p * q));
        assert((2 * p) * q == pow2(a) * q);
        assert(pow2(a + b) == pow2(a) * pow2(b));
    } else {
        assert(pow2(a) == 1);
        assert(a + b == b);
        assert(pow2(a + b) == pow2(a) * pow2(b));
    }
}

/// `pow2` at the machine-word sizes the codec cares about.
pub proof fn lemma_pow2_values()
    ensures
        pow2(0) == 1,
        pow2(1) == 2,
        pow2(2) == 4,
        pow2(3) == 8,
        pow2(4) == 16,
        pow2(5) == 32,
        pow2(7) == 0x80,
        pow2(8) == 0x100,
        pow2(16) == 0x10000,
        pow2(32) == 0x100000000,
        pow2(64) == 0x10000000000000000,
        pow2(127) == 0x80000000000000000000000000000000,
        pow2(128) == 0x100000000000000000000000000000000,
{
    reveal_with_fuel(pow2, 65);
    assert(pow2(64) == 0x10000000000000000);
    lemma_pow2_adds(64, 63);
    lemma_pow2_adds(64, 64);
    assert(pow2(63) * 2 == pow2(64));
}

pub proof fn lemma_bits_of_uint_single(v: nat)
    requires
        v < 2,
    ensures
        bits_of_uint(v, 1) == seq![v == 1],
{
    reveal_with_fuel(bits_of_uint, 2);
    assert(bits_of_uint(v, 1) =~= seq![v == 1]);
}

pub proof fn lemma_uint_of_bits_single(b: bool)
    ensures
        uint_of_bits(seq![b]) == (if b {
            1nat
        } else {
            0nat
        }),
{
    reveal_with_fuel(uint_of_bits, 2);
    assert(seq![b].drop_last() =~= Seq::<bool>::empty());
}

pub proof fn lemma_bits_of_uint_len(v: nat, width: nat)
    ensures
        bits_of_uint(v, width).len() == width,
    decreases width,
{
    if width > 0 {
        lemma_bits_of_uint_len(v / 2, (width - 1) as nat);
    }
}

/// Writing `v` in `width` bits and reading the field back yields `v`.
pub proof fn lemma_uint_bits_roundtrip(v: nat, width: nat)
    requires
        v < pow2(width),
    ensures
        uint_of_bits(bits_of_uint(v, width)) == v,
    decreases width,
{
    if width == 0 {
    } else {
        let rec = bits_of_uint(v / 2, (width - 1) as nat);
        lemma_bits_of_uint_len(v / 2, (width - 1) as nat);
        assert(bits_of_uint(v, width).drop_last() =~= rec);
        lemma_uint_bits_roundtrip(v / 2, (width - 1) as nat);
    }
}

/// Every `width`-bit field denotes a number below `pow2(width)`.
pub proof fn lemma_uint_of_bits_bound(s: Seq<bool>)
    ensures
        uint_of_bits(s) < pow2(s.len()),
    decreases s.len(),
{
    if s.len() > 0 {
        lemma_uint_of_bits_bound(s.drop_last());
    }
}

pub proof fn lemma_sig_bits_iff(v: nat, w: nat)
    ensures
        sig_bits(v) <= w <==> v < pow2(w),
    decreases v,
{
    if v == 0 {
        lemma_pow2_pos(w);
    } else if w == 0 {
    } else {
        lemma_sig_bits_iff(v / 2, (w - 1) as nat);
    }
}

/// The nibble field always covers every significant bit of `v`.
pub proof fn lemma_nibbles_cover(v: nat)
    ensures
        1 <= nibble_count(v),
        sig_bits(v) <= 4 * nibble_count(v),
        v < pow2(4 * nibble_count(v)),
{
    lemma_sig_bits_iff(v, 4 * nibble_count(v));
}

/// At most 8 nibbles are needed exactly for values below 2^32.
pub proof fn lemma_nibbles_le_8(v: nat)
    ensures
        nibble_count(v) <= 8 <==> v < pow2(32),
{
    lemma_sig_bits_iff(v, 32);
}

pub proof fn lemma_bits_of_bytes_len(bs: Seq<u8>)
    ensures
        bits_of_bytes(bs).len() == 8 * bs.len(),
    decreases bs.len(),
{
    if bs.len() > 0 {
        lemma_bits_of_uint_len(bs[0] as nat, 8);
        lemma_bits_of_bytes_len(bs.drop_first());
    }
}

/// Two byte sequences of equal length with the same bits are equal.
pub proof fn lemma_bits_of_bytes_injective(a: Seq<u8>, b: Seq<u8>)
    requires
        a.len() == b.len(),
        bits_of_bytes(a) == bits_of_bytes(b),
    ensures
        a == b,
    decreases a.len(),
{
    if a.len() > 0 {
        let fa = bits_of_uint(a[0] as nat, 8);
        let fb = bits_of_uint(b[0] as nat, 8);
        lemma_bits_of_uint_len(a[0] as nat, 8);
        lemma_bits_of_uint_len(b[0] as nat, 8);
        lemma_bits_of_bytes_len(a.drop_first());
        lemma_bits_of_bytes_len(b.drop_first());
        assert(fa =~= bits_of_bytes(a).subrange(0, 8));
        assert(fb =~= bits_of_bytes(b).subrange(0, 8));
        lemma_pow2_values();
        lemma_uint_bits_roundtrip(a[0] as nat, 8);
        lemma_uint_bits_roundtrip(b[0] as nat, 8);
        assert(a[0] == b[0]);
        assert(bits_of_bytes(a.drop_first()) =~= bits_of_bytes(a).subrange(
            8,
            bits_of_bytes(a).len() as int,
        ));
        assert(bits_of_bytes(b.drop_first()) =~= bits_of_bytes(b).subrange(
            8,
            bits_of_bytes(b).len() as int,
        ));
        lemma_bits_of_bytes_injective(a.drop_first(), b.drop_first());
        assert forall|i: int| 0 <= i < a.len() implies a[i] == b[i] by {
            if i > 0 {
                assert(a.drop_first()[i - 1] == b.drop_first()[i - 1]);
            }
        }
        assert(a =~= b);
    } else {
        assert(a =~= b);
    }
}

/// The bytes a whole-byte bit sequence denotes: the inverse of
/// [`bits_of_bytes`].
pub open spec fn bytes_of_bits(s: Seq<bool>) -> Seq<u8>
    recommends
        s.len() % 8 == 0,
    decreases s.len(),
{
    if s.len() < 8 {
        Seq::empty()
    } else {
        seq![uint_of_bits(s.subrange(0, 8)) as u8] + bytes_of_bits(s.skip(8))
    }
}

/// Reading bytes back out of their own bits yields the bytes.
pub proof fn lemma_bytes_of_bits_inverse(bs: Seq<u8>)
    ensures
        bytes_of_bits(bits_of_bytes(bs)) == bs,
    decreases bs.len(),
{
    lemma_bits_of_bytes_len(bs);
    if bs.len() == 0 {
        assert(bytes_of_bits(bits_of_bytes(bs)) =~= bs);
    } else {
        let s = bits_of_bytes(bs);
        lemma_bits_of_uint_len(bs[0] as nat, 8);
        lemma_bits_of_bytes_len(bs.drop_first());
        assert(s.subrange(0, 8) =~= bits_of_uint(bs[0] as nat, 8));
        lemma_pow2_values();
        lemma_uint_bits_roundtrip(bs[0] as nat, 8);
        assert(s.skip(8) =~= bits_of_bytes(bs.drop_first()));
        lemma_bytes_of_bits_inverse(bs.drop_first());
        assert(bytes_of_bits(s) =~= bs);
    }
}

/// Sign-extension undoes the two's-complement window: any integer within
/// the signed range of a `w`-bit field is recovered from its window.
pub proof fn lemma_twos_comp_roundtrip(x: int, w: nat)
    requires
        w >= 1,
        -pow2((w - 1) as nat) <= x < pow2((w - 1) as nat),
    ensures
        twos_comp(x, w) < pow2(w),
        twos_comp(x, w) >= pow2((w - 1) as nat) ==> x == twos_comp(x, w) - pow2(w),
        twos_comp(x, w) < pow2((w - 1) as nat) ==> x == twos_comp(x, w),
{
    assert(pow2(w) == 2 * pow2((w - 1) as nat));
}

/// Counts the significant bits of `value`; the executable face of
/// [`sig_bits`].
pub fn sig_bits_u128(value: u128) -> (r: u8)
    ensures
        r as nat == sig_bits(value as nat),
{
    proof {
        lemma_pow2_values();
        lemma_sig_bits_iff(value as nat, 128);
    }
    let mut x: u128 = value;
    let mut n: u8 = 0;
    while x > 0
        invariant
            n as nat + sig_bits(x as nat) == sig_bits(value as nat),
            sig_bits(value as nat) <= 128,
        decreases x,
    {
        x = x / 2;
        n = n + 1;
    }
    n
}

/// 2 to the power `w`, as a machine word.
pub fn pow2_u128(w: u8) -> (r: u128)
    requires
        w < 128,
    ensures
        r as nat == pow2(w as nat),
{
    proof {
        lemma_pow2_values();
    }
    let mut r: u128 = 1;
    let mut i: u8 = 0;
    while i < w
        invariant
            i <= w < 128,
            r as nat == pow2(i as nat),
        decreases w - i,
    {
        proof {
            lemma_pow2_values();
            lemma_pow2_mono(i as nat + 1, 127);
            assert(pow2(i as nat + 1) == 2 * pow2(i as nat));
        }
        r = r * 2;
        i = i + 1;
    }
    r
}

} // verus!
