//! Two's-complement encoding of a signed byte as eight little-endian bits,
//! and the arithmetic facts the gadgets are proved against.

use vstd::prelude::*;
use vstd::arithmetic::div_mod::{lemma_breakdown, lemma_div_denominator};

verus! {

/// Two to the power `i`, for a nonnegative exponent.
pub open spec fn p2(i: int) -> int
    decreases i,
{
    if i <= 0 {
        1
    } else {
        2 * p2(i - 1)
    }
}

/// Bit `i`, least significant first, of the nonnegative integer `n`.
pub open spec fn bit(n: int, i: int) -> bool {
    n / p2(i) % 2 == 1
}

/// The unsigned pattern of a signed byte under two's complement: the value
/// itself when nonnegative, the value plus two to the eighth otherwise.
pub open spec fn pat(v: i8) -> int {
    if v >= 0 {
        v as int
    } else {
        v as int + 256
    }
}

/// The eight-bit little-endian pattern of a signed byte.
pub open spec fn pat_bits(v: i8) -> Seq<bool> {
    Seq::new(8, |i: int| bit(pat(v), i))
}

/// The nonnegative integer denoted by little-endian bits.
pub open spec fn bits_le(s: Seq<bool>) -> int
    decreases s.len(),
{
    if s.len() == 0 {
        0
    } else {
        (if s[0] {
            1int
        } else {
            0int
        }) + 2 * bits_le(s.skip(1))
    }
}

/// The signed value denoted by eight little-endian bits read as two's
/// complement: the unsigned reading, less two to the eighth when the high
/// bit is set.
pub open spec fn decode(s: Seq<bool>) -> int
    recommends
        s.len() == 8,
{
    bits_le(s) - if s[7] {
        256int
    } else {
        0int
    }
}

pub proof fn lemma_p2_pos(i: int)
    ensures
        p2(i) >= 1,
    decreases i,
{
    if i > 0 {
        lemma_p2_pos(i - 1);
    }
}

pub proof fn lemma_p2_mono(i: int, j: int)
    requires
        i <= j,
    ensures
        p2(i) <= p2(j),
    decreases j - i,
{
    if i < j {
        lemma_p2_mono(i, j - 1);
        lemma_p2_pos(j - 1);
    }
}

/// Appending a bit on the most significant end adds it at its positional
/// weight.
pub proof fn lemma_bits_le_snoc(s: Seq<bool>, b: bool)
    ensures
        bits_le(s.push(b)) == bits_le(s) + if b {
            p2(s.len() as int)
        } else {
            0int
        },
    decreases s.len(),
{
    if s.len() == 0 {
        assert(s.push(b) =~= seq![b]);
        assert(bits_le(seq![b].skip(1)) == 0) by {
            assert(seq![b].skip(1) =~= Seq::<bool>::empty());
        }
    } else {
        assert(s.push(b).skip(1) =~= s.skip(1).push(b));
        lemma_bits_le_snoc(s.skip(1), b);
    }
}

/// Dividing off one more halving: `n / 2^i / 2 == n / 2^(i+1)`.
pub proof fn lemma_halve(n: int, i: int)
    requires
        n >= 0,
        i >= 0,
    ensures
        n / p2(i) / 2 == n / p2(i + 1),
{
    lemma_p2_pos(i);
    lemma_div_denominator(n, p2(i), 2);
    assert(p2(i) * 2 == p2(i + 1));
}

/// Bit `i + 1` of `n` is bit `i` of `n / 2`.
pub proof fn lemma_bit_shift(n: int, i: int)
    requires
        n >= 0,
        i >= 0,
    ensures
        bit(n, i + 1) == bit(n / 2, i),
{
    lemma_p2_pos(i);
    lemma_div_denominator(n, 2, p2(i));
    assert(2 * p2(i) == p2(i + 1));
}

/// Recombining the first `k` bits of `n` gives `n` back, whenever `n` fits
/// in `k` bits.
pub proof fn lemma_bits_le_of_bits(n: int, k: int)
    requires
        0 <= n < p2(k),
        k >= 0,
    ensures
        bits_le(Seq::new(k as nat, |i: int| bit(n, i))) == n,
    decreases k,
{
    let s = Seq::new(k as nat, |i: int| bit(n, i));
    if k == 0 {
        assert(s.len() == 0);
    } else {
        let t = Seq::new((k - 1) as nat, |i: int| bit(n / 2, i));
        assert forall|j: int| 0 <= j < k - 1 implies s.skip(1)[j] == t[j] by {
            lemma_bit_shift(n, j);
        }
        assert(s.skip(1) =~= t);
        assert(n / 2 < p2(k - 1)) by {
            lemma_p2_pos(k - 1);
            assert(n < 2 * p2(k - 1));
        }
        lemma_bits_le_of_bits(n / 2, k - 1);
        assert(bit(n, 0) == (n % 2 == 1));
        assert(n == n % 2 + 2 * (n / 2));
        assert(bits_le(s) == (if s[0] { 1int } else { 0int }) + 2 * bits_le(s.skip(1)));
    }
}

/// The high bit of an eight-bit pattern says whether the encoded byte is
/// negative.
pub proof fn lemma_pat_high_bit(v: i8)
    ensures
        bit(pat(v), 7) == (v < 0),
{
    reveal_with_fuel(p2, 9);
    assert(p2(7) == 128);
    assert(pat(v) / 128 == if v < 0 { 1int } else { 0int });
}

/// Round trip: the eight-bit two's-complement pattern of a signed byte
/// decodes back to that byte.
pub proof fn lemma_round_trip(v: i8)
    ensures
        decode(pat_bits(v)) == v,
{
    reveal_with_fuel(p2, 9);
    assert(p2(8) == 256);
    lemma_bits_le_of_bits(pat(v), 8);
    lemma_pat_high_bit(v);
}

/// Two signed bytes with the same eight-bit pattern are the same byte.
pub proof fn lemma_pat_bits_injective(a: i8, b: i8)
    requires
        pat_bits(a) =~= pat_bits(b),
    ensures
        a == b,
{
    lemma_round_trip(a);
    lemma_round_trip(b);
}

/// Two signed bytes have the same eight-bit pattern exactly when they are
/// the same byte.
pub proof fn lemma_pat_bits_eq_iff(a: i8, b: i8)
    ensures
        (pat_bits(a) =~= pat_bits(b)) <==> a == b,
{
    if pat_bits(a) =~= pat_bits(b) {
        lemma_pat_bits_injective(a, b);
    }
}

/// The first `k` bits of a nonnegative integer recombine to its residue
/// modulo two to the `k`.
pub proof fn lemma_bits_le_low_bits(n: int, k: int)
    requires
        n >= 0,
        k >= 0,
    ensures
        bits_le(Seq::new(k as nat, |i: int| bit(n, i))) == n % p2(k),
    decreases k,
{
    let s = Seq::new(k as nat, |i: int| bit(n, i));
    if k == 0 {
        assert(n % 1 == 0);
    } else {
        let t = Seq::new((k - 1) as nat, |i: int| bit(n / 2, i));
        assert forall|j: int| 0 <= j < k - 1 implies s.skip(1)[j] == t[j] by {
            lemma_bit_shift(n, j);
        }
        assert(s.skip(1) =~= t);
        lemma_bits_le_low_bits(n / 2, k - 1);
        lemma_p2_pos(k - 1);
        lemma_breakdown(n, 2, p2(k - 1));
        assert(2 * p2(k - 1) == p2(k));
        assert(bit(n, 0) == (n % 2 == 1));
        assert(bits_le(s) == (if s[0] { 1int } else { 0int }) + 2 * bits_le(s.skip(1)));
    }
}

/// Recombined little-endian bits lie below the matching power of two.
pub proof fn lemma_bits_le_bound(s: Seq<bool>)
    ensures
        0 <= bits_le(s) < p2(s.len() as int),
    decreases s.len(),
{
    if s.len() > 0 {
        lemma_bits_le_bound(s.skip(1));
    }
}

/// Recombine eight little-endian bits into the signed byte they denote
/// under two's complement.
pub fn decode_bits(bits: &Vec<bool>) -> (r: i8)
    requires
        bits@.len() == 8,
    ensures
        r as int == decode(bits@),
{
    let mut n: u16 = 0;
    let mut pw: u16 = 1;
    let mut i: usize = 0;
    while i < 8
        invariant
            bits@.len() == 8,
            i <= 8,
            n < pw,
            pw as int == p2(i as int),
            pw <= 256,
            n as int == bits_le(bits@.take(i as int)),
        decreases 8 - i,
    {
        proof {
            assert(bits@.take(i as int + 1) =~= bits@.take(i as int).push(bits@[i as int]));
            lemma_bits_le_snoc(bits@.take(i as int), bits@[i as int]);
            lemma_p2_mono(i as int + 1, 8);
            reveal_with_fuel(p2, 9);
        }
        if bits[i] {
            n = n + pw;
        }
        pw = pw * 2;
        i = i + 1;
    }
    proof {
        reveal_with_fuel(p2, 9);
        assert(bits@.take(8) =~= bits@);
        assert(bits@ =~= bits@.take(7).push(bits@[7]));
        lemma_bits_le_snoc(bits@.take(7), bits@[7]);
        lemma_bits_le_bound(bits@.take(7));
    }
    if n < 128 {
        n as i8
    } else {
        ((n as i16) - 256) as i8
    }
}

/// The unsigned pattern, computed: `v` itself when nonnegative, else `v`
/// plus two to the eighth.
pub fn pattern_of(v: i8) -> (r: u8)
    ensures
        r as int == pat(v),
{
    if v >= 0 {
        v as u8
    } else {
        ((v as i16) + 256) as u8
    }
}

} // verus!
