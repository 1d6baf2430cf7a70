//! Numbers as sequences of bits, least significant bit first.
//!
//! The codes of a stream are written with a varying number of bits. This
//! module says what the bits of a number are, and holds the arithmetic that
//! the code types share.

use vstd::arithmetic::div_mod::{lemma_basic_div, lemma_div_denominator};
use vstd::arithmetic::power2::{
    lemma2_to64, lemma2_to64_rest, lemma_pow2_pos, lemma_pow2_strictly_increases,
    lemma_pow2_unfold, pow2,
};
use vstd::prelude::*;

verus! {

/// Bit `i` of `v`, where bit 0 is the least significant one.
pub open spec fn bit_at(v: nat, i: nat) -> bool {
    (v / pow2(i)) % 2 == 1
}

/// The `n` lowest bits of `v`, least significant first.
pub open spec fn low_bits(v: nat, n: nat) -> Seq<bool> {
    Seq::new(n, |i: int| bit_at(v, i as nat))
}

/// The number that a sequence of bits stands for, least significant first.
pub open spec fn bits_value(bits: Seq<bool>) -> nat
    decreases bits.len(),
{
    if bits.len() == 0 {
        0
    } else {
        (if bits[0] { 1nat } else { 0nat }) + 2 * bits_value(bits.skip(1))
    }
}

/// The number of bits needed to write `v`: 0 for 0, otherwise the position
/// of the highest set bit plus one.
pub open spec fn bit_length(v: nat) -> nat
    decreases v,
{
    if v == 0 {
        0
    } else {
        1 + bit_length(v / 2)
    }
}

/// The number of set bits at the low end of `v`, up to the first clear bit.
pub open spec fn trailing_ones(v: nat) -> nat
    decreases v,
{
    if v % 2 == 1 {
        1 + trailing_ones(v / 2)
    } else {
        0
    }
}

/// `n` set bits.
pub open spec fn ones(n: nat) -> Seq<bool> {
    Seq::new(n, |i: int| true)
}

/// `n` clear bits.
pub open spec fn zeros(n: nat) -> Seq<bool> {
    Seq::new(n, |i: int| false)
}

/// Bit `i + 1` of `v` is bit `i` of `v / 2`.
pub proof fn lemma_bit_at_halves(v: nat, i: nat)
    ensures
        bit_at(v, i + 1) == bit_at(v / 2, i),
        bit_at(v, 0) == (v % 2 == 1),
{
    lemma_pow2_pos(i);
    lemma_pow2_unfold(i + 1);
    lemma_div_denominator(v as int, 2, pow2(i) as int);
    lemma2_to64();
}

/// Dropping the lowest bit of `v` leaves the bits of `v / 2`.
pub proof fn lemma_low_bits_skip(v: nat, n: nat)
    requires
        n > 0,
    ensures
        low_bits(v, n)[0] == (v % 2 == 1),
        low_bits(v, n).skip(1) == low_bits(v / 2, (n - 1) as nat),
{
    lemma_bit_at_halves(v, 0);
    assert forall|i: int| 0 <= i < n - 1 implies low_bits(v, n).skip(1)[i] == low_bits(
        v / 2,
        (n - 1) as nat,
    )[i] by {
        lemma_bit_at_halves(v, i as nat);
    }
    assert(low_bits(v, n).skip(1) =~= low_bits(v / 2, (n - 1) as nat));
}

/// A number that fits in `n` bits is the value of its `n` lowest bits.
pub proof fn lemma_bits_value_low_bits(v: nat, n: nat)
    requires
        v < pow2(n),
    ensures
        bits_value(low_bits(v, n)) == v,
    decreases n,
{
    if n == 0 {
        lemma2_to64();
    } else {
        lemma_pow2_unfold(n);
        lemma_low_bits_skip(v, n);
        lemma_bits_value_low_bits(v / 2, (n - 1) as nat);
    }
}

/// The value of `n` bits is below `2^n`.
pub proof fn lemma_bits_value_bound(bits: Seq<bool>)
    ensures
        bits_value(bits) < pow2(bits.len()),
    decreases bits.len(),
{
    if bits.len() == 0 {
        lemma2_to64();
    } else {
        lemma_pow2_unfold(bits.len());
        lemma_bits_value_bound(bits.skip(1));
    }
}

/// The bits of the value of a sequence of bits are that sequence.
pub proof fn lemma_low_bits_bits_value(bits: Seq<bool>)
    ensures
        low_bits(bits_value(bits), bits.len()) == bits,
    decreases bits.len(),
{
    let v = bits_value(bits);
    if bits.len() > 0 {
        let rest = bits.skip(1);
        lemma_low_bits_bits_value(rest);
        lemma_low_bits_skip(v, bits.len());
        assert(v / 2 == bits_value(rest));
        assert forall|i: int| 0 <= i < bits.len() implies low_bits(v, bits.len())[i] == bits[i] by {
            if i > 0 {
                assert(low_bits(v, bits.len()).skip(1)[i - 1] == rest[i - 1]);
            }
        }
    }
    assert(low_bits(v, bits.len()) =~= bits);
}

/// A number needs at most `n` bits exactly when it is below `2^n`.
pub proof fn lemma_bit_length_bound(v: nat, n: nat)
    ensures
        bit_length(v) <= n <==> v < pow2(n),
    decreases n,
{
    lemma_pow2_pos(n);
    if n == 0 {
        lemma2_to64();
    } else {
        lemma_pow2_unfold(n);
        if v > 0 {
            lemma_bit_length_bound(v / 2, (n - 1) as nat);
        }
    }
}

/// The bits of a number above its length are clear.
pub proof fn lemma_bit_at_high(v: nat, m: nat, i: nat)
    requires
        v < pow2(m),
        m <= i,
    ensures
        !bit_at(v, i),
{
    if m < i {
        lemma_pow2_strictly_increases(m, i);
    }
    lemma_basic_div(v as int, pow2(i) as int);
}

/// `n` set bits stand for `2^n - 1`.
pub proof fn lemma_ones_value(n: nat)
    ensures
        bits_value(ones(n)) + 1 == pow2(n),
    decreases n,
{
    if n == 0 {
        lemma2_to64();
    } else {
        lemma_pow2_unfold(n);
        assert(ones(n).skip(1) =~= ones((n - 1) as nat));
        lemma_ones_value((n - 1) as nat);
    }
}

/// Among the numbers of `n` bits, only `2^n - 1` has `n` set bits at its low
/// end.
pub proof fn lemma_trailing_ones_full(v: nat, n: nat)
    requires
        v < pow2(n),
    ensures
        trailing_ones(v) <= n,
        trailing_ones(v) == n <==> v + 1 == pow2(n),
    decreases n,
{
    if n == 0 {
        lemma2_to64();
    } else {
        lemma_pow2_unfold(n);
        if v % 2 == 1 {
            lemma_trailing_ones_full(v / 2, (n - 1) as nat);
        }
    }
}

/// The `n` lowest bits of `v`, for `n` up to 64.
pub fn bits_of(v: u64, n: usize) -> (bits: Vec<bool>)
    requires
        n <= 64,
    ensures
        bits@ == low_bits(v as nat, n as nat),
{
    let mut bits: Vec<bool> = Vec::new();
    let mut rest: u64 = v;
    let mut i: usize = 0;
    proof {
        lemma2_to64();
    }
    while i < n
        invariant
            i <= n <= 64,
            rest as nat == (v as nat) / pow2(i as nat),
            bits@ == low_bits(v as nat, i as nat),
        decreases n - i,
    {
        proof {
            lemma_pow2_pos(i as nat);
            lemma_pow2_unfold((i + 1) as nat);
            lemma_div_denominator(v as int, pow2(i as nat) as int, 2);
            assert(pow2(i as nat) * 2 == pow2((i + 1) as nat)) by (nonlinear_arith)
                requires
                    pow2((i + 1) as nat) == 2 * pow2(i as nat),
            ;
        }
        bits.push(rest % 2 == 1);
        rest = rest / 2;
        i = i + 1;
        assert(bits@ =~= low_bits(v as nat, i as nat));
    }
    bits
}

/// The number that at most 64 bits stand for.
pub fn value_of(bits: &[bool]) -> (v: u64)
    requires
        bits@.len() <= 64,
    ensures
        v as nat == bits_value(bits@),
{
    let mut v: u64 = 0;
    let mut i: usize = bits.len();
    assert(bits@.skip(i as int) =~= Seq::<bool>::empty());
    while i > 0
        invariant
            i <= bits@.len() <= 64,
            v as nat == bits_value(bits@.skip(i as int)),
        decreases i,
    {
        i = i - 1;
        proof {
            let tail = bits@.skip(i as int);
            assert(tail.skip(1) =~= bits@.skip(i + 1));
            lemma_bits_value_bound(tail.skip(1));
            lemma_bits_value_bound(tail);
            lemma_pow2_unfold(tail.len());
            if tail.len() < 64 {
                lemma_pow2_strictly_increases(tail.len(), 64);
            }
            lemma2_to64_rest();
        }
        v = 2 * v + if bits[i] { 1 } else { 0 };
    }
    assert(bits@.skip(0) =~= bits@);
    v
}

/// The number of bits needed to write `v`.
pub fn length_of(v: u64) -> (n: usize)
    ensures
        n as nat == bit_length(v as nat),
        n <= 64,
{
    let mut n: usize = 0;
    let mut rest: u64 = v;
    proof {
        lemma2_to64_rest();
        lemma_bit_length_bound(v as nat, 64);
    }
    while rest > 0
        invariant
            n as nat + bit_length(rest as nat) == bit_length(v as nat),
            bit_length(v as nat) <= 64,
        decreases rest,
    {
        rest = rest / 2;
        n = n + 1;
    }
    n
}

/// The number of set bits at the low end of `v`.
pub fn trailing_ones_of(v: u64) -> (n: usize)
    ensures
        n as nat == trailing_ones(v as nat),
        n <= 64,
{
    let mut n: usize = 0;
    let mut rest: u64 = v;
    proof {
        lemma2_to64_rest();
        lemma_trailing_ones_full(v as nat, 64);
    }
    while rest % 2 == 1
        invariant
            n as nat + trailing_ones(rest as nat) == trailing_ones(v as nat),
            trailing_ones(v as nat) <= 64,
        decreases rest,
    {
        rest = rest / 2;
        n = n + 1;
    }
    n
}

} // verus!
