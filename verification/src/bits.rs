//! Little-endian bit strings and the integers they encode.

use vstd::arithmetic::div_mod::{
    lemma_div_denominator, lemma_fundamental_div_mod, lemma_mod_breakdown,
};
use vstd::arithmetic::power2::{
    lemma2_to64, lemma_pow2_adds, lemma_pow2_pos, lemma_pow2_unfold, pow2,
};
use vstd::bits::lemma_u64_shl_is_mul;
use vstd::prelude::*;

verus! {

/// The integer that a little-endian bit string encodes: bit `i` weighs `2^i`.
pub open spec fn le_bits_to_nat(bits: Seq<bool>) -> nat
    decreases bits.len(),
{
    if bits.len() == 0 {
        0
    } else {
        le_bits_to_nat(bits.drop_last()) + if bits.last() {
            pow2((bits.len() - 1) as nat)
        } else {
            0
        }
    }
}

/// Bit `index` of `value`.
pub open spec fn bit_of(value: nat, index: nat) -> bool {
    (value / pow2(index)) % 2 == 1
}

/// The `len` bits of `value` from bit `start` upwards, lowest first.
pub open spec fn le_bits_of(value: nat, start: nat, len: nat) -> Seq<bool> {
    Seq::new(len, |i: int| bit_of(value, (start + i) as nat))
}

/// A bit string of length `n` encodes an integer below `2^n`.
pub proof fn lemma_le_bits_bound(bits: Seq<bool>)
    ensures
        le_bits_to_nat(bits) < pow2(bits.len()),
    decreases bits.len(),
{
    if bits.len() == 0 {
        lemma2_to64();
    } else {
        lemma_le_bits_bound(bits.drop_last());
        lemma_pow2_unfold(bits.len());
    }
}

/// Splitting off the top bit of the low `n + 1` bits of `x`.
proof fn lemma_mod_pow2_step(x: nat, n: nat)
    ensures
        x % pow2(n + 1) == x % pow2(n) + (if bit_of(x, n) {
            pow2(n)
        } else {
            0
        }),
{
    lemma_pow2_pos(n);
    lemma_pow2_unfold(n + 1);
    lemma_mod_breakdown(x as int, pow2(n) as int, 2);
    assert(pow2(n + 1) == pow2(n) * 2);
    let top = (x / pow2(n)) % 2;
    assert(x % (pow2(n) * 2) == pow2(n) * top + x % pow2(n));
    if top == 1 {
        assert(pow2(n) * top == pow2(n)) by (nonlinear_arith)
            requires
                top == 1,
        ;
    } else {
        assert(pow2(n) * top == 0) by (nonlinear_arith)
            requires
                top == 0,
        ;
    }
}

/// Bit `start + i` of `value` is bit `i` of `value / 2^start`.
proof fn lemma_bit_of_shifted(value: nat, start: nat, i: nat)
    ensures
        bit_of(value / pow2(start), i) == bit_of(value, start + i),
{
    lemma_pow2_pos(start);
    lemma_pow2_pos(i);
    lemma_pow2_adds(start, i);
    lemma_div_denominator(value as int, pow2(start) as int, pow2(i) as int);
}

/// A window of the bits of `value` encodes the matching digits of `value`:
/// reading `len` bits from bit `start` gives `(value / 2^start) mod 2^len`.
pub proof fn lemma_le_bits_window(value: nat, start: nat, len: nat)
    ensures
        le_bits_to_nat(le_bits_of(value, start, len)) == (value / pow2(start)) % pow2(len),
    decreases len,
{
    let bits = le_bits_of(value, start, len);
    if len == 0 {
        lemma2_to64();
    } else {
        let shorter = (len - 1) as nat;
        lemma_le_bits_window(value, start, shorter);
        assert(bits.drop_last() =~= le_bits_of(value, start, shorter));
        assert(bits.last() == bit_of(value, start + shorter));
        lemma_bit_of_shifted(value, start, shorter);
        lemma_mod_pow2_step(value / pow2(start), shorter);
    }
}

/// Reading the low `len` bits of `value` and encoding them gives
/// `value mod 2^len`: encoding undoes the cut into bits.
pub proof fn lemma_encode_inverts_chunking(value: nat, len: nat)
    ensures
        le_bits_to_nat(le_bits_of(value, 0, len)) == value % pow2(len),
{
    lemma_le_bits_window(value, 0, len);
    lemma2_to64();
}

/// Bit `index` of the integer that a bit string encodes is the string's
/// entry at `index`.
pub proof fn lemma_bit_of_encoding(bits: Seq<bool>, index: nat)
    requires
        index < bits.len(),
    ensures
        bit_of(le_bits_to_nat(bits), index) == bits[index as int],
    decreases bits.len(),
{
    let n = (bits.len() - 1) as nat;
    let low = le_bits_to_nat(bits.drop_last());
    let value = le_bits_to_nat(bits);
    lemma_le_bits_bound(bits.drop_last());
    lemma_pow2_pos(n);
    lemma_pow2_pos(index);
    if index == n {
        if bits.last() {
            assert(value == pow2(n) * 1 + low);
            vstd::arithmetic::div_mod::lemma_fundamental_div_mod_converse(
                value as int,
                pow2(n) as int,
                1,
                low as int,
            );
        } else {
            vstd::arithmetic::div_mod::lemma_basic_div(value as int, pow2(n) as int);
        }
    } else {
        lemma_bit_of_encoding(bits.drop_last(), index);
        if bits.last() {
            // value = low + 2^n, and 2^n is a multiple of 2^(index + 1)
            let gap = (n - index) as nat;
            lemma_pow2_adds(index, gap);
            lemma_pow2_pos(gap);
            lemma_pow2_unfold(gap);
            let half = pow2((gap - 1) as nat);
            assert(pow2(gap) == 2 * half);
            assert(pow2(n) == pow2(index) * (2 * half)) by (nonlinear_arith)
                requires
                    pow2(n) == pow2(index) * pow2(gap),
                    pow2(gap) == 2 * half,
            ;
            assert(value == pow2(index) * (2 * half) + low);
            lemma_fundamental_div_mod(low as int, pow2(index) as int);
            let q = low / pow2(index);
            let r = low % pow2(index);
            assert(value == pow2(index) * (2 * half + q) + r) by (nonlinear_arith)
                requires
                    value == pow2(index) * (2 * half) + low,
                    low == pow2(index) * q + r,
            ;
            vstd::arithmetic::div_mod::lemma_fundamental_div_mod_converse(
                value as int,
                pow2(index) as int,
                (2 * half + q) as int,
                r as int,
            );
            assert(value / pow2(index) == 2 * half + q);
            assert((2 * half + q) % 2 == q % 2) by {
                vstd::arithmetic::div_mod::lemma_mod_multiples_vanish(
                    half as int,
                    q as int,
                    2,
                );
            }
        }
    }
}

/// Cutting the encoded integer back into bits gives the bit string again:
/// the cut into bits undoes the encoding.
pub proof fn lemma_chunking_inverts_encode(bits: Seq<bool>)
    ensures
        le_bits_of(le_bits_to_nat(bits), 0, bits.len()) == bits,
{
    let again = le_bits_of(le_bits_to_nat(bits), 0, bits.len());
    assert forall|i: int| 0 <= i < bits.len() implies again[i] == bits[i] by {
        lemma_bit_of_encoding(bits, i as nat);
    }
    assert(again =~= bits);
}

/// Encodes up to 64 little-endian bits as an integer.
///
/// The result is the sum of `2^i` over the set bits `i`. Cutting the result
/// back into `bits.len()` bits returns `bits`.
pub fn lebs2ip(bits: &[bool]) -> (value: u64)
    requires
        bits@.len() <= 64,
    ensures
        value == le_bits_to_nat(bits@),
        le_bits_of(value as nat, 0, bits@.len()) == bits@,
{
    let mut acc: u64 = 0;
    let mut i: usize = 0;
    proof {
        lemma2_to64();
        assert(bits@.take(0) =~= Seq::<bool>::empty());
    }
    while i < bits.len()
        invariant
            i <= bits@.len() <= 64,
            acc == le_bits_to_nat(bits@.take(i as int)),
            acc < pow2(i as nat),
        decreases bits@.len() - i,
    {
        proof {
            let next = bits@.take(i + 1);
            assert(next.drop_last() =~= bits@.take(i as int));
            assert(next.last() == bits@[i as int]);
            lemma_pow2_unfold((i + 1) as nat);
            vstd::bits::lemma_u64_pow2_no_overflow(i as nat);
            lemma_u64_shl_is_mul(1u64, i as u64);
            if i + 1 < 64 {
                vstd::bits::lemma_u64_pow2_no_overflow((i + 1) as nat);
            } else {
                vstd::arithmetic::power2::lemma2_to64_rest();
                lemma_pow2_unfold(64);
            }
        }
        if bits[i] {
            acc = acc + (1u64 << (i as u64));
        }
        i = i + 1;
    }
    proof {
        assert(bits@.take(i as int) =~= bits@);
        lemma_chunking_inverts_encode(bits@);
    }
    acc
}

/// The number of bits of a table with `value` rows: the least `bits` with
/// `value <= 2^bits`.
pub fn log2_ceil(value: u64) -> (bits: u32)
    ensures
        bits <= 64,
        value <= pow2(bits as nat),
        bits > 0 ==> pow2((bits - 1) as nat) < value,
{
    let mut bits: u32 = 0;
    let mut power: u64 = 1;
    proof {
        lemma2_to64();
    }
    while power < value && bits < 63
        invariant
            bits <= 63,
            power == pow2(bits as nat),
            bits > 0 ==> pow2((bits - 1) as nat) < value,
        decreases 63 - bits,
    {
        proof {
            lemma_pow2_unfold((bits + 1) as nat);
            vstd::bits::lemma_u64_pow2_no_overflow((bits + 1) as nat);
        }
        power = power * 2;
        bits = bits + 1;
    }
    if power < value {
        proof {
            vstd::arithmetic::power2::lemma2_to64_rest();
        }
        64
    } else {
        bits
    }
}

} // verus!
