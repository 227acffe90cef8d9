//! The running-sum decomposition of a value into fixed-width limbs.
//!
//! A value `v` is cut into limbs of `k` bits, lowest first. The running sum
//! `z_0, z_1, ...` starts at `z_0 = v` and peels one limb per step:
//! `z_{i+1} = (z_i - c_i) / 2^k`, where `c_i` is the low `k` bits of `z_i`.
//! After `count` steps the running sum is zero exactly when `v` fits in
//! `count * k` bits.

use vstd::arithmetic::div_mod::{
    lemma_div_denominator, lemma_fundamental_div_mod, lemma_mod_bound, lemma_mul_mod_noop_right,
    lemma_small_mod,
};
use vstd::arithmetic::mul::lemma_mul_is_associative;
use vstd::arithmetic::power2::{
    lemma2_to64, lemma_pow2_adds, lemma_pow2_pos, lemma_pow2_strictly_increases, pow2,
};
use vstd::prelude::*;
use vstd::slice::slice_subrange;

use crate::bits::{le_bits_of, le_bits_to_nat, lebs2ip, lemma_le_bits_window};
use crate::field::{
    field_mul, field_sub, fp_from_u64, fp_invert, fp_mul, fp_sub, fp_to_le_bits,
    lemma_modulus_bounds, modulus, FieldElement,
};

verus! {

/// Limb `index` of `value` for limbs of `lookup_num_bits` bits: the digits of
/// `value` from bit `index * lookup_num_bits` upwards.
pub open spec fn limb(value: nat, lookup_num_bits: nat, index: nat) -> nat {
    (value / pow2(index * lookup_num_bits)) % pow2(lookup_num_bits)
}

/// Entry `index` of the running sum of `value`: what is left of `value` once
/// `index` limbs have been peeled off.
pub open spec fn running_sum(value: nat, lookup_num_bits: nat, index: nat) -> nat {
    value / pow2(index * lookup_num_bits)
}

/// The first `count` limbs of `value`, lowest first.
pub open spec fn limbs_of(value: nat, lookup_num_bits: nat, count: nat) -> Seq<nat> {
    Seq::new(count, |i: int| limb(value, lookup_num_bits, i as nat))
}

/// The integer that a sequence of limbs stands for: limb `i` weighs
/// `2^(i * lookup_num_bits)`.
pub open spec fn compose(limbs: Seq<nat>, lookup_num_bits: nat) -> nat
    decreases limbs.len(),
{
    if limbs.len() == 0 {
        0
    } else {
        compose(limbs.drop_last(), lookup_num_bits) + limbs.last() * pow2(
            ((limbs.len() - 1) * lookup_num_bits) as nat,
        )
    }
}

/// One step of the recurrence: `z_i = z_{i+1} * 2^k + c_i`, and the limb is
/// below `2^k`.
pub proof fn lemma_running_sum_step(value: nat, lookup_num_bits: nat, index: nat)
    ensures
        running_sum(value, lookup_num_bits, index) == running_sum(
            value,
            lookup_num_bits,
            index + 1,
        ) * pow2(lookup_num_bits) + limb(value, lookup_num_bits, index),
        limb(value, lookup_num_bits, index) < pow2(lookup_num_bits),
        running_sum(value, lookup_num_bits, index + 1) == running_sum(
            value,
            lookup_num_bits,
            index,
        ) / pow2(lookup_num_bits),
{
    let k = lookup_num_bits;
    let z = running_sum(value, k, index);
    lemma_pow2_pos(k);
    lemma_pow2_pos(index * k);
    lemma_pow2_adds(index * k, k);
    assert((index + 1) * k == index * k + k) by (nonlinear_arith);
    lemma_div_denominator(value as int, pow2(index * k) as int, pow2(k) as int);
    lemma_fundamental_div_mod(z as int, pow2(k) as int);
    lemma_mod_bound(z as int, pow2(k) as int);
    assert(pow2(k) * (z / pow2(k)) == (z / pow2(k)) * pow2(k)) by (nonlinear_arith);
}

/// The limbs and the running sum together hold the whole value: the first
/// `count` limbs stand for the low digits, and entry `count` of the running
/// sum for the rest.
pub proof fn lemma_compose_limbs(value: nat, lookup_num_bits: nat, count: nat)
    ensures
        compose(limbs_of(value, lookup_num_bits, count), lookup_num_bits) + running_sum(
            value,
            lookup_num_bits,
            count,
        ) * pow2(count * lookup_num_bits) == value,
    decreases count,
{
    let k = lookup_num_bits;
    let limbs = limbs_of(value, k, count);
    if count == 0 {
        lemma2_to64();
        assert(0 * k == 0);
        assert(running_sum(value, k, 0) == value);
    } else {
        let shorter = (count - 1) as nat;
        lemma_compose_limbs(value, k, shorter);
        lemma_running_sum_step(value, k, shorter);
        assert(limbs.drop_last() =~= limbs_of(value, k, shorter));
        assert(limbs.last() == limb(value, k, shorter));
        lemma_pow2_adds(shorter * k, k);
        assert(count * k == shorter * k + k) by (nonlinear_arith)
            requires
                count == shorter + 1,
        ;
        let rest = running_sum(value, k, count);
        let low = limb(value, k, shorter);
        let weight = pow2(shorter * k);
        assert((rest * pow2(k) + low) * weight == rest * (weight * pow2(k)) + low * weight)
            by (nonlinear_arith);
    }
}

/// After `count` steps the running sum is zero exactly for the values below
/// `2^(count * lookup_num_bits)`: a value that needs more bits leaves a
/// non-zero remainder.
pub proof fn lemma_terminal_zero_iff_in_range(value: nat, lookup_num_bits: nat, count: nat)
    ensures
        running_sum(value, lookup_num_bits, count) == 0 <==> value < pow2(count * lookup_num_bits),
{
    let bound = pow2(count * lookup_num_bits);
    lemma_pow2_pos(count * lookup_num_bits);
    lemma_fundamental_div_mod(value as int, bound as int);
    lemma_mod_bound(value as int, bound as int);
    if value < bound {
        vstd::arithmetic::div_mod::lemma_basic_div(value as int, bound as int);
    } else {
        vstd::arithmetic::div_mod::lemma_div_non_zero(value as int, bound as int);
    }
}

/// A value below `2^(count * lookup_num_bits)` is the weighted sum of its
/// first `count` limbs, each limb is below `2^lookup_num_bits`, and the
/// running sum ends in zero.
pub proof fn lemma_decomposition_correct(value: nat, lookup_num_bits: nat, count: nat)
    requires
        value < pow2(count * lookup_num_bits),
    ensures
        compose(limbs_of(value, lookup_num_bits, count), lookup_num_bits) == value,
        forall|i: int|
            0 <= i < count ==> #[trigger] limbs_of(value, lookup_num_bits, count)[i] < pow2(
                lookup_num_bits,
            ),
        running_sum(value, lookup_num_bits, count) == 0,
{
    lemma_compose_limbs(value, lookup_num_bits, count);
    lemma_terminal_zero_iff_in_range(value, lookup_num_bits, count);
    assert forall|i: int| 0 <= i < count implies #[trigger] limbs_of(
        value,
        lookup_num_bits,
        count,
    )[i] < pow2(lookup_num_bits) by {
        lemma_running_sum_step(value, lookup_num_bits, i as nat);
    }
}

/// A value below `2^total` has nothing left above bit `start`, beyond what
/// `total - start` bits can hold.
proof fn lemma_high_digits(value: nat, start: nat, total: nat)
    requires
        value < pow2(total),
    ensures
        start <= total ==> value / pow2(start) < pow2((total - start) as nat),
        start >= total ==> value / pow2(start) == 0,
{
    lemma_pow2_pos(start);
    if start <= total {
        let rest = (total - start) as nat;
        lemma_pow2_adds(start, rest);
        lemma_pow2_pos(rest);
        vstd::arithmetic::div_mod::lemma_multiply_divide_lt(
            value as int,
            pow2(start) as int,
            pow2(rest) as int,
        );
    }
    if start >= total {
        if start > total {
            lemma_pow2_strictly_increases(total, start);
        }
        vstd::arithmetic::div_mod::lemma_basic_div(value as int, pow2(start) as int);
    }
}

/// The bits of a 256-bit value between `start` and `start + width`, read from
/// a 256-bit string that stops at bit 256, encode the limb at `start`.
proof fn lemma_clipped_window(value: nat, start: nat, width: nat)
    requires
        value < pow2(256),
    ensures
        ({
            let lo = if start < 256 { start } else { 256 };
            let hi = if start + width < 256 { start + width } else { 256 };
            le_bits_to_nat(le_bits_of(value, lo, (hi - lo) as nat)) == (value / pow2(start)) % pow2(
                width,
            )
        }),
{
    let lo = if start < 256 { start } else { 256 };
    let hi = if start + width < 256 { start + width } else { 256 };
    let len = (hi - lo) as nat;
    lemma_le_bits_window(value, lo, len);
    lemma_high_digits(value, start, 256);
    lemma_pow2_pos(width);
    if start + width <= 256 {
    } else if start >= 256 {
        lemma2_to64();
        lemma_small_mod(0, pow2(width));
    } else {
        // The string ends inside the window: the missing bits are zero.
        let digits = value / pow2(start);
        assert(digits < pow2(len));
        lemma_pow2_pos(len);
        lemma_pow2_strictly_increases(len, width);
        lemma_small_mod(digits, pow2(len));
        lemma_small_mod(digits, pow2(width));
    }
}

/// Cuts the canonical representative of `value` into `num_bits /
/// lookup_num_bits` limbs of `lookup_num_bits` bits each, lowest first.
pub fn compute_limbs(value: &FieldElement, num_bits: usize, lookup_num_bits: usize) -> (limbs: Vec<
    u64,
>)
    requires
        0 < lookup_num_bits <= 64,
        num_bits % lookup_num_bits == 0,
    ensures
        limbs@.len() == num_bits / lookup_num_bits,
        forall|i: int|
            0 <= i < limbs@.len() ==> #[trigger] limbs@[i] as nat == limb(
                value@,
                lookup_num_bits as nat,
                i as nat,
            ),
{
    let bits = fp_to_le_bits(value);
    let count: usize = num_bits / lookup_num_bits;
    let mut limbs: Vec<u64> = Vec::new();
    let mut i: usize = 0;
    let mut start: usize = 0;
    proof {
        use_type_invariant(value);
        lemma_modulus_bounds();
        lemma_pow2_strictly_increases(255, 256);
        lemma_fundamental_div_mod(num_bits as int, lookup_num_bits as int);
        assert(lookup_num_bits * count == count * lookup_num_bits) by (nonlinear_arith);
    }
    while i < count
        invariant
            0 < lookup_num_bits <= 64,
            i <= count,
            count * lookup_num_bits == num_bits,
            start == i * lookup_num_bits,
            value@ < pow2(256),
            bits@ == le_bits_of(value@, 0, 256),
            limbs@.len() == i,
            forall|j: int|
                0 <= j < i ==> #[trigger] limbs@[j] as nat == limb(
                    value@,
                    lookup_num_bits as nat,
                    j as nat,
                ),
        decreases count - i,
    {
        proof {
            assert((i + 1) * lookup_num_bits <= count * lookup_num_bits) by (nonlinear_arith)
                requires
                    i + 1 <= count,
            ;
            assert((i + 1) * lookup_num_bits == i * lookup_num_bits + lookup_num_bits)
                by (nonlinear_arith);
        }
        let lo: usize = if start < 256 { start } else { 256 };
        let hi: usize = if start + lookup_num_bits < 256 { start + lookup_num_bits } else { 256 };
        let chunk = slice_subrange(bits.as_slice(), lo, hi);
        let c = lebs2ip(chunk);
        proof {
            assert(chunk@ =~= le_bits_of(value@, lo as nat, (hi - lo) as nat));
            lemma_clipped_window(value@, start as nat, lookup_num_bits as nat);
        }
        limbs.push(c);
        i = i + 1;
        start = start + lookup_num_bits;
    }
    limbs
}

/// Peeling a limb in the field: with `inverse` the inverse of `2^k`,
/// `(z - z mod 2^k) * inverse` is the integer quotient `z / 2^k`.
proof fn lemma_field_step(z: nat, low: nat, lookup_num_bits: nat, inverse: nat)
    requires
        z < modulus(),
        low == z % pow2(lookup_num_bits),
        field_mul(inverse, pow2(lookup_num_bits)) == 1,
    ensures
        field_mul(field_sub(z, low), inverse) == z / pow2(lookup_num_bits),
{
    let p = modulus();
    let base = pow2(lookup_num_bits);
    let q = z / base;
    lemma_pow2_pos(lookup_num_bits);
    lemma_fundamental_div_mod(z as int, base as int);
    lemma_mod_bound(z as int, base as int);
    let d = (z - low) as nat;
    assert(d == base * q);
    lemma_small_mod(d, p);
    assert(field_sub(z, low) == d);
    assert(q <= z) by (nonlinear_arith)
        requires
            z == base * q + low,
            base >= 1,
            low >= 0,
            q >= 0,
    ;
    lemma_mul_is_associative(q as int, base as int, inverse as int);
    assert(d * inverse == q * (inverse * base)) by (nonlinear_arith)
        requires
            d == base * q,
    ;
    lemma_mul_mod_noop_right(q as int, (inverse * base) as int, p as int);
    lemma_small_mod(q, p);
}

/// Computes the running sum `z_1, ..., z_C` of `value` for `C = num_bits /
/// lookup_num_bits` limbs, by the field recurrence `z_{i+1} = (z_i - c_i) *
/// 2^(-lookup_num_bits)`.
///
/// Entry `i` of the result is `z_{i+1}`, the integer quotient of the
/// canonical representative of `value` by `2^((i + 1) * lookup_num_bits)`.
/// The last entry is zero exactly when `value` is below `2^num_bits`.
pub fn compute_running_sum(
    value: &FieldElement,
    num_bits: usize,
    lookup_num_bits: usize,
) -> (sums: Vec<FieldElement>)
    requires
        0 < lookup_num_bits < 64,
        num_bits % lookup_num_bits == 0,
    ensures
        sums@.len() == num_bits / lookup_num_bits,
        forall|i: int|
            0 <= i < sums@.len() ==> (#[trigger] sums@[i])@ == running_sum(
                value@,
                lookup_num_bits as nat,
                (i + 1) as nat,
            ),
        sums@.len() > 0 ==> (sums@.last()@ == 0 <==> value@ < pow2(num_bits as nat)),
{
    let limbs = compute_limbs(value, num_bits, lookup_num_bits);
    let count: usize = limbs.len();
    proof {
        vstd::bits::lemma_u64_pow2_no_overflow(lookup_num_bits as nat);
        vstd::bits::lemma_u64_shl_is_mul(1u64, lookup_num_bits as u64);
        lemma_modulus_bounds();
        lemma_pow2_strictly_increases(lookup_num_bits as nat, 254);
        lemma_pow2_pos(lookup_num_bits as nat);
    }
    let base = fp_from_u64(1u64 << (lookup_num_bits as u64));
    let inverse = fp_invert(&base).unwrap();
    proof {
        assert(inverse@ * base@ == inverse@ * pow2(lookup_num_bits as nat)) by (nonlinear_arith)
            requires
                base@ == pow2(lookup_num_bits as nat),
        ;
    }
    let mut z: FieldElement = *value;
    let mut sums: Vec<FieldElement> = Vec::new();
    let mut i: usize = 0;
    proof {
        lemma2_to64();
        assert((0 as nat) * (lookup_num_bits as nat) == 0);
        assert(running_sum(value@, lookup_num_bits as nat, 0) == value@ / 1);
    }
    while i < count
        invariant
            i <= count,
            count == limbs@.len(),
            field_mul(inverse@, pow2(lookup_num_bits as nat)) == 1,
            forall|j: int|
                0 <= j < limbs@.len() ==> #[trigger] limbs@[j] as nat == limb(
                    value@,
                    lookup_num_bits as nat,
                    j as nat,
                ),
            z@ == running_sum(value@, lookup_num_bits as nat, i as nat),
            sums@.len() == i,
            forall|j: int|
                0 <= j < i ==> (#[trigger] sums@[j])@ == running_sum(
                    value@,
                    lookup_num_bits as nat,
                    (j + 1) as nat,
                ),
        decreases count - i,
    {
        let c = fp_from_u64(limbs[i]);
        let difference = fp_sub(&z, &c);
        let next = fp_mul(&difference, &inverse);
        proof {
            use_type_invariant(&z);
            assert(limbs@[i as int] as nat == limb(value@, lookup_num_bits as nat, i as nat));
            lemma_running_sum_step(value@, lookup_num_bits as nat, i as nat);
            lemma_field_step(z@, c@, lookup_num_bits as nat, inverse@);
        }
        z = next;
        sums.push(next);
        i = i + 1;
    }
    proof {
        if count > 0 {
            lemma_terminal_zero_iff_in_range(value@, lookup_num_bits as nat, count as nat);
            lemma_fundamental_div_mod(num_bits as int, lookup_num_bits as int);
            assert(count * lookup_num_bits == num_bits) by (nonlinear_arith)
                requires
                    num_bits == lookup_num_bits * count,
            ;
        }
    }
    sums
}

} // verus!
