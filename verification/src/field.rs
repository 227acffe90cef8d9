//! Elements of the Pallas base field, held in canonical byte form.
//!
//! The arithmetic is that of the `pasta_curves` field type `Fp`, reached
//! through `halo2_proofs`. Each call into it stands in a function of its own
//! at the end of this file, with the contract that the rest of the crate
//! relies on; those contracts are taken on trust.

use halo2_proofs::pasta::group::ff::{Field, PrimeField, PrimeFieldBits};
use halo2_proofs::pasta::Fp;
use vstd::arithmetic::div_mod::{lemma_add_mod_noop_right, lemma_mod_add_multiples_vanish};
use vstd::arithmetic::power2::{
    lemma2_to64, lemma2_to64_rest, lemma_pow2_adds, lemma_pow2_pos, pow2,
};
use vstd::prelude::*;

use crate::bits::le_bits_of;

verus! {

/// The order of the field: the Pallas base field modulus.
pub open spec fn modulus() -> nat {
    0x40000000000000000000000000000000224698fc094cf91b992d30ed00000001nat
}

/// The integer that a little-endian byte string encodes.
pub open spec fn le_bytes_to_nat(bytes: Seq<u8>) -> nat
    decreases bytes.len(),
{
    if bytes.len() == 0 {
        0
    } else {
        le_bytes_to_nat(bytes.drop_last()) + (bytes.last() as nat) * pow2(
            (8 * (bytes.len() - 1)) as nat,
        )
    }
}

/// A little-endian byte string encodes zero exactly when all its bytes are
/// zero.
pub proof fn lemma_le_bytes_zero(bytes: Seq<u8>)
    ensures
        le_bytes_to_nat(bytes) == 0 <==> forall|i: int| 0 <= i < bytes.len() ==> bytes[i] == 0,
    decreases bytes.len(),
{
    if bytes.len() > 0 {
        let head = bytes.drop_last();
        let weight = pow2((8 * (bytes.len() - 1)) as nat);
        lemma_le_bytes_zero(head);
        lemma_pow2_pos((8 * (bytes.len() - 1)) as nat);
        assert(bytes.last() != 0 ==> (bytes.last() as nat) * weight > 0) by (nonlinear_arith)
            requires
                weight > 0,
        ;
        if le_bytes_to_nat(bytes) == 0 {
            assert forall|i: int| 0 <= i < bytes.len() implies bytes[i] == 0 by {
                if i < bytes.len() - 1 {
                    assert(head[i] == bytes[i]);
                }
            }
        }
        if forall|i: int| 0 <= i < bytes.len() ==> bytes[i] == 0 {
            assert forall|i: int| 0 <= i < head.len() implies head[i] == 0 by {
                assert(head[i] == bytes[i]);
            }
            assert(bytes.last() == 0);
        }
    }
}

/// The field order lies between `2^254` and `2^255`.
pub proof fn lemma_modulus_bounds()
    ensures
        pow2(254) < modulus() < pow2(255),
{
    lemma2_to64();
    lemma2_to64_rest();
    lemma_pow2_adds(64, 64);
    lemma_pow2_adds(128, 64);
    lemma_pow2_adds(192, 62);
    lemma_pow2_adds(192, 63);
    assert(pow2(128) == 0x1_0000_0000_0000_0000_0000_0000_0000_0000nat);
    assert(pow2(192) == 0x1_0000_0000_0000_0000_0000_0000_0000_0000_0000_0000_0000_0000nat);
}

/// `a - b` in the field.
pub open spec fn field_sub(a: nat, b: nat) -> nat {
    ((a as int - b as int) % (modulus() as int)) as nat
}

/// `a + b` in the field.
pub open spec fn field_add(a: nat, b: nat) -> nat {
    (a + b) % modulus()
}

/// `-a` in the field.
pub open spec fn field_neg(a: nat) -> nat {
    ((modulus() - a) % (modulus() as int)) as nat
}

/// `a * b` in the field.
pub open spec fn field_mul(a: nat, b: nat) -> nat {
    (a * b) % modulus()
}

/// Adding the negation is subtracting.
pub proof fn lemma_add_neg_is_sub(a: nat, b: nat)
    ensures
        field_add(a, field_neg(b)) == field_sub(a, b),
{
    let p = modulus() as int;
    lemma_add_mod_noop_right(a as int, p - b, p);
    lemma_mod_add_multiples_vanish(a - b, p);
    assert(a + (p - b) == p + (a - b));
}

/// A field element, stored as the 32 little-endian bytes of its canonical
/// representative in `[0, modulus())`.
#[derive(Clone, Copy, Debug, PartialEq, Eq)]
pub struct FieldElement {
    pub(crate) repr: [u8; 32],
}

impl View for FieldElement {
    type V = nat;

    /// The canonical representative of the element.
    closed spec fn view(&self) -> nat {
        le_bytes_to_nat(self.repr@)
    }
}

impl FieldElement {
    /// Every element is stored reduced.
    #[verifier::type_invariant]
    pub open spec fn canonical(self) -> bool {
        self@ < modulus()
    }

    /// The element with canonical representative `value`.
    pub fn from_u64(value: u64) -> (element: FieldElement)
        ensures
            element@ == value,
    {
        fp_from_u64(value)
    }

    /// The element that 32 little-endian bytes encode, where they encode an
    /// integer below the field order.
    pub fn from_repr(repr: [u8; 32]) -> (element: Option<FieldElement>)
        ensures
            element.is_some() <==> le_bytes_to_nat(repr@) < modulus(),
            element matches Some(x) ==> x@ == le_bytes_to_nat(repr@),
    {
        if fp_is_canonical(&repr) {
            Some(FieldElement { repr })
        } else {
            None
        }
    }

    /// The 32 little-endian bytes of the canonical representative.
    pub fn to_repr(&self) -> (repr: [u8; 32])
        ensures
            le_bytes_to_nat(repr@) == self@,
    {
        self.repr
    }

    /// Whether the element is zero.
    pub fn is_zero(&self) -> (zero: bool)
        ensures
            zero <==> self@ == 0,
    {
        let mut i: usize = 0;
        while i < 32
            invariant
                i <= 32,
                forall|j: int| 0 <= j < i ==> self.repr@[j] == 0,
            decreases 32 - i,
        {
            if self.repr[i] != 0 {
                proof {
                    lemma_le_bytes_zero(self.repr@);
                }
                return false;
            }
            i = i + 1;
        }
        proof {
            lemma_le_bytes_zero(self.repr@);
        }
        true
    }
}

/// Calls `PrimeField::from_repr` of `Fp`. Trusted: the bytes are accepted
/// exactly when the integer that they encode, little end first, is below
/// the field order.
#[verifier::external_body]
pub(crate) fn fp_is_canonical(repr: &[u8; 32]) -> (canonical: bool)
    ensures
        canonical <==> le_bytes_to_nat(repr@) < modulus(),
{
    Fp::from_repr(*repr).is_some().into()
}

/// Calls `Fp::from(u64)`. Trusted: the result is the field element whose
/// canonical representative is the given integer.
#[verifier::external_body]
pub(crate) fn fp_from_u64(value: u64) -> (element: FieldElement)
    ensures
        element@ == value,
{
    FieldElement { repr: Fp::from(value).to_repr() }
}

/// Calls the subtraction of `Fp`. Trusted: the result is the difference of
/// the operands modulo the field order.
#[verifier::external_body]
pub(crate) fn fp_sub(a: &FieldElement, b: &FieldElement) -> (difference: FieldElement)
    ensures
        difference@ == field_sub(a@, b@),
{
    let r = Fp::from_repr(a.repr).unwrap() - Fp::from_repr(b.repr).unwrap();
    FieldElement { repr: r.to_repr() }
}

/// Calls the multiplication of `Fp`. Trusted: the result is the product of
/// the operands modulo the field order, and, the type being a field, it is
/// zero only where an operand is zero.
#[verifier::external_body]
pub(crate) fn fp_mul(a: &FieldElement, b: &FieldElement) -> (product: FieldElement)
    ensures
        product@ == field_mul(a@, b@),
        product@ == 0 ==> a@ == 0 || b@ == 0,
{
    let r = Fp::from_repr(a.repr).unwrap() * Fp::from_repr(b.repr).unwrap();
    FieldElement { repr: r.to_repr() }
}

/// Calls `Field::invert` of `Fp`. Trusted: zero has no inverse, and for any
/// other element the result is a reduced element that, times the element,
/// is one in the field.
#[verifier::external_body]
pub(crate) fn fp_invert(a: &FieldElement) -> (inverse: Option<FieldElement>)
    ensures
        inverse.is_none() <==> a@ == 0,
        inverse matches Some(x) ==> x@ < modulus() && field_mul(x@, a@) == 1,
{
    let r: Option<Fp> = Fp::from_repr(a.repr).unwrap().invert().into();
    r.map(|x| FieldElement { repr: x.to_repr() })
}

/// Calls `PrimeFieldBits::to_le_bits` of `Fp`. Trusted: the result holds the
/// 256 low bits of the canonical representative, lowest first.
#[verifier::external_body]
pub(crate) fn fp_to_le_bits(a: &FieldElement) -> (bits: Vec<bool>)
    ensures
        bits@ == le_bits_of(a@, 0, 256),
{
    Fp::from_repr(a.repr).unwrap().to_le_bits().iter().by_vals().collect()
}

} // verus!
