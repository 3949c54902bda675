//! Boundary around the `ark_bn254` scalar field.
//!
//! `FieldElement` carries one element of the BN254 scalar field; all
//! arithmetic on it is done by `ark_ff` and trusted, stated over `fr_val`,
//! the canonical integer representative of an element, and the prime
//! modulus `fr_order`. Everything built on top of these wrappers is
//! verified against that modular-arithmetic model.

use vstd::prelude::*;

verus! {

/// The order of the BN254 scalar field, i.e. the prime modulus that all
/// field arithmetic is performed under.
pub open spec fn fr_order() -> nat {
    21888242871839275222246405745257275088548364400416034343698204186575808495617nat
}

/// One element of the BN254 scalar field. Verus refuses a declaration of
/// the underlying `ark_ff::Fp` type itself (its generics are bounded by
/// outside traits), so the element is held opaquely in a private field.
#[verifier::external_body]
pub struct FieldElement {
    e: ark_bn254::Fr,
}

impl Clone for FieldElement {
    /// Relies on `ark_ff::Fp` being `Copy`: a clone carries the same element.
    #[verifier::external_body]
    fn clone(&self) -> (r: Self)
        ensures
            fr_val(r) == fr_val(*self),
    {
        FieldElement { e: self.e }
    }
}

// Names the canonical integer that ark_ff::PrimeField::into_bigint reads out
// of a field element; it is a function of the element alone and always lies
// below the modulus.
pub uninterp spec fn fr_val(x: FieldElement) -> nat;

impl FieldElement {
    /// Relies on `ark_ff::Zero::zero`: the additive identity, with canonical value 0.
    #[verifier::external_body]
    pub fn zero() -> (r: FieldElement)
        ensures
            fr_val(r) == 0,
    {
        FieldElement { e: <ark_bn254::Fr as ark_ff::Zero>::zero() }
    }

    /// Relies on `From<u64> for ark_ff::Fp`: embeds an integer, reducing modulo the prime.
    #[verifier::external_body]
    pub fn from_u64(v: u64) -> (r: FieldElement)
        ensures
            fr_val(r) == v as nat % fr_order(),
    {
        FieldElement { e: ark_bn254::Fr::from(v) }
    }

    /// Relies on `FromStr for ark_ff::Fp`: a decimal string is parsed as an
    /// integer and reduced modulo the prime; it never fails on a plain digit
    /// string.
    #[verifier::external_body]
    pub fn from_decimal(s: &str) -> (r: FieldElement)
        requires
            is_decimal(s@),
        ensures
            fr_val(r) == decimal_value(s@) % fr_order(),
    {
        FieldElement { e: <ark_bn254::Fr as core::str::FromStr>::from_str(s).unwrap() }
    }

    /// Relies on `PartialEq for ark_ff::Fp`: two elements are equal exactly
    /// when their canonical values are.
    #[verifier::external_body]
    pub fn eq_elem(&self, other: &FieldElement) -> (r: bool)
        ensures
            r == (fr_val(*self) == fr_val(*other)),
    {
        self.e == other.e
    }
}

/// Relies on `Add for ark_ff::Fp`: addition of canonical values modulo the prime.
#[verifier::external_body]
pub(crate) fn fr_add(a: &FieldElement, b: &FieldElement) -> (r: FieldElement)
    ensures
        fr_val(r) == (fr_val(*a) + fr_val(*b)) % fr_order(),
{
    FieldElement { e: a.e + b.e }
}

/// Relies on `Mul for ark_ff::Fp`: multiplication of canonical values modulo the prime.
#[verifier::external_body]
pub(crate) fn fr_mul(a: &FieldElement, b: &FieldElement) -> (r: FieldElement)
    ensures
        fr_val(r) == (fr_val(*a) * fr_val(*b)) % fr_order(),
{
    FieldElement { e: a.e * b.e }
}

/// Relies on `ark_ff::Field::square`: squaring modulo the prime.
#[verifier::external_body]
pub(crate) fn fr_square(a: &FieldElement) -> (r: FieldElement)
    ensures
        fr_val(r) == (fr_val(*a) * fr_val(*a)) % fr_order(),
{
    FieldElement { e: ark_ff::Field::square(&a.e) }
}

/// True when `s` is a non-empty string of ASCII decimal digits.
pub open spec fn is_decimal(s: Seq<char>) -> bool {
    s.len() > 0 && forall|i: int|
        0 <= i < s.len() ==> 48 <= (#[trigger] s[i]) as u32 <= 57
}

/// The integer a string of decimal digits denotes.
pub open spec fn decimal_value(s: Seq<char>) -> nat
    decreases s.len(),
{
    if s.len() == 0 {
        0
    } else {
        decimal_value(s.drop_last()) * 10 + (s.last() as u32 - 48) as nat
    }
}

} // verus!
