//! Diffie-Hellman key exchange over a finite field.

use vstd::prelude::*;
use vstd::arithmetic::div_mod::lemma_mul_mod_noop_left;

verus! {

/// A finite field for the exchange: a fixed primitive element generates the
/// structure the protocol rides on. Every element carries a canonical value
/// below the field's order.
pub trait FiniteField: Sized + Copy {
    /// The field's order.
    spec fn order() -> nat;

    /// The canonical value of this element.
    spec fn value(self) -> nat;

    /// The element is reduced.
    spec fn wf(self) -> bool;

    /// The primitive element, at the spec level.
    spec fn primitive_element_spec() -> Self;

    /// The additive identity.
    fn zero() -> (r: Self)
        ensures
            r.wf(),
            r.value() == 0,
    ;

    /// The primitive element.
    fn primitive_element() -> (r: Self)
        ensures
            r.wf(),
            r == Self::primitive_element_spec(),
    ;

    /// Embeds an integer, reduced by the order.
    fn from_u32(v: u32) -> (r: Self)
        ensures
            r.wf(),
            r.value() == v as nat % Self::order(),
    ;

    /// Field multiplication.
    fn mul(self, rhs: Self) -> (r: Self)
        requires
            self.wf(),
            rhs.wf(),
        ensures
            r.wf(),
            r.value() == (self.value() * rhs.value()) % Self::order(),
    ;
}

/// The 101-element prime field the exchange demonstrations run over.
#[derive(Clone, Copy, PartialEq, Eq, Structural, Debug)]
pub struct PlutoBaseField {
    pub val: u64,
}

impl PlutoBaseField {
    /// Builds the element of value `v % 101`.
    pub fn new(v: u64) -> (r: PlutoBaseField)
        ensures
            r.wf(),
            r.value() == v as nat % 101,
    {
        PlutoBaseField { val: v % 101 }
    }
}

impl FiniteField for PlutoBaseField {
    open spec fn order() -> nat {
        101
    }

    open spec fn value(self) -> nat {
        self.val as nat
    }

    open spec fn wf(self) -> bool {
        self.val < 101
    }

    open spec fn primitive_element_spec() -> Self {
        PlutoBaseField { val: 2 }
    }

    fn zero() -> (r: Self) {
        PlutoBaseField { val: 0 }
    }

    fn primitive_element() -> (r: Self) {
        PlutoBaseField { val: 2 }
    }

    fn from_u32(v: u32) -> (r: Self) {
        PlutoBaseField { val: (v % 101) as u64 }
    }

    fn mul(self, rhs: Self) -> (r: Self) {
        proof {
            assert(self.val * rhs.val < 101 * 101) by (nonlinear_arith)
                requires
                    self.val < 101,
                    rhs.val < 101,
            ;
        }
        PlutoBaseField { val: (self.val * rhs.val) % 101 }
    }
}

/// Diffie-Hellman key exchange: a participant derives a shared key from the
/// other party's public key.
pub trait DH<F: FiniteField> {
    /// generate a shared key between two parties
    fn generate_shared_key(&mut self, another_pub_key: F);
}

/// Relies on `rand::random`: a uniformly random integer; nothing is promised
/// of its value.
#[verifier::external_body]
fn random_u32() -> u32 {
    rand::random()
}

/// A Diffie-Hellman participant over the finite field `F`.
#[derive(Debug)]
pub struct FFDH<F: FiniteField> {
    private_key: u32,
    /// public key for communication rounds
    pub public_key: F,
    shared_key: F,
}

impl<F: FiniteField> FFDH<F> {
    /// The private scalar.
    pub closed spec fn spec_private_key(self) -> u32 {
        self.private_key
    }

    /// The shared key derived so far.
    pub closed spec fn spec_shared_key(self) -> F {
        self.shared_key
    }

    /// The public key.
    pub closed spec fn spec_public_key(self) -> F {
        self.public_key
    }

    /// All key material is reduced.
    pub open spec fn wf(self) -> bool {
        self.spec_public_key().wf() && self.spec_shared_key().wf()
    }

    /// Draws a fresh private key at random and derives the public key by
    /// scaling the primitive element with it; the shared key starts at zero.
    pub fn new() -> (r: Self)
        ensures
            r.wf(),
            r.spec_shared_key().value() == 0,
            r.spec_public_key().value() == (F::primitive_element_spec().value() * (
            r.spec_private_key() as nat % F::order())) % F::order(),
    {
        let priv_key: u32 = random_u32();
        let pub_key = F::primitive_element().mul(F::from_u32(priv_key));
        FFDH { private_key: priv_key, public_key: pub_key, shared_key: F::zero() }
    }

    /// Derives the shared key by scaling the other party's public key with
    /// this participant's private scalar; the two public keys must differ.
    pub fn generate_shared_key(&mut self, another_pub_key: F)
        requires
            old(self).wf(),
            another_pub_key.wf(),
            another_pub_key.value() != old(self).spec_public_key().value(),
        ensures
            final(self).wf(),
            final(self).spec_public_key() == old(self).spec_public_key(),
            final(self).spec_private_key() == old(self).spec_private_key(),
            final(self).spec_shared_key().value() == (another_pub_key.value() * (
            old(self).spec_private_key() as nat % F::order())) % F::order(),
    {
        self.shared_key = another_pub_key.mul(F::from_u32(self.private_key));
    }

    /// shared key getter
    pub fn shared_key(&self) -> (r: F)
        ensures
            r == self.spec_shared_key(),
    {
        self.shared_key
    }
}

/// Two participants end with one shared key. With `g` the primitive
/// element's value and `a`, `b` the two reduced private scalars, each party
/// scales the other's public key `g * b mod o` (resp. `g * a mod o`) by its
/// own scalar, and the two results agree.
pub proof fn lemma_shared_key_agreement(g: nat, a: nat, b: nat, o: nat)
    requires
        o > 0,
    ensures
        (((g * b) % o) * a) % o == (((g * a) % o) * b) % o,
{
    lemma_mul_mod_noop_left((g * b) as int, a as int, o as int);
    lemma_mul_mod_noop_left((g * a) as int, b as int, o as int);
    assert(g * b * a == g * a * b) by (nonlinear_arith);
}

/// After a mutual exchange the two participants hold one shared key:
/// `alice2` and `bob2` are `alice` and `bob` once each has derived the
/// shared key from the other's public key, and the two results agree.
pub proof fn lemma_exchange_agrees<F: FiniteField>(
    alice: FFDH<F>,
    bob: FFDH<F>,
    alice2: FFDH<F>,
    bob2: FFDH<F>,
)
    requires
        F::order() > 0,
        alice.spec_public_key().value() == (F::primitive_element_spec().value() * (
        alice.spec_private_key() as nat % F::order())) % F::order(),
        bob.spec_public_key().value() == (F::primitive_element_spec().value() * (
        bob.spec_private_key() as nat % F::order())) % F::order(),
        alice2.spec_shared_key().value() == (bob.spec_public_key().value() * (
        alice.spec_private_key() as nat % F::order())) % F::order(),
        bob2.spec_shared_key().value() == (alice.spec_public_key().value() * (
        bob.spec_private_key() as nat % F::order())) % F::order(),
    ensures
        alice2.spec_shared_key().value() == bob2.spec_shared_key().value(),
{
    lemma_shared_key_agreement(
        F::primitive_element_spec().value(),
        alice.spec_private_key() as nat % F::order(),
        bob.spec_private_key() as nat % F::order(),
        F::order(),
    );
}

} // verus!
