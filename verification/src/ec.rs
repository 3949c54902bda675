//! A small additive helper and the BLS12-381 public-key derivation.

use vstd::prelude::*;
use lambdaworks_math::cyclic_group::IsGroup;
use lambdaworks_math::elliptic_curve::short_weierstrass::curves::bls12_381::curve::BLS12381Curve;
use lambdaworks_math::elliptic_curve::traits::IsEllipticCurve;
use lambdaworks_math::unsigned_integer::element::UnsignedInteger;

verus! {

/// Adds two machine integers.
pub fn add(left: usize, right: usize) -> (r: usize)
    requires
        left + right <= usize::MAX,
    ensures
        r == left + right,
{
    left + right
}

#[verifier::external_type_specification]
#[verifier::external_body]
pub struct ExUnsignedInteger<const NUM_LIMBS: usize>(UnsignedInteger<NUM_LIMBS>);

/// A point of the BLS12-381 curve in projective coordinates. Verus refuses
/// a declaration of the underlying point type (its generic is bounded by an
/// outside trait), so the point is held opaquely.
#[verifier::external_body]
pub struct Bls12381Point {
    p: lambdaworks_math::elliptic_curve::short_weierstrass::point::ShortWeierstrassProjectivePoint<
        BLS12381Curve,
    >,
}

impl Bls12381Point {
    /// Relies on lambdaworks_math's point accessor and hex encoding: the
    /// x-coordinate of the point as a hex string.
    #[verifier::external_body]
    pub fn x_hex(&self) -> String {
        self.p.x().to_hex()
    }
}

/// Relies on lambdaworks_math's `BLS12381Curve::generator` and
/// `IsGroup::operate_with_self`: the public key is the curve generator
/// multiplied by the private scalar.
#[verifier::external_body]
pub fn public_key<const N: usize>(private_key: UnsignedInteger<N>) -> Bls12381Point {
    Bls12381Point { p: BLS12381Curve::generator().operate_with_self(private_key) }
}

} // verus!
