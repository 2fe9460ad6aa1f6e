//! The groups G1, G2 and GT of BLS12-381 and the pairing between them, as
//! the proofs of this crate see them.
//!
//! The three groups are cyclic of prime order `q`, the order of the scalar
//! field. A point is opaque to proofs; contracts speak of its
//! logarithm, the number `k` in `[0, q)` for which the point is `k` times the
//! fixed generator of its group (for GT: the pairing of the two generators).
//! This holds of every point that was made through the checked interface of
//! the curve library, which is the only one this crate uses.

use crate::field::{reduce, scalar_value};
use bls12_381::{G1Affine, G1Projective, G2Affine, Gt, Scalar};
use vstd::prelude::*;

verus! {

/// A point of G1 in projective coordinates.
#[verifier::external_type_specification]
#[verifier::external_body]
pub struct ExG1Projective(bls12_381::G1Projective);

/// A point of G1 in affine coordinates.
#[verifier::external_type_specification]
#[verifier::external_body]
pub struct ExG1Affine(bls12_381::G1Affine);

/// A point of G2 in affine coordinates.
#[verifier::external_type_specification]
#[verifier::external_body]
pub struct ExG2Affine(bls12_381::G2Affine);

/// An element of the target group GT.
#[verifier::external_type_specification]
#[verifier::external_body]
pub struct ExGt(bls12_381::Gt);

/// The logarithm of a projective G1 point to the base of the G1 generator.
pub uninterp spec fn g1_log(p: G1Projective) -> int;

/// The logarithm of an affine G1 point to the base of the G1 generator.
pub uninterp spec fn g1_affine_log(p: G1Affine) -> int;

/// The logarithm of an affine G2 point to the base of the G2 generator.
pub uninterp spec fn g2_log(p: G2Affine) -> int;

/// The logarithm of an element of GT to the base of the pairing of the two
/// generators.
pub uninterp spec fn gt_log(p: Gt) -> int;

/// The logarithms of a sequence of projective G1 points.
pub open spec fn g1_logs(points: Seq<G1Projective>) -> Seq<int> {
    points.map_values(|p: G1Projective| g1_log(p))
}

/// `G1Projective::generator()`: the fixed generator of G1, whose logarithm
/// is one by definition.
#[verifier::external_body]
pub(crate) fn g1_generator() -> (g: G1Projective)
    ensures
        g1_log(g) == 1,
{
    G1Projective::generator()
}

/// `G1Projective::identity()`: the neutral element of G1, zero times the
/// generator.
#[verifier::external_body]
pub(crate) fn g1_identity() -> (g: G1Projective)
    ensures
        g1_log(g) == 0,
{
    G1Projective::identity()
}

/// Scalar multiplication in G1 (`Mul<&Scalar> for &G1Projective`): the
/// logarithm is multiplied by the scalar, modulo `q`.
#[verifier::external_body]
pub(crate) fn g1_mul(p: &G1Projective, k: &Scalar) -> (r: G1Projective)
    ensures
        g1_log(r) == reduce(g1_log(*p) * scalar_value(*k)),
{
    p * k
}

/// Addition in G1 (`Add for &G1Projective`): the logarithms add up, modulo
/// `q`.
#[verifier::external_body]
pub(crate) fn g1_add(p: &G1Projective, q: &G1Projective) -> (r: G1Projective)
    ensures
        g1_log(r) == reduce(g1_log(*p) + g1_log(*q)),
{
    p + q
}

/// `G1Affine::from(&G1Projective)`: the same point in affine coordinates.
#[verifier::external_body]
pub(crate) fn g1_to_affine(p: &G1Projective) -> (r: G1Affine)
    ensures
        g1_affine_log(r) == g1_log(*p),
{
    G1Affine::from(p)
}

/// `G2Affine::generator()`: the fixed generator of G2, whose logarithm is
/// one by definition.
#[verifier::external_body]
pub(crate) fn g2_generator() -> (g: G2Affine)
    ensures
        g2_log(g) == 1,
{
    G2Affine::generator()
}

/// Scalar multiplication in G2 (`Mul<&Scalar> for &G2Affine`), brought back
/// to affine coordinates: the logarithm is multiplied by the scalar, modulo
/// `q`.
#[verifier::external_body]
pub(crate) fn g2_mul(p: &G2Affine, k: &Scalar) -> (r: G2Affine)
    ensures
        g2_log(r) == reduce(g2_log(*p) * scalar_value(*k)),
{
    G2Affine::from(p * k)
}

/// `bls12_381::pairing`: the bilinear map from G1 and G2 to GT. The pairing
/// of `a` times the G1 generator with `b` times the G2 generator is `a*b`
/// times the pairing of the generators.
#[verifier::external_body]
pub(crate) fn pairing(p: &G1Affine, q: &G2Affine) -> (r: Gt)
    ensures
        gt_log(r) == reduce(g1_affine_log(*p) * g2_log(*q)),
{
    bls12_381::pairing(p, q)
}

/// Equality in GT (`PartialEq for Gt`): two elements are equal exactly when
/// their logarithms are.
#[verifier::external_body]
pub(crate) fn gt_eq(a: &Gt, b: &Gt) -> (same: bool)
    ensures
        same == (gt_log(*a) == gt_log(*b)),
{
    a == b
}

} // verus!
