//! The scalar field of BLS12-381, as the proofs of this crate see it.
//!
//! A [`Scalar`] is opaque to proofs. Contracts speak of the integer in
//! `[0, q)` that it stands for, [`scalar_value`], and of arithmetic modulo the
//! field order `q`.

use crate::algebra::{convolution, entry_or_zero, poly_mul, weighted_sum};
use bls12_381::Scalar;
use ff::Field;
use vstd::prelude::*;

verus! {

/// An element of the scalar field; only its [`scalar_value`] is visible to
/// proofs.
#[verifier::external_type_specification]
#[verifier::external_body]
pub struct ExScalar(bls12_381::Scalar);

/// The order `q` of the scalar field, which is also the order of the groups
/// G1, G2 and GT.
pub open spec fn field_order() -> int {
    0x73eda753299d7d483339d80809a1d80553bda402fffe5bfeffffffff00000001int
}

/// The representative of `x` in `[0, q)`.
pub open spec fn reduce(x: int) -> int {
    x % field_order()
}

/// The integer in `[0, q)` that a scalar stands for: the number that
/// `Scalar::to_bytes` writes out in little-endian order.
pub uninterp spec fn scalar_value(s: Scalar) -> int;

/// `Scalar::from(u64)`: the field element of a small integer. Every `u64` is
/// below `q`, so the value is the integer itself.
#[verifier::external_body]
pub(crate) fn scalar_from_u64(x: u64) -> (r: Scalar)
    ensures
        scalar_value(r) == x,
{
    Scalar::from(x)
}

/// `Scalar::one()`: the multiplicative identity.
#[verifier::external_body]
pub(crate) fn scalar_one() -> (r: Scalar)
    ensures
        scalar_value(r) == 1,
{
    Scalar::one()
}

/// Negation of a scalar (`Neg for &Scalar`): the additive inverse modulo `q`.
#[verifier::external_body]
pub(crate) fn scalar_neg(a: &Scalar) -> (r: Scalar)
    ensures
        scalar_value(r) == reduce(-scalar_value(*a)),
{
    -a
}

/// Addition of scalars (`Add for &Scalar`): the sum modulo `q`.
#[verifier::external_body]
pub(crate) fn scalar_add(a: &Scalar, b: &Scalar) -> (r: Scalar)
    ensures
        scalar_value(r) == reduce(scalar_value(*a) + scalar_value(*b)),
{
    a + b
}

/// Multiplication of scalars (`Mul for &Scalar`): the product modulo `q`.
#[verifier::external_body]
pub(crate) fn scalar_mul(a: &Scalar, b: &Scalar) -> (r: Scalar)
    ensures
        scalar_value(r) == reduce(scalar_value(*a) * scalar_value(*b)),
{
    a * b
}

/// Reducing is idempotent, and a reduced number lies in `[0, q)`.
pub proof fn lemma_reduce_range(x: int)
    ensures
        0 <= reduce(x) < field_order(),
        reduce(reduce(x)) == reduce(x),
{
    vstd::arithmetic::div_mod::lemma_mod_bound(x, field_order());
    vstd::arithmetic::div_mod::lemma_mod_twice(x, field_order());
}

/// A factor may be reduced before or after the product is.
pub proof fn lemma_reduce_mul(x: int, y: int)
    ensures
        reduce(reduce(x) * y) == reduce(x * y),
        reduce(x * reduce(y)) == reduce(x * y),
        reduce(reduce(x) * reduce(y)) == reduce(x * y),
{
    vstd::arithmetic::div_mod::lemma_mul_mod_noop_general(x, y, field_order());
}

/// A summand may be reduced before or after the sum is.
pub proof fn lemma_reduce_add(x: int, y: int)
    ensures
        reduce(reduce(x) + y) == reduce(x + y),
        reduce(x + reduce(y)) == reduce(x + y),
        reduce(reduce(x) + reduce(y)) == reduce(x + y),
{
    vstd::arithmetic::div_mod::lemma_add_mod_noop(x, y, field_order());
    vstd::arithmetic::div_mod::lemma_add_mod_noop_right(x, y, field_order());
    vstd::arithmetic::div_mod::lemma_add_mod_noop_right(y, x, field_order());
}

/// The values of a sequence of scalars.
pub open spec fn scalar_values(s: Seq<Scalar>) -> Seq<int> {
    s.map_values(|x: Scalar| scalar_value(x))
}

/// Whether two sequences of integers agree entry by entry modulo `q`.
pub open spec fn congruent(u: Seq<int>, v: Seq<int>) -> bool {
    &&& u.len() == v.len()
    &&& forall|j: int| 0 <= j < u.len() ==> reduce(#[trigger] u[j]) == reduce(v[j])
}

/// Congruent factors give congruent products.
pub proof fn lemma_congruent_mul(x: int, x2: int, y: int, y2: int)
    requires
        reduce(x) == reduce(x2),
        reduce(y) == reduce(y2),
    ensures
        reduce(x * y) == reduce(x2 * y2),
{
    lemma_reduce_mul(x, y);
    lemma_reduce_mul(x2, y2);
}

/// Congruent summands give congruent sums.
pub proof fn lemma_congruent_add(x: int, x2: int, y: int, y2: int)
    requires
        reduce(x) == reduce(x2),
        reduce(y) == reduce(y2),
    ensures
        reduce(x + y) == reduce(x2 + y2),
{
    lemma_reduce_add(x, y);
    lemma_reduce_add(x2, y2);
}

/// Weighted sums of entries that agree modulo `q` agree modulo `q`.
pub proof fn lemma_weighted_sum_congruent(
    basis: Seq<int>,
    c: Seq<int>,
    basis2: Seq<int>,
    c2: Seq<int>,
    n: int,
)
    requires
        forall|i: int|
            0 <= i < n ==> reduce(basis[i]) == reduce(basis2[i]) && reduce(c[i]) == reduce(c2[i]),
    ensures
        reduce(weighted_sum(basis, c, n)) == reduce(weighted_sum(basis2, c2, n)),
    decreases n,
{
    if n > 0 {
        lemma_weighted_sum_congruent(basis, c, basis2, c2, n - 1);
        lemma_congruent_mul(basis[n - 1], basis2[n - 1], c[n - 1], c2[n - 1]);
        lemma_congruent_add(
            weighted_sum(basis, c, n - 1),
            weighted_sum(basis2, c2, n - 1),
            basis[n - 1] * c[n - 1],
            basis2[n - 1] * c2[n - 1],
        );
    }
}

/// Convolutions with second factors that agree modulo `q` agree modulo `q`.
pub proof fn lemma_convolution_congruent(u: Seq<int>, v: Seq<int>, v2: Seq<int>, j: int, n: int)
    requires
        congruent(v, v2),
    ensures
        reduce(convolution(u, v, j, n)) == reduce(convolution(u, v2, j, n)),
    decreases n,
{
    if n > 0 {
        lemma_convolution_congruent(u, v, v2, j, n - 1);
        let m = j - (n - 1);
        assert(reduce(entry_or_zero(v, m)) == reduce(entry_or_zero(v2, m))) by {
            if 0 <= m < v.len() {
                assert(reduce(v[m]) == reduce(v2[m]));
            }
        }
        lemma_congruent_mul(u[n - 1], u[n - 1], entry_or_zero(v, m), entry_or_zero(v2, m));
        lemma_congruent_add(
            convolution(u, v, j, n - 1),
            convolution(u, v2, j, n - 1),
            u[n - 1] * entry_or_zero(v, m),
            u[n - 1] * entry_or_zero(v2, m),
        );
    }
}

/// Products with second factors that agree modulo `q` agree modulo `q`.
pub proof fn lemma_poly_mul_congruent(u: Seq<int>, v: Seq<int>, v2: Seq<int>)
    requires
        congruent(v, v2),
    ensures
        congruent(poly_mul(u, v), poly_mul(u, v2)),
{
    let left = poly_mul(u, v);
    let right = poly_mul(u, v2);
    assert forall|j: int| 0 <= j < left.len() implies reduce(#[trigger] left[j]) == reduce(
        right[j],
    ) by {
        lemma_convolution_congruent(u, v, v2, j, u.len() as int);
    }
}

/// `Scalar::random` on the thread's generator: a fresh scalar. Nothing is
/// known of the outcome, and two draws need not agree.
#[verifier::external_body]
pub(crate) fn scalar_random() -> (r: Scalar) {
    Scalar::random(rand::thread_rng())
}

} // verus!
