//! The protocol on plain integers: the prover answers a challenge point with
//! `p(x)` and `h(x) = p(x) / t(x)`, and the verifier multiplies back.

use crate::algebra::{
    fits_i64, lemma_quotient_by_prefix_is_exact, product_at, product_fits, truncated_quotient,
};
use crate::polynomial::{UnencryptedPolynomial, UnencryptedPolynomialView};
use vstd::prelude::*;

verus! {

/// The prover's answer to a challenge point: `p(x)` and `h(x)`.
#[derive(Clone, Debug, Ord, PartialOrd, Eq, PartialEq)]
pub struct UnencryptedChallengeResponse {
    px: i64,
    hx: i64,
}

impl View for UnencryptedChallengeResponse {
    type V = (int, int);

    /// The pair `(p(x), h(x))`.
    closed spec fn view(&self) -> (int, int) {
        (self.px as int, self.hx as int)
    }
}

impl UnencryptedChallengeResponse {
    /// The answer holding `px` and `hx`.
    pub fn new(px: i64, hx: i64) -> (r: Self)
        ensures
            r@ == (px as int, hx as int),
    {
        Self { px, hx }
    }

    /// Whether [`UnencryptedChallengeResponse::verify`] can compute its
    /// product in `i64`.
    pub open spec fn can_verify(&self, x: int, polynomial: &UnencryptedPolynomial) -> bool {
        &&& product_fits(polynomial@.roots, x)
        &&& fits_i64(self@.1 * product_at(polynomial@.roots, x))
    }

    /// Checks the answer against the public polynomial `t`: whether
    /// `p(x) == h(x) * t(x)`.
    pub fn verify(&self, x: i64, polynomial: &UnencryptedPolynomial) -> (ok: bool)
        requires
            self.can_verify(x as int, polynomial),
        ensures
            ok == (self@.0 == self@.1 * product_at(polynomial@.roots, x as int)),
    {
        self.px == self.hx * polynomial.eval(x)
    }
}

/// Completeness of the protocol on plain integers. Where the public factors
/// of a polynomial are its first `k` factors and their product is not zero
/// at `x`, the answer `(p(x), p(x) / t(x))` satisfies the equation that
/// [`UnencryptedChallengeResponse::verify`] tests against the public
/// polynomial, and its second part is the value of the hidden factors.
pub proof fn lemma_honest_answer_verifies(polynomial: UnencryptedPolynomialView, k: int, x: int)
    requires
        0 <= k <= polynomial.roots.len(),
        polynomial.public_roots == polynomial.roots.take(k),
        product_at(polynomial.public_roots, x) != 0,
    ensures
        ({
            let px = product_at(polynomial.roots, x);
            let tx = product_at(polynomial.public_roots, x);
            let hx = truncated_quotient(px, tx);
            &&& px == hx * tx
            &&& hx == product_at(polynomial.roots.skip(k), x)
        }),
{
    lemma_quotient_by_prefix_is_exact(polynomial.roots, k, x);
}

} // verus!
