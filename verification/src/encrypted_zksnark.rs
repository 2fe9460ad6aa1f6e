//! The pairing-based protocol: the verifier's trusted setup, the prover's
//! answer, and the check of the answer by two pairing equations.

use crate::algebra::{
    lemma_power_step, lemma_product_at_split, lemma_product_coefficients_at,
    lemma_product_coefficients_len, lemma_weighted_sum_scaled, poly_at,
    power_basis, product_at, product_coefficients, shorter, weighted_sum,
};
use crate::field::{
    congruent, lemma_congruent_mul, lemma_reduce_mul, lemma_reduce_range,
    lemma_weighted_sum_congruent, reduce, scalar_mul, scalar_random, scalar_value,
};
use crate::group::{
    g1_affine_log, g1_generator, g1_log, g1_logs, g1_mul, g2_generator, g2_log, g2_mul, gt_eq,
    pairing,
};
use crate::polynomial::{blinded_sum, response, Polynomial, PolynomialView};
use bls12_381::{G1Affine, G1Projective, G2Affine, Scalar};
use vstd::arithmetic::power::{lemma_pow0, lemma_pow1, pow};
use vstd::prelude::*;

verus! {

/// What a [`ProverTranscript`] stands for: the logarithms of its three
/// points.
pub struct ProverTranscriptView {
    /// The blinded evaluation of `p` on the encrypted powers.
    pub px: int,
    /// The blinded evaluation of `p` on the shifted powers.
    pub px_shift: int,
    /// The blinded evaluation of the hidden quotient `h` on the encrypted
    /// powers.
    pub hx: int,
}

/// The prover's answer: three points of G1.
#[derive(Debug, Eq, PartialEq)]
pub struct ProverTranscript {
    px_eval: G1Affine,
    px_powers_eval: G1Affine,
    hx_eval: G1Affine,
}

impl View for ProverTranscript {
    type V = ProverTranscriptView;

    closed spec fn view(&self) -> ProverTranscriptView {
        ProverTranscriptView {
            px: g1_affine_log(self.px_eval),
            px_shift: g1_affine_log(self.px_powers_eval),
            hx: g1_affine_log(self.hx_eval),
        }
    }
}

impl Clone for ProverTranscript {
    fn clone(&self) -> (r: Self)
        ensures
            r == *self,
    {
        ProverTranscript {
            px_eval: self.px_eval,
            px_powers_eval: self.px_powers_eval,
            hx_eval: self.hx_eval,
        }
    }
}

impl ProverTranscript {
    /// The answer made of the three points.
    pub(crate) fn new(px_eval: G1Affine, px_powers_eval: G1Affine, hx_eval: G1Affine) -> (r: Self)
        ensures
            r@ == (ProverTranscriptView {
                px: g1_affine_log(px_eval),
                px_shift: g1_affine_log(px_powers_eval),
                hx: g1_affine_log(hx_eval),
            }),
    {
        Self { px_eval, px_powers_eval, hx_eval }
    }

    /// The three points, in the order `p(s)`, `p` on the shifted powers,
    /// `h(s)`.
    pub fn get_proof_values(&self) -> (r: (G1Affine, G1Affine, G1Affine))
        ensures
            g1_affine_log(r.0) == self@.px,
            g1_affine_log(r.1) == self@.px_shift,
            g1_affine_log(r.2) == self@.hx,
    {
        (self.px_eval, self.px_powers_eval, self.hx_eval)
    }
}

/// What a [`VerifierTranscript`] stands for: the logarithms of its points.
pub struct VerifierTranscriptView {
    /// Logarithms of the encrypted powers, in G1.
    pub encrypted_powers: Seq<int>,
    /// Logarithms of the shifted powers, in G1.
    pub shifted_powers: Seq<int>,
    /// Logarithm of the key that carries `t(s)`, in G2.
    pub public_root_verification_key: int,
    /// Logarithm of the key that carries the shift, in G2.
    pub power_verification_key: int,
}

impl VerifierTranscriptView {
    /// Whether the two pairing equations hold of `proof`: the pairing of
    /// `p(s)` with the G2 generator equals that of `h(s)` with the key for
    /// `t(s)`, and the pairing of the shifted evaluation with the G2
    /// generator equals that of `p(s)` with the key for the shift.
    pub open spec fn accepts(self, proof: ProverTranscriptView) -> bool {
        &&& reduce(proof.px * 1) == reduce(proof.hx * self.public_root_verification_key)
        &&& reduce(proof.px_shift * 1) == reduce(proof.px * self.power_verification_key)
    }
}

/// The logarithms of the encrypted powers for the secret `s` and the degree
/// `degree`: `s^0, s^1, ..., s^degree`, each modulo `q`.
pub open spec fn encrypted_power_logs(s: int, degree: nat) -> Seq<int> {
    Seq::new(degree + 1, |i: int| reduce(pow(s, i as nat)))
}

/// The logarithms of the shifted powers: `shift * s^i` for `i` up to
/// `degree`, each modulo `q`.
pub open spec fn shifted_power_logs(s: int, shift: int, degree: nat) -> Seq<int> {
    Seq::new(degree + 1, |i: int| reduce(shift * pow(s, i as nat)))
}

/// The trusted setup for a target polynomial with the public factors
/// `public_roots` and `degree` factors in all, made with the secret
/// evaluation point `s` and the secret shift `shift`.
pub open spec fn setup(public_roots: Seq<(int, int)>, degree: nat, s: int, shift: int)
    -> VerifierTranscriptView {
    VerifierTranscriptView {
        encrypted_powers: encrypted_power_logs(s, degree),
        shifted_powers: shifted_power_logs(s, shift, degree),
        public_root_verification_key: reduce(product_at(public_roots, s)),
        power_verification_key: reduce(shift),
    }
}

/// The verifier's side of the protocol: the encrypted and the shifted powers
/// of a secret scalar, which the prover evaluates its polynomial on, and the
/// two verification keys. The secret scalars themselves are not kept.
#[derive(Debug, Eq, PartialEq)]
pub struct VerifierTranscript {
    encrypted_powers: Vec<G1Projective>,
    shifted_powers: Vec<G1Projective>,
    public_root_verification_key: G2Affine,
    power_verification_key: G2Affine,
}

impl View for VerifierTranscript {
    type V = VerifierTranscriptView;

    closed spec fn view(&self) -> VerifierTranscriptView {
        VerifierTranscriptView {
            encrypted_powers: g1_logs(self.encrypted_powers@),
            shifted_powers: g1_logs(self.shifted_powers@),
            public_root_verification_key: g2_log(self.public_root_verification_key),
            power_verification_key: g2_log(self.power_verification_key),
        }
    }
}

impl Clone for VerifierTranscript {
    fn clone(&self) -> (r: Self)
        ensures
            r@ == self@,
    {
        VerifierTranscript {
            encrypted_powers: vstd::slice::slice_to_vec(self.encrypted_powers.as_slice()),
            shifted_powers: vstd::slice::slice_to_vec(self.shifted_powers.as_slice()),
            public_root_verification_key: self.public_root_verification_key,
            power_verification_key: self.power_verification_key,
        }
    }
}

impl VerifierTranscript {
    /// The trusted setup for `target_polynomial` with two freshly drawn
    /// secret scalars, as [`VerifierTranscript::from_secrets`] makes it.
    pub fn new(target_polynomial: &Polynomial) -> (r: Self)
        ensures
            exists|s: int, shift: int|
                r@ == setup(
                    target_polynomial@.public_roots(),
                    target_polynomial@.roots.len(),
                    s,
                    shift,
                ),
    {
        let shift = scalar_random();
        let scalar = scalar_random();
        let r = Self::from_secrets(target_polynomial, &scalar, &shift);
        assert(r@ == setup(
            target_polynomial@.public_roots(),
            target_polynomial@.roots.len(),
            scalar_value(scalar),
            scalar_value(shift),
        ));
        r
    }

    /// The trusted setup for `target_polynomial` with the secret evaluation
    /// point `scalar` and the secret shift `shift`: the encrypted and the
    /// shifted powers up to the polynomial's degree, the key `t(s)` times
    /// the G2 generator, and the key `shift` times the G2 generator.
    pub fn from_secrets(target_polynomial: &Polynomial, scalar: &Scalar, shift: &Scalar) -> (r:
        Self)
        ensures
            r@ == setup(
                target_polynomial@.public_roots(),
                target_polynomial@.roots.len(),
                scalar_value(*scalar),
                scalar_value(*shift),
            ),
    {
        let g2 = g2_generator();
        let (encrypted_powers, shifted_powers) = Self::calculate_encrypted_powers(
            scalar,
            shift,
            target_polynomial.degree(),
        );
        let t = target_polynomial.eval_public_polynomial(scalar);
        let public_root_verification_key = g2_mul(&g2, &t);
        let power_verification_key = g2_mul(&g2, shift);
        proof {
            lemma_reduce_range(
                product_at(target_polynomial@.public_roots(), scalar_value(*scalar)),
            );
        }
        Self {
            encrypted_powers,
            shifted_powers,
            public_root_verification_key,
            power_verification_key,
        }
    }

    /// The encrypted powers `s^i * G1` and the shifted powers
    /// `shift * s^i * G1` for `i` from zero to `degree`. The powers of `s`
    /// are accumulated by repeated multiplication.
    pub fn calculate_encrypted_powers(scalar: &Scalar, shift: &Scalar, degree: usize) -> (r: (
        Vec<G1Projective>,
        Vec<G1Projective>,
    ))
        ensures
            g1_logs(r.0@) == encrypted_power_logs(scalar_value(*scalar), degree as nat),
            g1_logs(r.1@) == shifted_power_logs(
                scalar_value(*scalar),
                scalar_value(*shift),
                degree as nat,
            ),
    {
        let ghost s = scalar_value(*scalar);
        let ghost d = scalar_value(*shift);
        let g1 = g1_generator();
        let mut encrypted_powers: Vec<G1Projective> = Vec::new();
        let mut shifted_powers: Vec<G1Projective> = Vec::new();
        encrypted_powers.push(g1);
        let shifted_generator = g1_mul(&g1, shift);
        shifted_powers.push(shifted_generator);
        proof {
            lemma_pow0(s);
            lemma_pow1(s);
        }
        if degree >= 1 {
            let mut power = *scalar;
            encrypted_powers.push(g1_mul(&g1, scalar));
            shifted_powers.push(g1_mul(&shifted_generator, scalar));
            proof {
                lemma_reduce_mul(d, s);
            }
            let mut i: usize = 1;
            while i < degree
                invariant
                    1 <= i <= degree,
                    s == scalar_value(*scalar),
                    d == scalar_value(*shift),
                    g1_log(g1) == 1,
                    reduce(scalar_value(power)) == reduce(pow(s, i as nat)),
                    encrypted_powers.len() == i + 1,
                    shifted_powers.len() == i + 1,
                    forall|m: int|
                        0 <= m <= i ==> g1_log(#[trigger] encrypted_powers[m]) == reduce(
                            pow(s, m as nat),
                        ),
                    forall|m: int|
                        0 <= m <= i ==> g1_log(#[trigger] shifted_powers[m]) == reduce(
                            d * pow(s, m as nat),
                        ),
                decreases degree - i,
            {
                let ghost previous = scalar_value(power);
                power = scalar_mul(&power, scalar);
                let shifted_power = scalar_mul(shift, &power);
                proof {
                    lemma_power_step(s, i as nat);
                    lemma_reduce_mul(previous, s);
                    lemma_reduce_mul(pow(s, i as nat), s);
                    lemma_reduce_range(previous * s);
                    lemma_reduce_mul(d, previous * s);
                    lemma_reduce_mul(d, pow(s, (i + 1) as nat));
                    lemma_reduce_range(d * scalar_value(power));
                }
                encrypted_powers.push(g1_mul(&g1, &power));
                shifted_powers.push(g1_mul(&g1, &shifted_power));
                i += 1;
            }
        }
        assert(g1_logs(encrypted_powers@) =~= encrypted_power_logs(s, degree as nat));
        assert(g1_logs(shifted_powers@) =~= shifted_power_logs(s, d, degree as nat));
        (encrypted_powers, shifted_powers)
    }

    /// The encrypted powers and the shifted powers.
    pub fn get_encrypted_powers(&self) -> (r: (&Vec<G1Projective>, &Vec<G1Projective>))
        ensures
            g1_logs(r.0@) == self@.encrypted_powers,
            g1_logs(r.1@) == self@.shifted_powers,
    {
        (&self.encrypted_powers, &self.shifted_powers)
    }

    /// The key that carries `t(s)` and the key that carries the shift.
    pub fn get_verification_keys(&self) -> (r: (&G2Affine, &G2Affine))
        ensures
            g2_log(*r.0) == self@.public_root_verification_key,
            g2_log(*r.1) == self@.power_verification_key,
    {
        (&self.public_root_verification_key, &self.power_verification_key)
    }

    /// Checks the prover's answer with the two pairing equations, and
    /// accepts only if both hold.
    pub fn verify_proof(&self, proof: &ProverTranscript) -> (ok: bool)
        ensures
            ok == self@.accepts(proof@),
    {
        let (px_eval, px_powers_eval, hx_eval) = proof.get_proof_values();
        let g2 = g2_generator();
        let pairing_px = pairing(&px_eval, &g2);
        let pairing_px_shifted = pairing(&px_powers_eval, &g2);
        let pairing_hx_tx = pairing(&hx_eval, &self.public_root_verification_key);
        let pairing_px_shift = pairing(&px_eval, &self.power_verification_key);
        gt_eq(&pairing_px, &pairing_hx_tx) && gt_eq(&pairing_px_shifted, &pairing_px_shift)
    }
}

/// On the powers of a setup, the blinded evaluation of the coefficients of a
/// product of factors is the blinded value of the product at the secret
/// point, and on the shifted powers it is that value times the shift.
pub proof fn lemma_blinded_sum_on_setup(
    roots: Seq<(int, int)>,
    c: Seq<int>,
    s: int,
    shift: int,
    degree: nat,
    b: int,
)
    requires
        0 < roots.len() <= degree,
        congruent(c, product_coefficients(roots)),
    ensures
        blinded_sum(encrypted_power_logs(s, degree), c, b) == reduce(b * product_at(roots, s)),
        blinded_sum(shifted_power_logs(s, shift, degree), c, b) == reduce(
            b * (shift * product_at(roots, s)),
        ),
{
    let exact = product_coefficients(roots);
    lemma_product_coefficients_len(roots);
    lemma_product_coefficients_at(roots, s);
    let n = c.len() as int;
    let powers = power_basis(s, exact.len());
    let scaled = Seq::new(exact.len(), |i: int| shift * pow(s, i as nat));
    let encrypted = encrypted_power_logs(s, degree);
    let shifted = shifted_power_logs(s, shift, degree);
    assert(shorter(encrypted.len(), c.len()) == n);
    assert(shorter(shifted.len(), c.len()) == n);
    assert forall|i: int| 0 <= i < n implies reduce(encrypted[i]) == reduce(powers[i]) && reduce(
        shifted[i],
    ) == reduce(scaled[i]) && reduce(c[i]) == reduce(exact[i]) by {
        lemma_reduce_range(pow(s, i as nat));
        lemma_reduce_range(shift * pow(s, i as nat));
    }
    lemma_weighted_sum_congruent(encrypted, c, powers, exact, n);
    lemma_weighted_sum_congruent(shifted, c, scaled, exact, n);
    lemma_weighted_sum_scaled(powers, scaled, exact, shift, n);
    assert(weighted_sum(powers, exact, n) == poly_at(exact, s));
    lemma_congruent_mul(b, b, weighted_sum(encrypted, c, n), product_at(roots, s));
    lemma_congruent_mul(b, b, weighted_sum(shifted, c, n), shift * product_at(roots, s));
}

/// The equation for the shift holds of every answer that is computed on a
/// setup, whatever the polynomial, its degree and the blinding value are:
/// such an answer is accepted exactly when the equation for the public
/// polynomial holds of it.
pub proof fn lemma_shift_equation_holds(
    polynomial: PolynomialView,
    public_roots: Seq<(int, int)>,
    degree: nat,
    s: int,
    shift: int,
    b: int,
)
    ensures
        ({
            let challenge = setup(public_roots, degree, s, shift);
            let answer = response(polynomial, challenge, b);
            challenge.accepts(answer) <==> reduce(answer.px * 1) == reduce(
                answer.hx * challenge.public_root_verification_key,
            )
        }),
{
    let c = polynomial.coefficients;
    let encrypted = encrypted_power_logs(s, degree);
    let shifted = shifted_power_logs(s, shift, degree);
    let n = shorter(encrypted.len(), c.len());
    let powers = power_basis(s, (degree + 1) as nat);
    let scaled = Seq::new((degree + 1) as nat, |i: int| shift * pow(s, i as nat));
    assert forall|i: int| 0 <= i < n implies reduce(encrypted[i]) == reduce(powers[i]) && reduce(
        shifted[i],
    ) == reduce(scaled[i]) by {
        lemma_reduce_range(pow(s, i as nat));
        lemma_reduce_range(shift * pow(s, i as nat));
    }
    lemma_weighted_sum_congruent(encrypted, c, powers, c, n);
    lemma_weighted_sum_congruent(shifted, c, scaled, c, n);
    lemma_weighted_sum_scaled(powers, scaled, c, shift, n);
    let w = weighted_sum(powers, c, n);
    lemma_congruent_mul(b, b, weighted_sum(encrypted, c, n), w);
    lemma_congruent_mul(b, b, weighted_sum(shifted, c, n), shift * w);
    lemma_reduce_range(b * (shift * w));
    lemma_reduce_mul(b * w, shift);
    assert(b * (shift * w) == (b * w) * shift) by (nonlinear_arith);
}

/// Completeness. An answer that is computed from a well-formed polynomial on
/// the setup made for that polynomial is accepted, whatever the secret
/// point, the shift and the blinding value are.
pub proof fn lemma_honest_response_is_accepted(
    polynomial: PolynomialView,
    s: int,
    shift: int,
    b: int,
)
    requires
        polynomial.well_formed(),
    ensures
        setup(polynomial.public_roots(), polynomial.roots.len(), s, shift).accepts(
            response(
                polynomial,
                setup(polynomial.public_roots(), polynomial.roots.len(), s, shift),
                b,
            ),
        ),
{
    lemma_foreign_response_verdict(polynomial, polynomial, s, shift, b);
    let k = polynomial.num_public_roots;
    lemma_product_at_split(polynomial.roots, k, s);
    let t = product_at(polynomial.public_roots(), s);
    let h = product_at(polynomial.hidden_roots(), s);
    assert(b * (t * h) == (b * h) * t) by (nonlinear_arith);
}

/// The verdict on an answer that is computed from one well-formed
/// polynomial, `other`, on the setup made for another, `target`, of at least
/// the same degree. The equation for the shift always holds, so the answer
/// is accepted exactly when the blinded value of `other` at the secret point
/// agrees, modulo `q`, with the blinded value of its hidden quotient times
/// the value of the target's public polynomial. Where the two differ, the
/// answer is rejected.
pub proof fn lemma_foreign_response_verdict(
    target: PolynomialView,
    other: PolynomialView,
    s: int,
    shift: int,
    b: int,
)
    requires
        target.well_formed(),
        other.well_formed(),
        other.roots.len() <= target.roots.len(),
    ensures
        setup(target.public_roots(), target.roots.len(), s, shift).accepts(
            response(other, setup(target.public_roots(), target.roots.len(), s, shift), b),
        ) <==> reduce(b * product_at(other.roots, s)) == reduce(
            (b * product_at(other.hidden_roots(), s)) * product_at(target.public_roots(), s),
        ),
{
    let degree = target.roots.len();
    let challenge = setup(target.public_roots(), degree, s, shift);
    let answer = response(other, challenge, b);
    let p = product_at(other.roots, s);
    let h = product_at(other.hidden_roots(), s);
    let t = product_at(target.public_roots(), s);
    lemma_blinded_sum_on_setup(other.roots, other.coefficients, s, shift, degree, b);
    lemma_blinded_sum_on_setup(other.hidden_roots(), other.hidden_coefficients, s, shift, degree, b);
    assert(answer.px == reduce(b * p));
    assert(answer.hx == reduce(b * h));
    assert(answer.px_shift == reduce(b * (shift * p)));
    lemma_reduce_range(b * p);
    lemma_reduce_range(b * (shift * p));
    lemma_reduce_mul(b * h, t);
    lemma_reduce_mul(b * p, shift);
    assert(b * (shift * p) == (b * p) * shift) by (nonlinear_arith);
}

/// Non-leakage. On the setup made for a well-formed polynomial, blinding
/// with `b` leaves the first point of the answer as it is without blinding
/// exactly when `(b - 1) * p(s)` is zero modulo `q`, and the shifted point
/// exactly when `(b - 1) * shift * p(s)` is. In every other case the blinded
/// point differs from the plain evaluation.
pub proof fn lemma_blinding_changes_response(
    polynomial: PolynomialView,
    s: int,
    shift: int,
    b: int,
)
    requires
        polynomial.well_formed(),
    ensures
        ({
            let challenge = setup(polynomial.public_roots(), polynomial.roots.len(), s, shift);
            let p = product_at(polynomial.roots, s);
            &&& response(polynomial, challenge, b).px == response(polynomial, challenge, 1).px
                <==> reduce((b - 1) * p) == 0
            &&& response(polynomial, challenge, b).px_shift == response(
                polynomial,
                challenge,
                1,
            ).px_shift <==> reduce((b - 1) * (shift * p)) == 0
        }),
{
    let degree = polynomial.roots.len();
    let p = product_at(polynomial.roots, s);
    lemma_blinded_sum_on_setup(polynomial.roots, polynomial.coefficients, s, shift, degree, b);
    lemma_blinded_sum_on_setup(polynomial.roots, polynomial.coefficients, s, shift, degree, 1);
    vstd::arithmetic::div_mod::lemma_mod_equivalence(b * p, 1 * p, crate::field::field_order());
    vstd::arithmetic::div_mod::lemma_mod_equivalence(
        b * (shift * p),
        1 * (shift * p),
        crate::field::field_order(),
    );
    assert(b * p - 1 * p == (b - 1) * p) by (nonlinear_arith);
    assert(b * (shift * p) - 1 * (shift * p) == (b - 1) * (shift * p)) by (nonlinear_arith);
}

/// Verification depends on the setup and the answer alone: any two results
/// of [`VerifierTranscript::verify_proof`] on the same arguments are equal.
pub proof fn lemma_verdict_is_repeatable(
    challenge: VerifierTranscriptView,
    proof: ProverTranscriptView,
    first: bool,
    second: bool,
)
    requires
        first == challenge.accepts(proof),
        second == challenge.accepts(proof),
    ensures
        first == second,
{
}

} // verus!
