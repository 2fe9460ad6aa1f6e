//! Roots and polynomials: linear factors over the scalar field and over
//! machine integers, and the polynomials that are products of them.

use crate::algebra::{
    divides, fits_i64, lemma_divides_negated, lemma_partial_product_step,
    lemma_product_coefficients_len, lemma_product_coefficients_split, lemma_quotient_magnitude,
    linear_at, partial_product_at, poly_mul, product_at, product_coefficients, product_fits,
    shorter, times_linear, truncated_quotient, weighted_sum,
};
use crate::encrypted_zksnark::{
    ProverTranscript, ProverTranscriptView, VerifierTranscript, VerifierTranscriptView,
};
use crate::error::Error;
use crate::field::{
    congruent, lemma_congruent_add, lemma_congruent_mul, lemma_poly_mul_congruent,
    lemma_reduce_add, lemma_reduce_mul, lemma_reduce_range, reduce, scalar_add, scalar_from_u64,
    scalar_mul, scalar_neg, scalar_one, scalar_random, scalar_value, scalar_values,
};
use crate::group::{g1_add, g1_identity, g1_log, g1_logs, g1_mul, g1_to_affine};
use crate::unencrypted_zksnark::UnencryptedChallengeResponse;
use bls12_381::{G1Projective, Scalar};
use vstd::prelude::*;

verus! {

/// The magnitude of `v`.
fn magnitude(v: i64) -> (m: u64)
    ensures
        m == (if v >= 0 {
            v as int
        } else {
            -(v as int)
        }),
{
    if v >= 0 {
        v as u64
    } else if v == i64::MIN {
        0x8000_0000_0000_0000u64
    } else {
        (-v) as u64
    }
}

/// The field element of a machine integer; a negative integer becomes the
/// additive inverse of its magnitude.
fn lift(v: i64) -> (s: Scalar)
    ensures
        scalar_value(s) == reduce(v as int),
{
    let m = scalar_from_u64(magnitude(v));
    if v < 0 {
        scalar_neg(&m)
    } else {
        m
    }
}

/// A linear factor `a*x + b` with coefficients in the scalar field.
pub struct Root {
    pub a: Scalar,
    pub b: Scalar,
}

impl View for Root {
    type V = (int, int);

    /// The pair of the values of `a` and `b`.
    open spec fn view(&self) -> (int, int) {
        (scalar_value(self.a), scalar_value(self.b))
    }
}

impl Clone for Root {
    fn clone(&self) -> (r: Self)
        ensures
            r == *self,
    {
        Root { a: self.a, b: self.b }
    }
}

impl Root {
    /// Builds the factor `a*x + b` over the scalar field, or reports that `a`
    /// does not divide `b`. The coefficients are taken modulo the field
    /// order, so a negative one becomes an additive inverse.
    pub fn new(a: i64, b: i64) -> (r: Result<Self, Error>)
        ensures
            divides(a as int, b as int) ==> r is Ok && r->Ok_0@ == (
                reduce(a as int),
                reduce(b as int),
            ),
            !divides(a as int, b as int) ==> r == Err::<Self, Error>(
                Error::OutsideIntegerField(a, b),
            ),
    {
        proof {
            if a != 0 {
                lemma_divides_negated(a as int, b as int);
            }
        }
        if a != 0 && (a == -1 || b % a == 0) {
            return Ok(Self { a: lift(a), b: lift(b) });
        }
        Err(Error::OutsideIntegerField(a, b))
    }

    /// The value `a*x + b` in the scalar field.
    pub fn eval(&self, x: &Scalar) -> (y: Scalar)
        ensures
            scalar_value(y) == reduce(linear_at(self@, scalar_value(*x))),
    {
        let ax = scalar_mul(x, &self.a);
        proof {
            lemma_reduce_add(scalar_value(*x) * scalar_value(self.a), scalar_value(self.b));
            assert(scalar_value(*x) * scalar_value(self.a) == scalar_value(self.a) * scalar_value(
                *x,
            )) by (nonlinear_arith);
        }
        scalar_add(&ax, &self.b)
    }
}

impl TryFrom<(i64, i64)> for Root {
    type Error = Error;

    /// The same as [`Root::new`] on the pair's two numbers.
    fn try_from(pair: (i64, i64)) -> (r: Result<Self, Error>)
        ensures
            divides(pair.0 as int, pair.1 as int) ==> r is Ok && r->Ok_0@ == (
                reduce(pair.0 as int),
                reduce(pair.1 as int),
            ),
            !divides(pair.0 as int, pair.1 as int) ==> r == Err::<Self, Error>(
                Error::OutsideIntegerField(pair.0, pair.1),
            ),
    {
        Root::new(pair.0, pair.1)
    }
}

impl vstd::std_specs::convert::TryFromSpecImpl<(i64, i64)> for Root {
    /// The conversion is described by the contract of `try_from`, over the
    /// values of the coefficients, not by a value of `Root`.
    open spec fn obeys_try_from_spec() -> bool {
        false
    }

    open spec fn try_from_spec(pair: (i64, i64)) -> Result<Self, Error> {
        Err(Error::OutsideIntegerField(pair.0, pair.1))
    }
}

/// The factors of a sequence of roots, in order.
pub open spec fn root_views(roots: Seq<Root>) -> Seq<(int, int)> {
    roots.map_values(|r: Root| r@)
}

/// Whether `u` agrees modulo `q` with `v` read backwards.
pub open spec fn congruent_reversed(u: Seq<int>, v: Seq<int>) -> bool {
    &&& u.len() == v.len()
    &&& forall|j: int| 0 <= j < u.len() ==> reduce(#[trigger] u[j]) == reduce(v[v.len() - 1 - j])
}

/// The scalars of `v` in reverse order.
fn reversed(v: &Vec<Scalar>) -> (r: Vec<Scalar>)
    ensures
        r@ == v@.reverse(),
{
    let mut r: Vec<Scalar> = Vec::new();
    let mut i: usize = v.len();
    while i > 0
        invariant
            i <= v.len(),
            r.len() == v.len() - i,
            forall|j: int| 0 <= j < r.len() ==> r[j] == v[v.len() - 1 - j],
        decreases i,
    {
        i -= 1;
        r.push(v[i]);
    }
    assert(r@ =~= v@.reverse());
    r
}

/// What a [`Polynomial`] stands for: its factors, the number of them that
/// are public, and the values of the two coefficient vectors it keeps.
pub struct PolynomialView {
    pub roots: Seq<(int, int)>,
    pub coefficients: Seq<int>,
    pub hidden_coefficients: Seq<int>,
    pub num_public_roots: int,
}

impl PolynomialView {
    /// The public factors: the first `num_public_roots` of them.
    pub open spec fn public_roots(self) -> Seq<(int, int)> {
        self.roots.take(self.num_public_roots)
    }

    /// The hidden factors: all but the public ones.
    pub open spec fn hidden_roots(self) -> Seq<(int, int)> {
        self.roots.skip(self.num_public_roots)
    }

    /// Some factors are public and some are hidden, and the two coefficient
    /// vectors are, modulo `q`, the coefficients of the product of all
    /// factors and of the product of the hidden ones, from the constant term
    /// upwards.
    pub open spec fn well_formed(self) -> bool {
        &&& 0 < self.num_public_roots < self.roots.len()
        &&& congruent(self.coefficients, product_coefficients(self.roots))
        &&& congruent(self.hidden_coefficients, product_coefficients(self.hidden_roots()))
    }
}

/// A polynomial over the scalar field, given by its linear factors. The
/// first `num_public_roots` factors form the public target polynomial `t`,
/// the others the hidden quotient `h`, and `p = t * h`.
pub struct Polynomial {
    roots: Vec<Root>,
    coefficients: Vec<Scalar>,
    hidden_coefficients: Vec<Scalar>,
    num_public_roots: usize,
}

impl View for Polynomial {
    type V = PolynomialView;

    closed spec fn view(&self) -> PolynomialView {
        PolynomialView {
            roots: root_views(self.roots@),
            coefficients: scalar_values(self.coefficients@),
            hidden_coefficients: scalar_values(self.hidden_coefficients@),
            num_public_roots: self.num_public_roots as int,
        }
    }
}

impl Clone for Polynomial {
    fn clone(&self) -> (r: Self)
        ensures
            r@ == self@,
    {
        proof {
            use_type_invariant(self);
        }
        let mut roots: Vec<Root> = Vec::new();
        let mut i: usize = 0;
        while i < self.roots.len()
            invariant
                i <= self.roots.len(),
                roots@ == self.roots@.take(i as int),
            decreases self.roots.len() - i,
        {
            roots.push(self.roots[i].clone());
            i += 1;
            assert(roots@ =~= self.roots@.take(i as int));
        }
        assert(self.roots@.take(self.roots.len() as int) =~= self.roots@);
        Polynomial {
            roots,
            coefficients: vstd::slice::slice_to_vec(self.coefficients.as_slice()),
            hidden_coefficients: vstd::slice::slice_to_vec(self.hidden_coefficients.as_slice()),
            num_public_roots: self.num_public_roots,
        }
    }
}

impl Polynomial {
    /// Every polynomial that exists was built by [`Polynomial::new`] and is
    /// well formed.
    #[verifier::type_invariant]
    pub open spec fn wf(&self) -> bool {
        self@.well_formed()
    }

    /// Builds the polynomial with the given factors, of which the first
    /// `num_public_roots` are public. At least one factor must be public and
    /// at least one hidden.
    pub fn new(roots: Vec<Root>, num_public_roots: usize) -> (r: Result<Self, Error>)
        ensures
            0 < num_public_roots < roots.len() ==> r is Ok && r->Ok_0.wf() && r->Ok_0@.roots
                == root_views(roots@) && r->Ok_0@.num_public_roots == num_public_roots,
            !(0 < num_public_roots < roots.len()) ==> r == Err::<Self, Error>(
                Error::InvalidPublicRoots(num_public_roots),
            ),
    {
        if num_public_roots == 0 || num_public_roots >= roots.len() {
            return Err(Error::InvalidPublicRoots(num_public_roots));
        }
        let coefficients = Self::combine_roots(roots.as_slice());
        let hidden_coefficients = Self::combine_roots(
            vstd::slice::slice_subrange(roots.as_slice(), num_public_roots, roots.len()),
        );
        proof {
            assert(roots@.subrange(num_public_roots as int, roots.len() as int) =~= roots@.skip(
                num_public_roots as int,
            ));
            assert(root_views(roots@.skip(num_public_roots as int)) =~= root_views(roots@).skip(
                num_public_roots as int,
            ));
        }
        Ok(Self { roots, coefficients, hidden_coefficients, num_public_roots })
    }

    /// Multiplies the factors out. The result lists, from the constant term
    /// upwards, the coefficients of the product of all `roots`, each modulo
    /// `q`; no roots give no coefficients.
    pub fn combine_roots(roots: &[Root]) -> (c: Vec<Scalar>)
        ensures
            congruent(scalar_values(c@), product_coefficients(root_views(roots@))),
    {
        let ghost views = root_views(roots@);
        let mut coefficients: Vec<Scalar> = Vec::new();
        let mut i: usize = 0;
        assert(views.take(0) =~= Seq::<(int, int)>::empty());
        while i < roots.len()
            invariant
                i <= roots.len(),
                views == root_views(roots@),
                congruent_reversed(
                    scalar_values(coefficients@),
                    product_coefficients(views.take(i as int)),
                ),
            decreases roots.len() - i,
        {
            let root = &roots[i];
            let ghost done = product_coefficients(views.take(i as int));
            let ghost next = product_coefficients(views.take(i + 1));
            proof {
                lemma_product_coefficients_len(views.take(i as int));
                lemma_product_coefficients_len(views.take(i + 1));
                assert(views.take(i + 1).drop_last() =~= views.take(i as int));
                assert(views.take(i + 1).last() == root@);
            }
            if coefficients.len() == 0 {
                coefficients.push(root.a);
                coefficients.push(root.b);
                assert(next =~= seq![root@.1, root@.0]);
            } else {
                assert(next == times_linear(done, root@));
                let n = coefficients.len();
                let mut new_coefficients: Vec<Scalar> = Vec::new();
                let lead = scalar_mul(&coefficients[0], &root.a);
                new_coefficients.push(lead);
                proof {
                    assert(scalar_values(coefficients@)[0] == scalar_value(coefficients[0]));
                    lemma_congruent_mul(
                        scalar_value(coefficients[0]),
                        done[n - 1],
                        root@.0,
                        root@.0,
                    );
                    lemma_reduce_range(scalar_value(coefficients[0]) * root@.0);
                    assert(done[n - 1] * root@.0 == root@.0 * done[n - 1]) by (nonlinear_arith);
                }
                let mut j: usize = 1;
                while j < n
                    invariant
                        1 <= j <= n,
                        n == coefficients.len(),
                        n == done.len(),
                        new_coefficients.len() == j,
                        next == times_linear(done, root@),
                        congruent_reversed(scalar_values(coefficients@), done),
                        forall|m: int|
                            0 <= m < j ==> reduce(#[trigger] scalar_value(new_coefficients[m]))
                                == reduce(next[n - m]),
                    decreases n - j,
                {
                    let low = scalar_mul(&coefficients[j - 1], &root.b);
                    let high = scalar_mul(&coefficients[j], &root.a);
                    let sum = scalar_add(&low, &high);
                    proof {
                        let u = scalar_value(coefficients[j - 1]);
                        let v = scalar_value(coefficients[j as int]);
                        assert(scalar_values(coefficients@)[j - 1] == u);
                        assert(scalar_values(coefficients@)[j as int] == v);
                        lemma_congruent_mul(u, done[n - j], root@.1, root@.1);
                        lemma_congruent_mul(v, done[n - 1 - j], root@.0, root@.0);
                        lemma_reduce_range(u * root@.1);
                        lemma_reduce_range(v * root@.0);
                        lemma_congruent_add(
                            reduce(u * root@.1),
                            done[n - j] * root@.1,
                            reduce(v * root@.0),
                            done[n - 1 - j] * root@.0,
                        );
                        lemma_reduce_range(reduce(u * root@.1) + reduce(v * root@.0));
                        assert(done[n - j] * root@.1 == root@.1 * done[n - j])
                            by (nonlinear_arith);
                        assert(done[n - 1 - j] * root@.0 == root@.0 * done[n - 1 - j])
                            by (nonlinear_arith);
                    }
                    new_coefficients.push(sum);
                    j += 1;
                }
                let tail = scalar_mul(&coefficients[n - 1], &root.b);
                proof {
                    let u = scalar_value(coefficients[n - 1]);
                    assert(scalar_values(coefficients@)[n - 1] == u);
                    lemma_congruent_mul(u, done[0], root@.1, root@.1);
                    lemma_reduce_range(u * root@.1);
                    assert(done[0] * root@.1 == root@.1 * done[0]) by (nonlinear_arith);
                }
                new_coefficients.push(tail);
                coefficients = new_coefficients;
                assert forall|m: int| 0 <= m < coefficients.len() implies reduce(
                    #[trigger] scalar_values(coefficients@)[m],
                ) == reduce(next[next.len() - 1 - m]) by {
                    assert(scalar_values(coefficients@)[m] == scalar_value(coefficients[m]));
                }
            }
            i += 1;
        }
        assert(views.take(roots.len() as int) =~= views);
        let c = reversed(&coefficients);
        assert(scalar_values(c@).len() == c@.len());
        assert forall|j: int| 0 <= j < c@.len() implies reduce(#[trigger] scalar_values(c@)[j])
            == reduce(product_coefficients(views)[j]) by {
            assert(scalar_values(c@)[j] == scalar_values(coefficients@)[coefficients.len() - 1
                - j]);
        }
        c
    }

    /// The number of factors.
    pub fn degree(&self) -> (d: usize)
        ensures
            d == self@.roots.len(),
    {
        self.roots.len()
    }

    /// Answers the verifier's challenge with a fresh blinding scalar: draws
    /// one and answers as [`Polynomial::generate_response_with_blinding`]
    /// does. The three parts of the answer share that one scalar.
    pub fn generate_response(&self, verifier_transcript: &VerifierTranscript) -> (r:
        ProverTranscript)
        ensures
            exists|b: int| r@ == response(self@, verifier_transcript@, b),
    {
        let b = scalar_random();
        let r = self.generate_response_with_blinding(verifier_transcript, &b);
        assert(r@ == response(self@, verifier_transcript@, scalar_value(b)));
        r
    }

    /// Answers the verifier's challenge with the given blinding scalar: the
    /// blinded evaluations of `p` on the encrypted powers, of `p` on the
    /// shifted powers, and of the hidden quotient `h` on the encrypted
    /// powers.
    pub fn generate_response_with_blinding(
        &self,
        verifier_transcript: &VerifierTranscript,
        blinding_scalar: &Scalar,
    ) -> (r: ProverTranscript)
        ensures
            r@ == response(self@, verifier_transcript@, scalar_value(*blinding_scalar)),
    {
        let (encrypted_powers, shifted_powers) = verifier_transcript.get_encrypted_powers();
        let px = self.eval(
            encrypted_powers.as_slice(),
            self.coefficients.as_slice(),
            blinding_scalar,
        );
        let hx = self.eval(
            encrypted_powers.as_slice(),
            self.hidden_coefficients.as_slice(),
            blinding_scalar,
        );
        let px_shift = self.eval(
            shifted_powers.as_slice(),
            self.coefficients.as_slice(),
            blinding_scalar,
        );
        ProverTranscript::new(g1_to_affine(&px), g1_to_affine(&px_shift), g1_to_affine(&hx))
    }

    /// The blinded evaluation of `coefficients` on `powers`: the sum of the
    /// points `powers[i]`, each multiplied by `coefficients[i]` times the
    /// blinding scalar, over the indices that both have.
    fn eval(
        &self,
        powers: &[G1Projective],
        coefficients: &[Scalar],
        blinding_scalar: &Scalar,
    ) -> (e: G1Projective)
        ensures
            g1_log(e) == blinded_sum(
                g1_logs(powers@),
                scalar_values(coefficients@),
                scalar_value(*blinding_scalar),
            ),
    {
        let ghost basis = g1_logs(powers@);
        let ghost c = scalar_values(coefficients@);
        let ghost b = scalar_value(*blinding_scalar);
        let n = if powers.len() <= coefficients.len() {
            powers.len()
        } else {
            coefficients.len()
        };
        let mut acc = g1_identity();
        let mut i: usize = 0;
        while i < n
            invariant
                i <= n,
                n == shorter(powers@.len(), coefficients@.len()),
                basis == g1_logs(powers@),
                c == scalar_values(coefficients@),
                b == scalar_value(*blinding_scalar),
                g1_log(acc) == reduce(b * weighted_sum(basis, c, i as int)),
            decreases n - i,
        {
            let factor = scalar_mul(&coefficients[i], blinding_scalar);
            let term = g1_mul(&powers[i], &factor);
            let ghost before = weighted_sum(basis, c, i as int);
            proof {
                let p = basis[i as int];
                let ci = c[i as int];
                assert(p == g1_log(powers[i as int]));
                assert(ci == scalar_value(coefficients[i as int]));
                lemma_reduce_mul(p, ci * b);
                lemma_reduce_add(b * before, p * (ci * b));
                assert(b * before + p * (ci * b) == b * (before + p * ci)) by (nonlinear_arith);
            }
            acc = g1_add(&acc, &term);
            i += 1;
        }
        acc
    }

    /// The value `t(s)` of the public target polynomial at `scalar`: the
    /// product of the values of the public factors.
    pub fn eval_public_polynomial(&self, scalar: &Scalar) -> (t: Scalar)
        ensures
            scalar_value(t) == reduce(product_at(self@.public_roots(), scalar_value(*scalar))),
    {
        proof {
            use_type_invariant(self);
        }
        let ghost views = root_views(self.roots@);
        let ghost x = scalar_value(*scalar);
        let mut acc = scalar_one();
        let mut i: usize = 0;
        assert(views.take(0) =~= Seq::<(int, int)>::empty());
        while i < self.num_public_roots
            invariant
                i <= self.num_public_roots <= self.roots.len(),
                views == root_views(self.roots@),
                x == scalar_value(*scalar),
                scalar_value(acc) == reduce(partial_product_at(views, i as int, x)),
            decreases self.num_public_roots - i,
        {
            let y = self.roots[i].eval(scalar);
            proof {
                assert(views[i as int] == self.roots[i as int]@);
                lemma_partial_product_step(views, i as int, x);
                lemma_reduce_mul(partial_product_at(views, i as int, x), linear_at(views[i as int], x));
            }
            acc = scalar_mul(&acc, &y);
            i += 1;
        }
        acc
    }
}

/// Divisibility. The coefficients that a well-formed polynomial keeps are,
/// modulo `q`, the coefficients of its public polynomial `t` and its hidden
/// coefficients, multiplied out: `p = t * h`.
pub proof fn lemma_coefficients_are_public_times_hidden(polynomial: PolynomialView)
    requires
        polynomial.well_formed(),
    ensures
        congruent(
            polynomial.coefficients,
            poly_mul(
                product_coefficients(polynomial.public_roots()),
                polynomial.hidden_coefficients,
            ),
        ),
{
    let public = product_coefficients(polynomial.public_roots());
    let hidden = product_coefficients(polynomial.hidden_roots());
    lemma_product_coefficients_split(polynomial.roots, polynomial.num_public_roots);
    lemma_poly_mul_congruent(public, polynomial.hidden_coefficients, hidden);
    let exact = poly_mul(public, hidden);
    let kept = poly_mul(public, polynomial.hidden_coefficients);
    assert forall|j: int| 0 <= j < polynomial.coefficients.len() implies reduce(
        #[trigger] polynomial.coefficients[j],
    ) == reduce(kept[j]) by {
        assert(reduce(polynomial.coefficients[j]) == reduce(exact[j]));
        assert(reduce(kept[j]) == reduce(exact[j]));
    }
}

/// The logarithm of the blinded evaluation of the coefficients `c` on points
/// with logarithms `basis`: `b` times the sum of `basis[i] * c[i]` over the
/// indices that both have, modulo `q`.
pub open spec fn blinded_sum(basis: Seq<int>, c: Seq<int>, b: int) -> int {
    reduce(b * weighted_sum(basis, c, shorter(basis.len(), c.len())))
}

/// The prover's answer to the challenge `challenge`, computed from the
/// polynomial `polynomial` with the blinding value `b`.
pub open spec fn response(
    polynomial: PolynomialView,
    challenge: VerifierTranscriptView,
    b: int,
) -> ProverTranscriptView {
    ProverTranscriptView {
        px: blinded_sum(challenge.encrypted_powers, polynomial.coefficients, b),
        px_shift: blinded_sum(challenge.shifted_powers, polynomial.coefficients, b),
        hx: blinded_sum(challenge.encrypted_powers, polynomial.hidden_coefficients, b),
    }
}

/// A linear factor `a*x + b` with machine-integer coefficients.
pub struct SimpleRoot {
    a: i64,
    b: i64,
}

impl View for SimpleRoot {
    type V = (int, int);

    /// The pair `(a, b)`.
    closed spec fn view(&self) -> (int, int) {
        (self.a as int, self.b as int)
    }
}

impl Clone for SimpleRoot {
    fn clone(&self) -> (r: Self)
        ensures
            r@ == self@,
    {
        SimpleRoot { a: self.a, b: self.b }
    }
}

impl SimpleRoot {
    /// Builds the factor `a*x + b`, or reports that `a` does not divide `b`.
    pub fn new(a: i64, b: i64) -> (r: Result<Self, Error>)
        ensures
            divides(a as int, b as int) ==> r is Ok && r->Ok_0@ == (a as int, b as int),
            !divides(a as int, b as int) ==> r == Err::<Self, Error>(Error::OutsideIntegerField(a, b)),
    {
        proof {
            if a != 0 {
                lemma_divides_negated(a as int, b as int);
            }
        }
        if a != 0 && (a == -1 || b % a == 0) {
            return Ok(Self { a, b });
        }
        Err(Error::OutsideIntegerField(a, b))
    }

    /// Whether [`SimpleRoot::eval`] can compute the value at `x` in `i64`.
    pub open spec fn eval_fits(&self, x: int) -> bool {
        fits_i64(self@.0 * x) && fits_i64(linear_at(self@, x))
    }

    /// The value `a*x + b`.
    pub fn eval(&self, x: i64) -> (y: i64)
        requires
            self.eval_fits(x as int),
        ensures
            y == linear_at(self@, x as int),
    {
        self.a * x + self.b
    }
}

/// The factors of a sequence of roots, in order.
pub open spec fn simple_root_views(roots: Seq<SimpleRoot>) -> Seq<(int, int)> {
    roots.map_values(|r: SimpleRoot| r@)
}

/// Copies the first `n` roots of `roots`.
fn copy_prefix(roots: &Vec<SimpleRoot>, n: usize) -> (out: Vec<SimpleRoot>)
    requires
        n <= roots.len(),
    ensures
        simple_root_views(out@) == simple_root_views(roots@).take(n as int),
{
    let mut out: Vec<SimpleRoot> = Vec::new();
    let mut i: usize = 0;
    while i < n
        invariant
            i <= n <= roots.len(),
            out.len() == i,
            simple_root_views(out@) == simple_root_views(roots@).take(i as int),
        decreases n - i,
    {
        let ghost before = out@;
        let r = roots[i].clone();
        out.push(r);
        i += 1;
        assert forall|j: int| 0 <= j < i implies simple_root_views(out@)[j] == simple_root_views(
            roots@,
        ).take(i as int)[j] by {
            if j < i - 1 {
                assert(simple_root_views(before)[j] == simple_root_views(roots@).take(i - 1)[j]);
            }
        }
        assert(simple_root_views(out@) =~= simple_root_views(roots@).take(i as int));
    }
    out
}

/// The product of the values of `roots` at `x`.
fn product_of_evals(roots: &Vec<SimpleRoot>, x: i64) -> (y: i64)
    requires
        product_fits(simple_root_views(roots@), x as int),
    ensures
        y == product_at(simple_root_views(roots@), x as int),
{
    let ghost views = simple_root_views(roots@);
    let mut acc: i64 = 1;
    let mut i: usize = 0;
    assert(views.take(0) =~= Seq::<(int, int)>::empty());
    while i < roots.len()
        invariant
            i <= roots.len(),
            views == simple_root_views(roots@),
            product_fits(views, x as int),
            acc == partial_product_at(views, i as int, x as int),
        decreases roots.len() - i,
    {
        assert(views[i as int] == roots[i as int]@);
        let y = roots[i].eval(x);
        proof {
            lemma_partial_product_step(views, i as int, x as int);
            assert(fits_i64(partial_product_at(views, i + 1, x as int)));
        }
        acc = acc * y;
        i += 1;
    }
    assert(views.take(roots.len() as int) =~= views);
    acc
}

/// What an [`UnencryptedPolynomial`] stands for: its factors, and the
/// factors that were made public.
pub struct UnencryptedPolynomialView {
    pub roots: Seq<(int, int)>,
    pub public_roots: Seq<(int, int)>,
}

/// A polynomial over machine integers, given by its linear factors. Some of
/// them, taken from the front, may be marked as public.
pub struct UnencryptedPolynomial {
    roots: Vec<SimpleRoot>,
    public_roots: Vec<SimpleRoot>,
}

impl View for UnencryptedPolynomial {
    type V = UnencryptedPolynomialView;

    closed spec fn view(&self) -> UnencryptedPolynomialView {
        UnencryptedPolynomialView {
            roots: simple_root_views(self.roots@),
            public_roots: simple_root_views(self.public_roots@),
        }
    }
}

impl Clone for UnencryptedPolynomial {
    fn clone(&self) -> (r: Self)
        ensures
            r@ == self@,
    {
        let roots = copy_prefix(&self.roots, self.roots.len());
        let public_roots = copy_prefix(&self.public_roots, self.public_roots.len());
        assert(simple_root_views(self.roots@).take(self.roots.len() as int) =~= simple_root_views(
            self.roots@,
        ));
        assert(simple_root_views(self.public_roots@).take(self.public_roots.len() as int)
            =~= simple_root_views(self.public_roots@));
        UnencryptedPolynomial { roots, public_roots }
    }
}

impl UnencryptedPolynomial {
    /// The polynomial with the given factors, none of them public.
    pub fn new(roots: Vec<SimpleRoot>) -> (p: Self)
        ensures
            p@.roots == simple_root_views(roots@),
            p@.public_roots == Seq::<(int, int)>::empty(),
    {
        let p = Self { roots, public_roots: Vec::new() };
        assert(p@.public_roots =~= Seq::<(int, int)>::empty());
        p
    }

    /// Marks the first `num_public` factors as public.
    pub fn set_public_roots(self, num_public: usize) -> (p: Self)
        requires
            num_public <= self@.roots.len(),
        ensures
            p@.roots == self@.roots,
            p@.public_roots == self@.roots.take(num_public as int),
    {
        let public_roots = copy_prefix(&self.roots, num_public);
        Self { roots: self.roots, public_roots }
    }

    /// The number of factors.
    pub fn degree(&self) -> (d: usize)
        ensures
            d == self@.roots.len(),
    {
        self.roots.len()
    }

    /// The polynomial made of the public factors alone, or
    /// [`Error::NoPublicRoots`] when none is public.
    pub fn get_public_polynomial(&self) -> (r: Result<UnencryptedPolynomial, Error>)
        ensures
            self@.public_roots.len() > 0 ==> r is Ok && r->Ok_0@.roots == self@.public_roots
                && r->Ok_0@.public_roots == Seq::<(int, int)>::empty(),
            self@.public_roots.len() == 0 ==> r == Err::<UnencryptedPolynomial, Error>(
                Error::NoPublicRoots,
            ),
    {
        if self.public_roots.len() == 0 {
            return Err(Error::NoPublicRoots);
        }
        let roots = copy_prefix(&self.public_roots, self.public_roots.len());
        assert(simple_root_views(self.public_roots@).take(self.public_roots.len() as int)
            =~= simple_root_views(self.public_roots@));
        Ok(UnencryptedPolynomial::new(roots))
    }

    /// The value of the polynomial at `x`: the product of its factors there.
    pub fn eval(&self, x: i64) -> (y: i64)
        requires
            product_fits(self@.roots, x as int),
        ensures
            y == product_at(self@.roots, x as int),
    {
        product_of_evals(&self.roots, x)
    }

    /// Whether [`UnencryptedPolynomial::answer_challenge`] can compute its
    /// answer at `x` in `i64`: both products can be computed, and the
    /// division of one by the other is defined.
    pub open spec fn can_answer(&self, x: int) -> bool {
        &&& product_fits(self@.roots, x)
        &&& product_fits(self@.public_roots, x)
        &&& product_at(self@.public_roots, x) != 0
        &&& !(product_at(self@.roots, x) == i64::MIN && product_at(self@.public_roots, x) == -1)
    }

    /// The prover's answer to the challenge point `x`: the value `p(x)` and
    /// the quotient of `p(x)` by the value `t(x)` of the public factors.
    pub fn answer_challenge(&self, x: i64) -> (r: UnencryptedChallengeResponse)
        requires
            self.can_answer(x as int),
        ensures
            r@.0 == product_at(self@.roots, x as int),
            r@.1 == truncated_quotient(
                product_at(self@.roots, x as int),
                product_at(self@.public_roots, x as int),
            ),
    {
        let px = self.eval(x);
        let tx = product_of_evals(&self.public_roots, x);
        proof {
            if px >= 0 {
                lemma_quotient_magnitude(px as int, tx as int);
            } else {
                lemma_quotient_magnitude(-(px as int), tx as int);
            }
        }
        let hx = px / tx;
        UnencryptedChallengeResponse::new(px, hx)
    }
}

} // verus!
