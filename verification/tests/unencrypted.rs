use zksnarks::{Error, SimpleRoot, UnencryptedChallengeResponse, UnencryptedPolynomial};

fn sample_roots() -> Vec<SimpleRoot> {
    vec![
        SimpleRoot::new(1, 2).unwrap(),
        SimpleRoot::new(3, 6).unwrap(),
        SimpleRoot::new(2, 4).unwrap(),
    ]
}

#[test]
fn polynomial_test_polynomial_simple_roots_must_divide() {
    assert_eq!(
        SimpleRoot::new(2, 1).err().unwrap(),
        Error::OutsideIntegerField(2, 1)
    );
}

#[test]
fn zksnark_test_polynomial_roots_must_divide() {
    assert_eq!(
        SimpleRoot::new(2, 1).err(),
        Some(Error::OutsideIntegerField(2, 1))
    );
}

#[test]
fn polynomial_test_polynomial_evaluates_correctly_unencrypted() {
    let polynomial = UnencryptedPolynomial::new(sample_roots());
    assert_eq!(polynomial.eval(0), 48);
    assert_eq!(polynomial.eval(1), 162);
    assert_eq!(polynomial.eval(2), 384);
    assert_eq!(polynomial.eval(3), 750);
}

#[test]
fn test_polynomial_evaluates_correctly() {
    let polynomial = UnencryptedPolynomial::new(sample_roots());
    assert_eq!(polynomial.eval(0), 48);
    assert_eq!(polynomial.eval(1), 162);
    assert_eq!(polynomial.eval(2), 384);
    assert_eq!(polynomial.eval(3), 750);
}

#[test]
fn test_unencrypted_proof() {
    let polynomial = UnencryptedPolynomial::new(sample_roots()).set_public_roots(2);
    let challenge_polynomial = polynomial.get_public_polynomial().unwrap();

    let challenge_one = 40;
    let challenge_two = 100;
    let challenge_three = 200;

    let polynomial_response_one = polynomial.answer_challenge(challenge_one);
    let polynomial_response_two = polynomial.answer_challenge(challenge_two);
    let polynomial_response_three = polynomial.answer_challenge(challenge_three);

    assert!(polynomial_response_one.verify(challenge_one, &challenge_polynomial));
    assert!(polynomial_response_two.verify(challenge_two, &challenge_polynomial));
    assert!(polynomial_response_three.verify(challenge_three, &challenge_polynomial));
}

#[test]
fn test_polynomial_naive_challenge_response() {
    let polynomial = UnencryptedPolynomial::new(sample_roots()).set_public_roots(2);
    let challenge_polynomial = polynomial.get_public_polynomial().unwrap();

    let challenge_one = 40;
    let challenge_two = 100;
    let challenge_three = 200;

    let polynomial_response_one = polynomial.answer_challenge(challenge_one);
    let polynomial_response_two = polynomial.answer_challenge(challenge_two);
    let polynomial_response_three = polynomial.answer_challenge(challenge_three);

    assert!(polynomial_response_one.verify(challenge_one, &challenge_polynomial));
    assert!(polynomial_response_two.verify(challenge_two, &challenge_polynomial));
    assert!(polynomial_response_three.verify(challenge_three, &challenge_polynomial));
}

#[test]
fn simple_root_accepts_divisible_pairs() {
    assert!(SimpleRoot::new(1, 2).is_ok());
    assert!(SimpleRoot::new(3, -6).is_ok());
    assert!(SimpleRoot::new(-3, 6).is_ok());
    assert!(SimpleRoot::new(-2, -8).is_ok());
    assert!(SimpleRoot::new(5, 0).is_ok());
}

#[test]
fn simple_root_rejects_pairs_that_do_not_divide() {
    assert_eq!(
        SimpleRoot::new(3, -7).err().unwrap(),
        Error::OutsideIntegerField(3, -7)
    );
    assert_eq!(
        SimpleRoot::new(-4, 6).err().unwrap(),
        Error::OutsideIntegerField(-4, 6)
    );
}

#[test]
fn simple_root_rejects_a_zero_leading_coefficient() {
    assert_eq!(
        SimpleRoot::new(0, 5).err().unwrap(),
        Error::OutsideIntegerField(0, 5)
    );
    assert_eq!(
        SimpleRoot::new(0, 0).err().unwrap(),
        Error::OutsideIntegerField(0, 0)
    );
}

#[test]
fn simple_root_takes_the_smallest_integer_with_minus_one() {
    let root = SimpleRoot::new(-1, i64::MIN).unwrap();
    assert_eq!(root.eval(0), i64::MIN);
}

#[test]
fn simple_root_evaluates_the_linear_factor() {
    let root = SimpleRoot::new(3, 6).unwrap();
    assert_eq!(root.eval(0), 6);
    assert_eq!(root.eval(5), 21);
    assert_eq!(root.eval(-2), 0);
    let negative = SimpleRoot::new(-2, 4).unwrap();
    assert_eq!(negative.eval(7), -10);
}

#[test]
fn polynomial_without_factors_evaluates_to_one() {
    let polynomial = UnencryptedPolynomial::new(Vec::new());
    assert_eq!(polynomial.degree(), 0);
    assert_eq!(polynomial.eval(17), 1);
}

#[test]
fn unencrypted_degree_counts_the_factors() {
    let polynomial = UnencryptedPolynomial::new(sample_roots());
    assert_eq!(polynomial.degree(), 3);
    assert_eq!(polynomial.set_public_roots(1).degree(), 3);
}

#[test]
fn public_polynomial_needs_public_roots() {
    let polynomial = UnencryptedPolynomial::new(sample_roots());
    assert_eq!(
        polynomial.get_public_polynomial().err().unwrap(),
        Error::NoPublicRoots
    );
    let none_public = UnencryptedPolynomial::new(sample_roots()).set_public_roots(0);
    assert_eq!(
        none_public.get_public_polynomial().err().unwrap(),
        Error::NoPublicRoots
    );
}

#[test]
fn unencrypted_public_polynomial_is_the_product_of_the_public_factors() {
    let polynomial = UnencryptedPolynomial::new(sample_roots()).set_public_roots(2);
    let public = polynomial.get_public_polynomial().unwrap();
    assert_eq!(public.degree(), 2);
    // (x + 2) * (3x + 6) at 5 is 7 * 21.
    assert_eq!(public.eval(5), 147);
    assert_eq!(
        public.get_public_polynomial().err().unwrap(),
        Error::NoPublicRoots
    );
}

#[test]
fn answer_holds_the_value_and_the_quotient() {
    let polynomial = UnencryptedPolynomial::new(sample_roots()).set_public_roots(2);
    // p(5) = 7 * 21 * 14 = 2058, t(5) = 147, h(5) = 14.
    assert_eq!(
        polynomial.answer_challenge(5),
        UnencryptedChallengeResponse::new(2058, 14)
    );
    // p(-3) = -1 * -3 * -2 = -6, t(-3) = 3, h(-3) = -2.
    assert_eq!(
        polynomial.answer_challenge(-3),
        UnencryptedChallengeResponse::new(-6, -2)
    );
}

#[test]
fn answer_without_public_roots_repeats_the_value() {
    let polynomial = UnencryptedPolynomial::new(sample_roots());
    assert_eq!(
        polynomial.answer_challenge(1),
        UnencryptedChallengeResponse::new(162, 162)
    );
}

#[test]
fn verify_rejects_a_wrong_answer() {
    let polynomial = UnencryptedPolynomial::new(sample_roots()).set_public_roots(2);
    let public = polynomial.get_public_polynomial().unwrap();
    assert!(UnencryptedChallengeResponse::new(2058, 14).verify(5, &public));
    assert!(!UnencryptedChallengeResponse::new(2058, 13).verify(5, &public));
    assert!(!UnencryptedChallengeResponse::new(2057, 14).verify(5, &public));
}

#[test]
fn honest_answers_verify_at_many_points() {
    let polynomial = UnencryptedPolynomial::new(sample_roots()).set_public_roots(1);
    let public = polynomial.get_public_polynomial().unwrap();
    for x in [-50i64, -7, -1, 0, 1, 3, 11, 1000] {
        assert!(polynomial.answer_challenge(x).verify(x, &public));
    }
}

#[test]
fn cloned_polynomial_evaluates_alike() {
    let polynomial = UnencryptedPolynomial::new(sample_roots()).set_public_roots(2);
    let copy = polynomial.clone();
    assert_eq!(copy.eval(3), 750);
    assert_eq!(copy.answer_challenge(5), polynomial.answer_challenge(5));
}
