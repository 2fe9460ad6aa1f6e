use bls12_381::{G1Affine, G1Projective, G2Affine, Scalar};
use zksnarks::{Error, Polynomial, Root, VerifierTranscript};

fn roots_of(pairs: &[(i64, i64)]) -> Vec<Root> {
    pairs
        .iter()
        .map(|pair| Root::try_from(*pair).unwrap())
        .collect()
}

fn sample_polynomial() -> Polynomial {
    Polynomial::new(roots_of(&[(1, 2), (3, 6), (2, 4)]), 2).unwrap()
}

fn g1_times(k: u64) -> G1Projective {
    G1Projective::generator() * Scalar::from(k)
}

#[test]
fn polynomial_test_polynomial_roots_must_divide() {
    assert_eq!(
        Root::try_from((2i64, 1i64)).err().unwrap(),
        Error::OutsideIntegerField(2, 1)
    );
}

#[test]
fn test_encrypted_polynomial_roots_must_divide() {
    assert_eq!(
        Root::new(2, 1).err(),
        Some(Error::OutsideIntegerField(2, 1))
    );
}

#[test]
fn root_validation_accepts_a_divisible_pair() {
    assert!(Root::new(1, 2).is_ok());
    assert!(Root::try_from((1i64, 2i64)).is_ok());
}

#[test]
fn root_rejects_a_zero_leading_coefficient() {
    assert_eq!(
        Root::new(0, 4).err().unwrap(),
        Error::OutsideIntegerField(0, 4)
    );
}

#[test]
fn root_lifts_its_coefficients_into_the_field() {
    let root = Root::new(3, 6).unwrap();
    assert_eq!(root.a, Scalar::from(3u64));
    assert_eq!(root.b, Scalar::from(6u64));
}

#[test]
fn root_pushes_signs_into_the_field() {
    let root = Root::new(-3, 6).unwrap();
    assert_eq!(root.a, -Scalar::from(3u64));
    assert_eq!(root.b, Scalar::from(6u64));
    let root = Root::new(3, -6).unwrap();
    assert_eq!(root.a, Scalar::from(3u64));
    assert_eq!(root.b, -Scalar::from(6u64));
    assert_ne!(root.b, Scalar::from(6u64));
    let root = Root::new(-1, i64::MIN).unwrap();
    assert_eq!(root.a, -Scalar::from(1u64));
    assert_eq!(root.b, -Scalar::from(1u64 << 63));
}

#[test]
fn root_evaluates_the_linear_factor() {
    let root = Root::new(3, 6).unwrap();
    assert_eq!(root.eval(&Scalar::from(5u64)), Scalar::from(21u64));
    let root = Root::new(2, -4).unwrap();
    assert_eq!(root.eval(&Scalar::from(2u64)), Scalar::from(0u64));
    assert_eq!(root.eval(&Scalar::from(7u64)), Scalar::from(10u64));
}

#[test]
fn polynomial_needs_public_and_hidden_roots() {
    let pairs = [(1, 2), (3, 6), (2, 4)];
    assert_eq!(
        Polynomial::new(roots_of(&pairs), 0).err().unwrap(),
        Error::InvalidPublicRoots(0)
    );
    assert_eq!(
        Polynomial::new(roots_of(&pairs), 3).err().unwrap(),
        Error::InvalidPublicRoots(3)
    );
    assert_eq!(
        Polynomial::new(roots_of(&pairs), 4).err().unwrap(),
        Error::InvalidPublicRoots(4)
    );
    assert_eq!(
        Polynomial::new(Vec::new(), 0).err().unwrap(),
        Error::InvalidPublicRoots(0)
    );
    assert!(Polynomial::new(roots_of(&pairs), 1).is_ok());
    assert!(Polynomial::new(roots_of(&pairs), 2).is_ok());
}

#[test]
fn combine_roots_multiplies_the_factors_out() {
    // (x + 2)(3x + 6)(2x + 4) = 6x^3 + 36x^2 + 72x + 48, constant term first.
    let coefficients = Polynomial::combine_roots(&roots_of(&[(1, 2), (3, 6), (2, 4)]));
    assert_eq!(
        coefficients,
        vec![
            Scalar::from(48u64),
            Scalar::from(72u64),
            Scalar::from(36u64),
            Scalar::from(6u64),
        ]
    );
}

#[test]
fn combine_roots_of_one_factor_and_of_none() {
    let coefficients = Polynomial::combine_roots(&roots_of(&[(3, 6)]));
    assert_eq!(coefficients, vec![Scalar::from(6u64), Scalar::from(3u64)]);
    assert!(Polynomial::combine_roots(&[]).is_empty());
}

#[test]
fn combine_roots_with_negative_coefficients() {
    // (x - 2)(x + 3) = x^2 + x - 6.
    let coefficients = Polynomial::combine_roots(&roots_of(&[(1, -2), (1, 3)]));
    assert_eq!(
        coefficients,
        vec![-Scalar::from(6u64), Scalar::from(1u64), Scalar::from(1u64)]
    );
}

#[test]
fn degree_counts_the_factors() {
    assert_eq!(sample_polynomial().degree(), 3);
}

#[test]
fn public_polynomial_is_the_product_of_the_public_factors() {
    // t(5) = (5 + 2)(3 * 5 + 6) = 147.
    let polynomial = sample_polynomial();
    assert_eq!(
        polynomial.eval_public_polynomial(&Scalar::from(5u64)),
        Scalar::from(147u64)
    );
    let one_public = Polynomial::new(roots_of(&[(1, 2), (3, 6), (2, 4)]), 1).unwrap();
    assert_eq!(
        one_public.eval_public_polynomial(&Scalar::from(5u64)),
        Scalar::from(7u64)
    );
}

#[test]
fn encrypted_zksnark_test_encrypted_powers_calculate_correctly() {
    let scalar = Scalar::from(5u64);
    let shift = Scalar::from(2u64);
    let (encrypted_powers, shifted_powers) =
        VerifierTranscript::calculate_encrypted_powers(&scalar, &shift, 6);
    let g1 = G1Affine::generator();

    assert_eq!(encrypted_powers.len(), 7);
    assert_eq!(encrypted_powers[0], g1.into());
    assert_eq!(encrypted_powers[1], g1 * Scalar::from(5u64));
    assert_eq!(encrypted_powers[2], g1 * Scalar::from(25u64));
    assert_eq!(encrypted_powers[3], g1 * Scalar::from(125u64));
    assert_eq!(encrypted_powers[4], g1 * Scalar::from(625u64));
    assert_eq!(encrypted_powers[5], g1 * Scalar::from(3125u64));
    assert_eq!(encrypted_powers[6], g1 * Scalar::from(15625u64));

    assert_eq!(shifted_powers.len(), 7);
    assert_eq!(shifted_powers[0], g1 * shift);
    assert_eq!(shifted_powers[1], g1 * Scalar::from(2 * 5u64));
    assert_eq!(shifted_powers[2], g1 * Scalar::from(2 * 25u64));
    assert_eq!(shifted_powers[3], g1 * Scalar::from(2 * 125u64));
    assert_eq!(shifted_powers[4], g1 * Scalar::from(2 * 625u64));
    assert_eq!(shifted_powers[5], g1 * Scalar::from(2 * 3125u64));
    assert_eq!(shifted_powers[6], g1 * Scalar::from(2 * 15625u64));
}

#[test]
fn encrypted_powers_of_small_degrees() {
    let scalar = Scalar::from(5u64);
    let shift = Scalar::from(2u64);
    let (encrypted, shifted) = VerifierTranscript::calculate_encrypted_powers(&scalar, &shift, 0);
    assert_eq!(encrypted, vec![G1Projective::generator()]);
    assert_eq!(shifted, vec![g1_times(2)]);
    let (encrypted, shifted) = VerifierTranscript::calculate_encrypted_powers(&scalar, &shift, 1);
    assert_eq!(encrypted, vec![G1Projective::generator(), g1_times(5)]);
    assert_eq!(shifted, vec![g1_times(2), g1_times(10)]);
    let (encrypted, shifted) = VerifierTranscript::calculate_encrypted_powers(&scalar, &shift, 2);
    assert_eq!(
        encrypted,
        vec![G1Projective::generator(), g1_times(5), g1_times(25)]
    );
    assert_eq!(shifted, vec![g1_times(2), g1_times(10), g1_times(50)]);
}

#[test]
fn setup_from_secrets_holds_powers_and_keys() {
    let polynomial = sample_polynomial();
    let setup =
        VerifierTranscript::from_secrets(&polynomial, &Scalar::from(5u64), &Scalar::from(2u64));
    let (encrypted, shifted) = setup.get_encrypted_powers();
    assert_eq!(
        encrypted,
        &vec![
            G1Projective::generator(),
            g1_times(5),
            g1_times(25),
            g1_times(125)
        ]
    );
    assert_eq!(
        shifted,
        &vec![g1_times(2), g1_times(10), g1_times(50), g1_times(250)]
    );
    let (public_root_key, power_key) = setup.get_verification_keys();
    assert_eq!(
        *public_root_key,
        G2Affine::from(G2Affine::generator() * Scalar::from(147u64))
    );
    assert_eq!(
        *power_key,
        G2Affine::from(G2Affine::generator() * Scalar::from(2u64))
    );
    assert_ne!(*power_key, G2Affine::generator());
}

#[test]
fn fresh_setup_has_one_power_per_coefficient() {
    let polynomial = sample_polynomial();
    let setup = VerifierTranscript::new(&polynomial);
    let (encrypted, shifted) = setup.get_encrypted_powers();
    assert_eq!(encrypted.len(), 4);
    assert_eq!(shifted.len(), 4);
    assert_eq!(encrypted[0], G1Projective::generator());
}

#[test]
fn test_encrypted_polynomial_evaluates_correctly() {
    let polynomial = sample_polynomial();
    let scalar = Scalar::from(5u64);
    let challenge = VerifierTranscript::from_secrets(&polynomial, &scalar, &Scalar::from(1u64));
    let response = polynomial.generate_response_with_blinding(&challenge, &Scalar::from(1u64));
    let (px, _, _) = response.get_proof_values();

    assert_eq!(polynomial.degree(), 3);
    assert_eq!(G1Projective::from(px), g1_times(2058));
}

#[test]
fn response_with_blinding_scales_all_three_points() {
    let polynomial = sample_polynomial();
    let challenge =
        VerifierTranscript::from_secrets(&polynomial, &Scalar::from(5u64), &Scalar::from(2u64));
    let response = polynomial.generate_response_with_blinding(&challenge, &Scalar::from(3u64));
    let (px, px_shift, hx) = response.get_proof_values();
    // p(5) = 2058, h(5) = 14, blinding 3, shift 2.
    assert_eq!(px, G1Affine::from(g1_times(3 * 2058)));
    assert_eq!(px_shift, G1Affine::from(g1_times(3 * 2 * 2058)));
    assert_eq!(hx, G1Affine::from(g1_times(3 * 14)));
}

#[test]
fn response_with_blinding_differs_from_the_plain_evaluation() {
    let polynomial = sample_polynomial();
    let challenge =
        VerifierTranscript::from_secrets(&polynomial, &Scalar::from(5u64), &Scalar::from(2u64));
    let plain = polynomial.generate_response_with_blinding(&challenge, &Scalar::from(1u64));
    let blinded = polynomial.generate_response_with_blinding(&challenge, &Scalar::from(7u64));
    let (px, px_shift, _) = plain.get_proof_values();
    let (blinded_px, blinded_px_shift, _) = blinded.get_proof_values();
    assert_eq!(px, G1Affine::from(g1_times(2058)));
    assert_eq!(px_shift, G1Affine::from(g1_times(4116)));
    assert_ne!(blinded_px, px);
    assert_ne!(blinded_px_shift, px_shift);
}

#[test]
fn test_encrypted_coefficients_arent_exposed() {
    let roots = roots_of(&[(1, 2), (3, 6), (2, 4)]);

    let g1 = G1Projective::generator();
    let polynomial = Polynomial::new(roots, 2).unwrap();
    let verifier_transcript = VerifierTranscript::new(&polynomial);
    let prover_transcript = polynomial.generate_response(&verifier_transcript);
    let (px, px_shift, _hx) = prover_transcript.get_proof_values();

    assert_eq!(polynomial.degree(), 3);
    assert_ne!(G1Projective::from(px), g1 * Scalar::from(2058u64));
    assert_ne!(G1Projective::from(px_shift), g1 * Scalar::from(4116u64));
}

#[test]
fn test_encrypted_proof_is_correct_and_fails_for_alternate_polynomials() {
    let roots = roots_of(&[(1, 2), (3, 6), (2, 4), (1, 8), (1, 7)]);
    let roots_alt = roots_of(&[(1, 2), (4, 12), (1, 5), (1, 3), (1, 4)]);

    let polynomial = Polynomial::new(roots, 2).unwrap();
    let polynomial_alt = Polynomial::new(roots_alt, 2).unwrap();
    let verifier_transcript = VerifierTranscript::new(&polynomial);

    let prover_response = polynomial.generate_response(&verifier_transcript);
    let prover_response_alt = polynomial_alt.generate_response(&verifier_transcript);

    assert!(verifier_transcript.verify_proof(&prover_response));
    assert!(!verifier_transcript.verify_proof(&prover_response_alt));
}

#[test]
fn test_encrypted_polynomial_challenge_response() {
    let roots = roots_of(&[(1, 2), (3, 6), (2, 4)]);
    let roots2 = roots_of(&[(1, 2), (3, -6), (2, 4)]);

    let scalar = Scalar::from(5u64);
    let scalar2 = Scalar::from(10u64);
    let scalar3 = Scalar::from(15u64);
    let shift = Scalar::from(2u64);

    let polynomial = Polynomial::new(roots, 2).unwrap();
    let polynomial2 = Polynomial::new(roots2, 2).unwrap();
    let challenge = VerifierTranscript::from_secrets(&polynomial, &scalar, &shift);
    let challenge2 = VerifierTranscript::from_secrets(&polynomial, &scalar2, &shift);
    let challenge3 = VerifierTranscript::from_secrets(&polynomial, &scalar3, &shift);
    let challenge4 = VerifierTranscript::from_secrets(&polynomial2, &scalar3, &shift);

    let response = polynomial.generate_response(&challenge);
    let response2 = polynomial.generate_response(&challenge2);
    let response3 = polynomial.generate_response(&challenge3);
    let response4 = polynomial2.generate_response(&challenge4);

    assert!(challenge.verify_proof(&response));
    assert!(challenge2.verify_proof(&response2));
    assert!(challenge3.verify_proof(&response3));
    assert!(challenge4.verify_proof(&response4));
}

#[test]
fn honest_proofs_verify_for_every_partition() {
    let pairs = [(1, 2), (3, -6), (-2, 4), (1, 8), (5, 35)];
    for public in 1..pairs.len() {
        let polynomial = Polynomial::new(roots_of(&pairs), public).unwrap();
        let setup = VerifierTranscript::new(&polynomial);
        let proof = polynomial.generate_response(&setup);
        assert!(setup.verify_proof(&proof));
    }
}

#[test]
fn proof_from_a_polynomial_with_other_public_roots_is_rejected() {
    let polynomial = sample_polynomial();
    let other = Polynomial::new(roots_of(&[(1, 3), (3, 6), (2, 4)]), 2).unwrap();
    let setup =
        VerifierTranscript::from_secrets(&polynomial, &Scalar::from(5u64), &Scalar::from(2u64));
    let proof = other.generate_response_with_blinding(&setup, &Scalar::from(3u64));
    assert!(!setup.verify_proof(&proof));
}

#[test]
fn proof_from_a_polynomial_with_the_same_public_roots_is_accepted() {
    let polynomial = sample_polynomial();
    let other = Polynomial::new(roots_of(&[(1, 2), (3, 6), (1, 8)]), 2).unwrap();
    let setup =
        VerifierTranscript::from_secrets(&polynomial, &Scalar::from(5u64), &Scalar::from(2u64));
    let proof = other.generate_response_with_blinding(&setup, &Scalar::from(3u64));
    assert!(setup.verify_proof(&proof));
}

#[test]
fn proof_against_another_shift_is_rejected() {
    let polynomial = sample_polynomial();
    let setup =
        VerifierTranscript::from_secrets(&polynomial, &Scalar::from(5u64), &Scalar::from(2u64));
    let other_setup =
        VerifierTranscript::from_secrets(&polynomial, &Scalar::from(5u64), &Scalar::from(3u64));
    let proof = polynomial.generate_response_with_blinding(&other_setup, &Scalar::from(3u64));
    assert!(other_setup.verify_proof(&proof));
    assert!(!setup.verify_proof(&proof));
}

#[test]
fn verification_gives_the_same_verdict_each_time() {
    let polynomial = sample_polynomial();
    let other = Polynomial::new(roots_of(&[(1, 3), (3, 6), (2, 4)]), 2).unwrap();
    let setup = VerifierTranscript::new(&polynomial);
    let good = polynomial.generate_response(&setup);
    let bad = other.generate_response(&setup);
    for _ in 0..3 {
        assert!(setup.verify_proof(&good));
        assert!(!setup.verify_proof(&bad));
    }
}

#[test]
fn cloned_values_behave_alike() {
    let polynomial = sample_polynomial();
    let setup = VerifierTranscript::new(&polynomial);
    let proof = polynomial.generate_response(&setup);
    assert_eq!(proof.clone(), proof);
    assert!(setup.clone().verify_proof(&proof.clone()));
    assert_eq!(setup.clone(), setup);
    let copy = polynomial.clone();
    assert_eq!(copy.degree(), 3);
    assert!(setup.verify_proof(&copy.generate_response(&setup)));
    let root = Root::new(3, 6).unwrap();
    assert_eq!(root.clone().a, root.a);
}
