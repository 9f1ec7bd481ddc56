use rand::rngs::StdRng;
use rand::SeedableRng;
use witness_encryption::bls_elements::BlsElement;
use witness_encryption::curve::{Fr, G1Point, G2Point, GtElement};
use witness_encryption::linear_fc::{commit_with, key_from_secret, righthandside};
use witness_encryption::matrix::Matrix;
use witness_encryption::sphf::{
    define_language, define_language_random, gen_gamma_conjunction, gen_gamma_disjunction,
    gen_gamma_linear_fc, gen_hash_keys, gen_lambda, gen_lambda_linear_fc, gen_prover_hash,
    gen_theta, gen_theta_disjunction, gen_theta_linear_fc, gen_verifier_hash, generate_word,
    mul_gamma, mul_lambda, mul_theta, word_for,
};
use witness_encryption::Error;

fn do_sphf_pairing_test(should_succeed: bool, msg1: String, msg2: String) -> bool {
    let mut rng = StdRng::from_entropy();
    let (base_gen, gamma) = define_language_random(&mut rng);

    let (hk, hp) = gen_hash_keys(&gamma, &mut rng).unwrap();

    let (w, mut word) = generate_word(&base_gen, &msg1, &msg2, &mut rng);

    if !should_succeed {
        // Derp the word if we need to fail
        word.1 = word.1.scale(&w.0);
    }

    let theta = gen_theta(&word, &msg1, &msg2);

    let ha = gen_verifier_hash(&hk, &theta).unwrap();
    let hb = gen_prover_hash(&hp, &vec![w], &vec![word], None).unwrap();

    ha == hb
}

#[test]
fn sphf_pairing_success() {
    assert_eq!(
        do_sphf_pairing_test(true, "Hello".to_string(), "World".to_string()),
        true
    );
}

#[test]
fn sphf_pairing_failure() {
    assert_eq!(
        do_sphf_pairing_test(false, "Hello".to_string(), "World".to_string()),
        false
    );
}

fn do_sphf_conjunction_test(should_succeed: bool, msg1: String, msg2: String) -> bool {
    let mut rng = StdRng::from_entropy();
    let (base1_gen, gamma1) = define_language_random(&mut rng);
    let (base2_gen, gamma2) = define_language_random(&mut rng);

    let gamma = gen_gamma_conjunction(&vec![gamma1, gamma2]).unwrap();

    let (hk, hp) = gen_hash_keys(&gamma, &mut rng).unwrap();

    let (w1, mut word1) = generate_word(&base1_gen, &msg1, &msg2, &mut rng);
    let (w2, word2) = generate_word(&base2_gen, &msg1, &msg2, &mut rng);

    if !should_succeed {
        // Derp the word if we need to fail
        word1.1 = word1.1.scale(&w1.0);
    }

    let theta1 = gen_theta(&word1, &msg1, &msg2);
    let theta2 = gen_theta(&word2, &msg1, &msg2);
    let mut theta_conjunction_vec: Vec<BlsElement> = vec![];
    for element in &theta1 {
        theta_conjunction_vec.push(*element);
    }
    for element in &theta2 {
        theta_conjunction_vec.push(*element);
    }

    let ha = gen_verifier_hash(&hk, &theta_conjunction_vec).unwrap();
    let hb = gen_prover_hash(&hp, &vec![w1, w2], &vec![word1, word2], None).unwrap();

    ha == hb
}

#[test]
fn sphf_conjunction_success() {
    assert_eq!(
        do_sphf_conjunction_test(true, "Hello".to_string(), "World".to_string()),
        true
    );
}

#[test]
fn sphf_conjunction_failure() {
    assert_eq!(
        do_sphf_conjunction_test(false, "Hello".to_string(), "World".to_string()),
        false
    );
}

fn do_sphf_disjunction_test(
    witness_to_prove: Option<u32>,
    word_to_mangle: Option<u32>,
    msg1: String,
    msg2: String,
) -> bool {
    let mut rng = StdRng::from_entropy();
    let (base1_gen, gamma1) = define_language_random(&mut rng);
    let (base2_gen, gamma2) = define_language_random(&mut rng);

    let (w1, mut word1) = generate_word(&base1_gen, &msg1, &msg2, &mut rng);
    let (w2, mut word2) = generate_word(&base2_gen, &msg1, &msg2, &mut rng);

    match word_to_mangle {
        None => {}
        Some(word_to_mangle) => {
            if word_to_mangle == 0 {
                // Derp the word if we need to fail
                word1.1 = word1.1.scale(&w1.0);
            } else if word_to_mangle == 1 {
                word2.1 = word2.1.scale(&w2.0);
            }
        }
    }

    let theta1 = gen_theta(&word1, &msg1, &msg2);
    let theta2 = gen_theta(&word2, &msg1, &msg2);

    let gamma =
        gen_gamma_disjunction(&vec![gamma1, gamma2], &vec![theta1.clone(), theta2.clone()])
            .unwrap();

    let rows = gamma.nrows();
    let (hk, hp) = gen_hash_keys(&gamma, &mut rng).unwrap();

    let theta = gen_theta_disjunction(rows).unwrap();

    let ha = gen_verifier_hash(&hk, &theta).unwrap();
    let hb = gen_prover_hash(&hp, &vec![w1, w2], &vec![word1, word2], witness_to_prove).unwrap();

    ha == hb
}

#[test]
fn sphf_disjunction_success_1() {
    assert_eq!(
        do_sphf_disjunction_test(Some(0), None, "Hello".to_string(), "World".to_string()),
        true
    );
}

#[test]
fn sphf_disjunction_success_2() {
    assert_eq!(
        do_sphf_disjunction_test(Some(0), Some(1), "Hello".to_string(), "World".to_string()),
        true
    );
}

#[test]
fn sphf_disjunction_success_3() {
    assert_eq!(
        do_sphf_disjunction_test(Some(1), None, "Hello".to_string(), "World".to_string()),
        true
    );
}

#[test]
fn sphf_disjunction_success_4() {
    assert_eq!(
        do_sphf_disjunction_test(Some(1), Some(0), "Hello".to_string(), "World".to_string()),
        true
    );
}

#[test]
fn sphf_disjunction_failure_1() {
    assert_eq!(
        do_sphf_disjunction_test(Some(0), Some(0), "Hello".to_string(), "World".to_string()),
        false
    );
}

#[test]
fn sphf_disjunction_failure_2() {
    assert_eq!(
        do_sphf_disjunction_test(Some(1), Some(1), "Hello".to_string(), "World".to_string()),
        false
    );
}

#[test]
fn conjunction_fails_when_the_second_word_is_corrupted() {
    let mut rng = StdRng::seed_from_u64(17);
    let (base1, gamma1) = define_language_random(&mut rng);
    let (base2, gamma2) = define_language_random(&mut rng);
    let gamma = gen_gamma_conjunction(&vec![gamma1, gamma2]).unwrap();
    let (hk, hp) = gen_hash_keys(&gamma, &mut rng).unwrap();
    let (w1, word1) = generate_word(&base1, "Hello", "World", &mut rng);
    let (w2, mut word2) = generate_word(&base2, "Hello", "World", &mut rng);
    word2.3 = word2.3.scale(&w2.1);
    let mut theta = gen_theta(&word1, "Hello", "World");
    theta.extend(gen_theta(&word2, "Hello", "World"));
    let ha = gen_verifier_hash(&hk, &theta).unwrap();
    let hb = gen_prover_hash(&hp, &vec![w1, w2], &vec![word1, word2], None).unwrap();
    assert_ne!(ha, hb);
}

#[test]
fn language_has_the_stated_entries() {
    let g1 = G1Point::generator().scale(&Fr::from_u64(2));
    let g2 = G2Point::generator().scale(&Fr::from_u64(3));
    let h1 = G1Point::generator().scale(&Fr::from_u64(5));
    let h2 = G2Point::generator().scale(&Fr::from_u64(7));
    let gamma = define_language(&(g1, g2, h1, h2));
    assert_eq!(gamma.nrows(), 4);
    assert_eq!(gamma.ncols(), 3);
    let gt = |k: u64| BlsElement::Gt(GtElement::generator().scale(&Fr::from_u64(k)));
    let id1 = BlsElement::G1Affine(G1Point::identity());
    let id2 = BlsElement::G2Affine(G2Point::identity());
    let expected = vec![
        vec![gt(6), id1, id2],
        vec![gt(0), BlsElement::G1Affine(g1), id2],
        vec![gt(0), id1, BlsElement::G2Affine(g2)],
        vec![gt(35), BlsElement::G1Affine(h1), BlsElement::G2Affine(h2)],
    ];
    for i in 0..4 {
        assert_eq!(gamma.row(i), expected[i]);
        for j in 0..3 {
            assert_eq!(gamma.get(i, j), expected[i][j]);
            assert_eq!(gamma.column(j)[i], expected[i][j]);
        }
    }
}

#[test]
fn word_theta_and_lambda_have_the_stated_exponents() {
    let g1 = G1Point::generator().scale(&Fr::from_u64(2));
    let g2 = G2Point::generator().scale(&Fr::from_u64(3));
    let h1 = G1Point::generator().scale(&Fr::from_u64(5));
    let h2 = G2Point::generator().scale(&Fr::from_u64(7));
    let base = (g1, g2, h1, h2);
    let (w, word) = word_for(&base, "Hello", "World", Fr::from_u64(11), Fr::from_u64(13));
    let m1 = G1Point::hash("Hello");
    let m2 = G2Point::hash("World");
    assert_ne!(m1, G1Point::hash("World"));
    assert_ne!(m2, G2Point::hash("Hello"));
    assert_eq!(w, (Fr::from_u64(11), Fr::from_u64(13), m1, m2));
    assert_eq!(word.0, G1Point::generator().scale(&Fr::from_u64(22)));
    assert_eq!(word.1, G1Point::generator().scale(&Fr::from_u64(55)).add(&m1));
    assert_eq!(word.2, G2Point::generator().scale(&Fr::from_u64(39)));
    assert_eq!(word.3, G2Point::generator().scale(&Fr::from_u64(91)).add(&m2));

    let theta = gen_theta(&word, "Hello", "World");
    assert_eq!(theta.len(), 4);
    let minus = Fr::from_u64(22 * 39).neg();
    assert_eq!(theta[0], BlsElement::Gt(GtElement::generator().scale(&minus)));

    let lambda = gen_lambda(&vec![w], &vec![word], None).unwrap();
    assert_eq!(lambda.len(), 3);
    assert_eq!(lambda[0], BlsElement::Scalar(Fr::from_u64(143).neg()));
    assert_eq!(lambda[1], BlsElement::G2Affine(word.3.scale(&Fr::from_u64(11))));
    assert_eq!(lambda[2], BlsElement::G1Affine(word.1.scale(&Fr::from_u64(13))));
}

#[test]
fn chosen_witness_vectors_have_the_stated_layout() {
    let mut rng = StdRng::seed_from_u64(23);
    let (base, _gamma) = define_language_random(&mut rng);
    let (w1, word1) = generate_word(&base, "a", "b", &mut rng);
    let (w2, word2) = generate_word(&base, "c", "d", &mut rng);
    let ws = vec![w1, w2];
    let words = vec![word1, word2];
    let zero = BlsElement::Scalar(Fr::zero());
    let minus_one = BlsElement::Scalar(Fr::one().neg());
    let id1 = BlsElement::G1Affine(G1Point::identity());
    let id2 = BlsElement::G2Affine(G2Point::identity());
    let l1 = gen_lambda(&vec![w1], &vec![word1], None).unwrap();
    let l2 = gen_lambda(&vec![w2], &vec![word2], None).unwrap();

    let both = gen_lambda(&ws, &words, None).unwrap();
    assert_eq!(both, [l1.clone(), l2.clone()].concat());

    let first = gen_lambda(&ws, &words, Some(0)).unwrap();
    assert_eq!(first, [l1, vec![minus_one, zero, id2, id1, zero]].concat());

    let second = gen_lambda(&ws, &words, Some(1)).unwrap();
    assert_eq!(second, [vec![zero, id2, id1, zero], l2, vec![minus_one]].concat());

    assert_eq!(gen_lambda(&ws, &words, Some(2)).err(), Some(Error::Unsupported));
    assert_eq!(gen_lambda(&ws, &vec![word1], None).err(), Some(Error::DimensionMismatch));
    assert_eq!(gen_lambda(&vec![], &vec![], None).err(), Some(Error::DimensionMismatch));
    assert_eq!(
        gen_lambda(&vec![w1], &vec![word1], Some(1)).err(),
        Some(Error::DimensionMismatch)
    );
    let hp = vec![zero];
    assert_eq!(gen_prover_hash(&hp, &ws, &words, Some(7)).err(), Some(Error::Unsupported));
    assert_eq!(gen_prover_hash(&hp, &ws, &words, None).err(), Some(Error::DimensionMismatch));
}

#[test]
fn disjunction_word_is_neutral() {
    let theta = gen_theta_disjunction(3).unwrap();
    let id = BlsElement::Gt(GtElement::identity());
    assert_eq!(theta, vec![id, id, id]);
    assert_eq!(gen_theta_disjunction(0).err(), Some(Error::DimensionMismatch));
}

#[test]
fn compositions_have_the_stated_layout() {
    let mut rng = StdRng::seed_from_u64(29);
    let (base1, gamma1) = define_language_random(&mut rng);
    let (base2, gamma2) = define_language_random(&mut rng);
    let (_w1, word1) = generate_word(&base1, "a", "b", &mut rng);
    let (_w2, word2) = generate_word(&base2, "c", "d", &mut rng);
    let theta1 = gen_theta(&word1, "a", "b");
    let theta2 = gen_theta(&word2, "c", "d");
    let a = define_language(&base1);
    let b = define_language(&base2);
    let gt0 = BlsElement::Gt(GtElement::identity());
    let pad = vec![
        gt0,
        BlsElement::G1Affine(G1Point::identity()),
        BlsElement::G2Affine(G2Point::identity()),
    ];

    let conj = gen_gamma_conjunction(&vec![gamma1, gamma2]).unwrap();
    assert_eq!((conj.nrows(), conj.ncols()), (8, 6));
    for i in 0..4 {
        assert_eq!(conj.row(i), [a.row(i), pad.clone()].concat());
        assert_eq!(conj.row(i + 4), [pad.clone(), b.row(i)].concat());
    }

    let disj = gen_gamma_disjunction(
        &vec![define_language(&base1), define_language(&base2)],
        &vec![theta1.clone(), theta2.clone()],
    )
    .unwrap();
    assert_eq!((disj.nrows(), disj.ncols()), (9, 8));
    assert_eq!(
        disj.row(0),
        [pad.clone(), vec![gt0], pad.clone(), vec![gt0]].concat()
    );
    for i in 0..4 {
        assert_eq!(
            disj.row(i + 1),
            [a.row(i), vec![theta1[i]], pad.clone(), vec![gt0]].concat()
        );
        assert_eq!(
            disj.row(i + 5),
            [pad.clone(), vec![gt0], b.row(i), vec![theta2[i]]].concat()
        );
    }
}

#[test]
fn compositions_refuse_other_shapes() {
    let mut rng = StdRng::seed_from_u64(31);
    let (base, _) = define_language_random(&mut rng);
    let lang = || define_language(&base);
    let theta = gen_theta_disjunction(4).unwrap();
    assert_eq!(gen_gamma_conjunction(&vec![lang()]).err(), Some(Error::Unsupported));
    assert_eq!(
        gen_gamma_conjunction(&vec![lang(), lang(), lang()]).err(),
        Some(Error::Unsupported)
    );
    let small = Matrix::from_row_slice(1, 1, vec![BlsElement::Scalar(Fr::one())]).unwrap();
    assert_eq!(
        gen_gamma_conjunction(&vec![lang(), small]).err(),
        Some(Error::DimensionMismatch)
    );
    assert_eq!(
        gen_gamma_disjunction(&vec![lang()], &vec![theta.clone()]).err(),
        Some(Error::Unsupported)
    );
    assert_eq!(
        gen_gamma_disjunction(&vec![lang(), lang()], &vec![theta.clone()]).err(),
        Some(Error::DimensionMismatch)
    );
    assert_eq!(
        gen_gamma_disjunction(&vec![lang(), lang()], &vec![theta.clone(), vec![]]).err(),
        Some(Error::DimensionMismatch)
    );
}

#[test]
fn products_of_vectors_validate_sizes_and_kinds() {
    let one = BlsElement::Scalar(Fr::one());
    let g1 = BlsElement::G1Affine(G1Point::generator());
    let g2 = BlsElement::G2Affine(G2Point::generator());
    let gt = BlsElement::Gt(GtElement::generator());
    assert_eq!(mul_theta(&vec![], &vec![]).err(), Some(Error::DimensionMismatch));
    assert_eq!(mul_theta(&vec![one], &vec![gt, gt]).err(), Some(Error::DimensionMismatch));
    assert_eq!(mul_lambda(&vec![g1], &vec![g1]).err(), Some(Error::InvalidOperation));
    assert_eq!(mul_lambda(&vec![one, one], &vec![g1, gt]).err(), Some(Error::InvalidOperation));
    let twice = BlsElement::G1Affine(G1Point::generator().scale(&Fr::from_u64(2)));
    assert_eq!(mul_lambda(&vec![one, one], &vec![g1, g1]), Ok(twice));
    let two = BlsElement::Gt(GtElement::generator().scale(&Fr::from_u64(2)));
    assert_eq!(mul_lambda(&vec![g1, g2], &vec![g2, g1]), Ok(two));
    assert_eq!(mul_theta(&vec![one, one], &vec![gt, gt]), Ok(two));
    assert_eq!(gen_verifier_hash(&vec![one], &vec![g1]).err(), Some(Error::InvalidOperation));
    assert_eq!(gen_verifier_hash(&vec![one, one], &vec![gt, gt]), Ok(GtElement::generator().scale(&Fr::from_u64(2))));

    let gamma = Matrix::from_row_slice(2, 2, vec![g1, g2, g1, gt]).unwrap();
    assert_eq!(mul_gamma(&vec![one], &gamma).err(), Some(Error::DimensionMismatch));
    assert_eq!(mul_gamma(&vec![one, one], &gamma).err(), Some(Error::InvalidOperation));
    let three = BlsElement::Scalar(Fr::from_u64(3));
    let gamma = Matrix::from_row_slice(2, 1, vec![gt, gt]).unwrap();
    let five = BlsElement::Gt(GtElement::generator().scale(&Fr::from_u64(4)));
    assert_eq!(mul_gamma(&vec![one, three], &gamma), Ok(vec![five]));
    assert_eq!(
        Matrix::from_row_slice(2, 2, vec![g1]).err(),
        Some(Error::DimensionMismatch)
    );
}

#[test]
fn commitment_language_hashes_agree_for_length_one() {
    // For vectors of length one the witness of the commitment's language can
    // be written down from the blinding: it is the combination of the key,
    // and the generator to the power -beta * r.
    let mut rng = StdRng::seed_from_u64(37);
    let u = Fr::random(&mut rng);
    let key = key_from_secret(1, &u).unwrap();
    let x = Fr::from_u64(5);
    let beta = Fr::from_u64(3);
    let r = Fr::random(&mut rng);
    let y = x.mul(&beta);
    let cm = commit_with(&key, &vec![x], &r).unwrap();

    let gamma = gen_gamma_linear_fc(cm, &key);
    assert_eq!((gamma.nrows(), gamma.ncols()), (1, 2));
    assert_eq!(gamma.get(0, 0), BlsElement::G1Affine(cm));
    assert_eq!(gamma.get(0, 1), BlsElement::G2Affine(key.u2(0)));
    let (hk, hp) = gen_hash_keys(&gamma, &mut rng).unwrap();
    assert_eq!(hk.len(), 1);
    assert_eq!(hp.len(), 2);

    let theta = gen_theta_linear_fc(&key, y);
    assert_eq!(theta, vec![BlsElement::Gt(righthandside(&key, y, 1).unwrap())]);
    let element1 = key.u2(0).scale(&beta);
    let element2 = G1Point::generator().scale(&beta.mul(&r).neg());
    let lambda = gen_lambda_linear_fc(element1, element2);
    assert_eq!(lambda, vec![BlsElement::G2Affine(element1), BlsElement::G1Affine(element2)]);

    let ha = gen_verifier_hash(&hk, &theta).unwrap();
    let hb = mul_lambda(&hp, &lambda).unwrap();
    assert_eq!(BlsElement::Gt(ha), hb);

    let wrong = gen_theta_linear_fc(&key, y.add(&Fr::one()));
    assert_ne!(gen_verifier_hash(&hk, &wrong).unwrap(), ha);
}

#[test]
fn hash_keys_need_rows_and_uniform_columns() {
    let mut rng = StdRng::seed_from_u64(67);
    let empty = Matrix::from_row_slice(0, 0, vec![]).unwrap();
    assert_eq!(gen_hash_keys(&empty, &mut rng).err(), Some(Error::DimensionMismatch));
    let g1 = BlsElement::G1Affine(G1Point::generator());
    let g2 = BlsElement::G2Affine(G2Point::generator());
    let mixed = Matrix::from_row_slice(2, 1, vec![g1, g2]).unwrap();
    assert_eq!(gen_hash_keys(&mixed, &mut rng).err(), Some(Error::InvalidOperation));
    let narrow = Matrix::from_row_slice(2, 0, vec![]).unwrap();
    let (hk, hp) = gen_hash_keys(&narrow, &mut rng).unwrap();
    assert_eq!(hk.len(), 2);
    assert!(hp.is_empty());
    let (base, gamma) = define_language_random(&mut rng);
    let (hk, hp) = gen_hash_keys(&gamma, &mut rng).unwrap();
    assert_eq!(hk.len(), 4);
    assert_eq!(hp, mul_gamma(&hk, &define_language(&base)).unwrap());
    let (other, _) = gen_hash_keys(&gamma, &mut rng).unwrap();
    assert_ne!(hk, other);
}
