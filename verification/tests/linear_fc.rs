use rand::rngs::StdRng;
use rand::SeedableRng;
use witness_encryption::curve::{pairing, Fr, G1Point, G2Point, GtElement};
use witness_encryption::linear_fc::{
    commit, commit_with, compute_func, dl_of_m, dl_of_opening, generate_key, key_from_secret,
    lefthandside, open, righthandside, setup_random, verify, CommitmentKey,
};
use witness_encryption::Error;

#[test]
fn discreet_logs() {
    let mut rng = StdRng::from_entropy();
    for _ in 0..128 {
        let n = 2;
        let (ck, alpha, beta, y, u) = setup_random(n, &mut rng).unwrap();
        let (_cm, d) = commit(&ck, alpha.clone(), &mut rng).unwrap();
        let op = open(&ck, &d, &beta).unwrap();
        let dl_of_opening = dl_of_opening(u, &d, &beta).unwrap();
        assert_eq!(G1Point::generator().scale(&dl_of_opening), op);

        let righthandside = righthandside(&ck, y, n).unwrap();
        let dl_of_m = dl_of_m(u, n, y);
        assert_eq!(GtElement::generator().scale(&dl_of_m), righthandside);

        let opening_pairing = pairing(&op, &G2Point::generator());
        let op_t = GtElement::generator().scale(&dl_of_opening);
        assert_eq!(opening_pairing, op_t);

        let sum_pairing = opening_pairing.add(&righthandside);
        let sum_dl = dl_of_opening.add(&dl_of_m);
        assert_eq!(GtElement::generator().scale(&sum_dl), sum_pairing);
    }
}

fn do_test_fc(should_succeed: bool, rng: &mut StdRng) -> bool {
    let n = 2;
    let (ck, alpha, beta, y, _u) = setup_random(n, rng).unwrap();
    let (cm, d) = commit(&ck, alpha.clone(), rng).unwrap();
    let mut op = open(&ck, &d, &beta).unwrap();

    if !should_succeed {
        op = op.scale(&Fr::random(rng));
    }

    verify(&ck, cm, op, &beta, y, n).unwrap()
}

#[test]
fn fc_success() {
    let mut rng = StdRng::from_entropy();
    for _ in 0..128 {
        assert_eq!(do_test_fc(true, &mut rng), true);
    }
}

#[test]
fn fc_failure() {
    let mut rng = StdRng::from_entropy();
    for _ in 0..128 {
        assert_eq!(do_test_fc(false, &mut rng), false);
    }
}

#[test]
fn scenario_of_length_two() {
    let mut rng = StdRng::seed_from_u64(11);
    let key = generate_key(2, &mut rng).unwrap();
    let x = vec![Fr::from_u64(1), Fr::from_u64(2)];
    let beta = vec![Fr::from_u64(2), Fr::from_u64(1)];
    let y = compute_func(&x, &beta).unwrap();
    assert_eq!(y, Fr::from_u64(4));
    let (cm, d) = commit(&key, x, &mut rng).unwrap();
    let proof = open(&key, &d, &beta).unwrap();
    assert_eq!(verify(&key, cm, proof, &beta, Fr::from_u64(4), 2), Ok(true));
    assert_eq!(verify(&key, cm, proof, &beta, Fr::from_u64(5), 2), Ok(false));
}

#[test]
fn completeness_for_several_lengths() {
    let mut rng = StdRng::seed_from_u64(5);
    for n in 1..6u64 {
        let key = generate_key(n, &mut rng).unwrap();
        let x: Vec<Fr> = (0..n).map(|_| Fr::random(&mut rng)).collect();
        let beta: Vec<Fr> = (0..n).map(|_| Fr::random(&mut rng)).collect();
        let y = compute_func(&x, &beta).unwrap();
        let (cm, d) = commit(&key, x, &mut rng).unwrap();
        let op = open(&key, &d, &beta).unwrap();
        assert_eq!(verify(&key, cm, op, &beta, y, n), Ok(true));
        assert_eq!(verify(&key, cm, op, &beta, y.add(&Fr::one()), n), Ok(false));
    }
}

#[test]
fn opening_is_reproducible() {
    let mut rng = StdRng::seed_from_u64(3);
    let (key, alpha, beta, _y, _u) = setup_random(3, &mut rng).unwrap();
    let (_cm, d) = commit(&key, alpha, &mut rng).unwrap();
    assert_eq!(open(&key, &d, &beta).unwrap(), open(&key, &d, &beta).unwrap());
}

#[test]
fn setup_sample_is_alternating() {
    let mut rng = StdRng::seed_from_u64(1);
    let (key, alpha, beta, y, _u) = setup_random(3, &mut rng).unwrap();
    assert_eq!(key.n(), 3);
    assert_eq!(alpha, vec![Fr::from_u64(1), Fr::from_u64(2), Fr::from_u64(1)]);
    assert_eq!(beta, vec![Fr::from_u64(2), Fr::from_u64(1), Fr::from_u64(2)]);
    assert_eq!(y, Fr::from_u64(6));
}

#[test]
fn key_has_powers_and_a_gap() {
    let u = Fr::from_u64(3);
    let key = key_from_secret(2, &u).unwrap();
    assert_eq!(key.n(), 2);
    assert_eq!(key.u1(0), G1Point::generator().scale(&Fr::from_u64(3)));
    assert_eq!(key.u1(1), G1Point::generator().scale(&Fr::from_u64(9)));
    assert_eq!(key.u1(2), G1Point::identity());
    assert_eq!(key.u1(3), G1Point::generator().scale(&Fr::from_u64(81)));
    assert_eq!(key.u2(0), G2Point::generator().scale(&Fr::from_u64(3)));
    assert_eq!(key.u2(1), G2Point::generator().scale(&Fr::from_u64(9)));
}

#[test]
fn commitment_has_the_stated_exponent() {
    let u = Fr::from_u64(3);
    let key = key_from_secret(2, &u).unwrap();
    let x = vec![Fr::from_u64(1), Fr::from_u64(2)];
    let cm = commit_with(&key, &x, &Fr::from_u64(7)).unwrap();
    // 7 + 3 * 1 + 9 * 2
    assert_eq!(cm, G1Point::generator().scale(&Fr::from_u64(28)));
}

#[test]
fn opening_has_the_stated_exponent() {
    let u = Fr::from_u64(3);
    let key = key_from_secret(2, &u).unwrap();
    let d = (vec![Fr::from_u64(1), Fr::from_u64(2)], Fr::from_u64(7));
    let beta = vec![Fr::from_u64(2), Fr::from_u64(1)];
    let op = open(&key, &d, &beta).unwrap();
    // 2 * (9 * 7 + 81 * 2) + 1 * (3 * 7 + 9 * 1)
    assert_eq!(op, G1Point::generator().scale(&Fr::from_u64(480)));
    assert_eq!(dl_of_opening(u, &d, &beta), Ok(Fr::from_u64(480)));
    assert_eq!(dl_of_m(u, 2, Fr::from_u64(4)), Fr::from_u64(108));
    let cm = commit_with(&key, &d.0, &d.1).unwrap();
    // 28 * (9 * 2 + 3 * 1)
    assert_eq!(
        lefthandside(cm, &key, &beta, 2),
        Ok(GtElement::generator().scale(&Fr::from_u64(588)))
    );
    assert_eq!(
        righthandside(&key, Fr::from_u64(4), 2),
        Ok(GtElement::generator().scale(&Fr::from_u64(108)))
    );
}

#[test]
fn mismatched_lengths_are_refused() {
    let mut rng = StdRng::seed_from_u64(2);
    assert_eq!(generate_key(0, &mut rng).err(), Some(Error::DimensionMismatch));
    assert_eq!(setup_random(0, &mut rng).err(), Some(Error::DimensionMismatch));
    let key = generate_key(2, &mut rng).unwrap();
    let short = vec![Fr::one()];
    let two = vec![Fr::one(), Fr::one()];
    assert_eq!(commit(&key, short.clone(), &mut rng).err(), Some(Error::DimensionMismatch));
    assert_eq!(commit_with(&key, &short, &Fr::one()).err(), Some(Error::DimensionMismatch));
    assert_eq!(open(&key, &(short.clone(), Fr::one()), &two).err(), Some(Error::DimensionMismatch));
    assert_eq!(open(&key, &(two.clone(), Fr::one()), &short).err(), Some(Error::DimensionMismatch));
    assert_eq!(compute_func(&short, &two).err(), Some(Error::DimensionMismatch));
    assert_eq!(
        dl_of_opening(Fr::one(), &(short.clone(), Fr::one()), &two).err(),
        Some(Error::DimensionMismatch)
    );
    let cm = G1Point::generator();
    assert_eq!(lefthandside(cm, &key, &short, 2).err(), Some(Error::DimensionMismatch));
    assert_eq!(lefthandside(cm, &key, &two, 3).err(), Some(Error::DimensionMismatch));
    assert_eq!(righthandside(&key, Fr::one(), 1).err(), Some(Error::DimensionMismatch));
    assert_eq!(verify(&key, cm, cm, &two, Fr::one(), 1).err(), Some(Error::DimensionMismatch));
    assert_eq!(verify(&key, cm, cm, &short, Fr::one(), 2).err(), Some(Error::DimensionMismatch));
}

#[test]
fn key_from_points_validates_the_shape() {
    let g1 = G1Point::generator();
    let g2 = G2Point::generator();
    let id = G1Point::identity();
    assert!(CommitmentKey::new(vec![g1, id], vec![g2]).is_ok());
    assert_eq!(CommitmentKey::new(vec![g1, g1], vec![g2]).err(), Some(Error::DimensionMismatch));
    assert_eq!(CommitmentKey::new(vec![g1], vec![g2]).err(), Some(Error::DimensionMismatch));
    assert_eq!(CommitmentKey::new(vec![], vec![]).err(), Some(Error::DimensionMismatch));
}
