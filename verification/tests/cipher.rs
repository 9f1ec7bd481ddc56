use rand::rngs::StdRng;
use rand::{Rng, SeedableRng};
use witness_encryption::bls_elements::BlsElement;
use witness_encryption::curve::{Fr, G1Point, G2Point, GtElement};
use witness_encryption::encrypt::{
    compute_M, compute_theta, decrypt, encrypt, encrypt_with, gen_hash_keys, Ciphertext,
};
use witness_encryption::keystream::{bit_at, encrypt_message, parity_of_mask, MASK_BYTES};
use witness_encryption::linear_fc::{commit, compute_func, generate_key, open, setup_random};
use witness_encryption::{decrypt_bit, encrypt_bit, encrypt_bit_with, gen_gamma_opening, Error};

fn encryption_decryption_by_struct(should_succeed: bool, message: bool, rng: &mut StdRng) -> bool {
    let witness_length = 2;
    let ckey = generate_key(witness_length, rng).unwrap();
    let x = vec![Fr::from_u64(1), Fr::from_u64(2)];
    let beta = vec![Fr::from_u64(3), Fr::from_u64(2)];
    let mut y = compute_func(&x, &beta).unwrap();
    let (commit, d) = commit(&ckey, x, rng).unwrap();
    if !should_succeed {
        y = y.mul(&y);
    }
    let ct = encrypt(&ckey, &commit, &beta, y, message, rng).unwrap();

    let opening = open(&ckey, &d, &beta).unwrap();
    let decrypted = decrypt(&ckey, &ct, &opening).unwrap();
    decrypted == message
}

#[test]
fn encrypt_encryption_decryption_success() {
    let mut rng = StdRng::from_entropy();
    let message = true;
    for _ in 0..10 {
        // we're only encrypting a bit, which can be easily randomly correct, so to properly test we should run this often
        assert!(encryption_decryption_by_struct(true, message, &mut rng));
    }
    for _ in 0..10 {
        assert!(encryption_decryption_by_struct(true, false, &mut rng));
    }
}

fn encryption_decryption(message: bool, rng: &mut StdRng) -> bool {
    let witness_length = 2;
    let (ck, alpha, beta, y, _u) = setup_random(witness_length, rng).unwrap();
    let (cm, d) = commit(&ck, alpha, rng).unwrap();

    let (ciphertext, projected_hash_key, r) =
        encrypt_bit(&ck, cm, &beta, y, message, rng).unwrap();
    let opening = open(&ck, &d, &beta).unwrap();
    decrypt_bit(&ck, opening, &beta, &projected_hash_key, &r, ciphertext).unwrap()
}

#[test]
fn lib_encryption_decryption_success() {
    let mut rng = StdRng::from_entropy();
    for _ in 0..128 {
        // we're only encrypting a bit, which can be easily randomly correct, so to properly test we should run this often
        let message = rng.gen::<bool>();
        assert_eq!(encryption_decryption(message, &mut rng), message);
    }
}

#[test]
fn wrong_claim_recovers_a_coin_flip() {
    let mut rng = StdRng::seed_from_u64(41);
    let trials = 256;
    let mut hits = 0;
    for _ in 0..trials {
        let (ck, alpha, beta, y, _u) = setup_random(2, &mut rng).unwrap();
        let (cm, d) = commit(&ck, alpha, &mut rng).unwrap();
        let message = rng.gen::<bool>();
        let wrong = y.add(&Fr::one());
        let (ciphertext, hp, r) = encrypt_bit(&ck, cm, &beta, wrong, message, &mut rng).unwrap();
        let opening = open(&ck, &d, &beta).unwrap();
        if decrypt_bit(&ck, opening, &beta, &hp, &r, ciphertext).unwrap() == message {
            hits += 1;
        }
    }
    assert!(hits > trials * 3 / 10, "{} of {}", hits, trials);
    assert!(hits < trials * 7 / 10, "{} of {}", hits, trials);
}

#[test]
fn wrong_claim_by_struct_is_not_always_right() {
    let mut rng = StdRng::seed_from_u64(43);
    let mut hits = 0;
    for _ in 0..64 {
        if encryption_decryption_by_struct(false, true, &mut rng) {
            hits += 1;
        }
    }
    assert!(hits > 8 && hits < 56, "{} of 64", hits);
}

#[test]
fn both_ciphers_agree_on_the_same_key_and_bytes() {
    let mut rng = StdRng::seed_from_u64(47);
    let (ck, alpha, beta, y, _u) = setup_random(3, &mut rng).unwrap();
    let (cm, d) = commit(&ck, alpha, &mut rng).unwrap();
    let opening = open(&ck, &d, &beta).unwrap();
    let (hash_key, proj_key) = gen_hash_keys(&mut rng);
    assert_eq!(proj_key, compute_M().scale(&hash_key));
    assert_eq!(compute_M(), G2Point::generator());
    let bytes: Vec<u8> = (0..MASK_BYTES).map(|_| rng.gen::<u8>()).collect();
    for message in [false, true] {
        let ct = encrypt_with(&ck, &cm, &beta, y, message, &hash_key, bytes.clone()).unwrap();
        assert_eq!(ct.proj_key, proj_key);
        assert_eq!(ct.rand_bytes, bytes);
        let hk = vec![BlsElement::Scalar(hash_key)];
        let bit = encrypt_bit_with(&ck, cm, &beta, y, message, &hk, &bytes).unwrap();
        assert_eq!(bit, ct.ciphertext);
        assert_eq!(decrypt(&ck, &ct, &opening), Ok(message));
        let hp = vec![BlsElement::G2Affine(proj_key)];
        assert_eq!(decrypt_bit(&ck, opening, &beta, &hp, &bytes, bit), Ok(message));
    }
}

#[test]
fn claim_element_is_the_opening_paired_with_the_generator() {
    let mut rng = StdRng::seed_from_u64(53);
    let (ck, alpha, beta, y, _u) = setup_random(2, &mut rng).unwrap();
    let (cm, d) = commit(&ck, alpha, &mut rng).unwrap();
    let opening = open(&ck, &d, &beta).unwrap();
    let theta = compute_theta(&ck, &cm, &beta, y).unwrap();
    assert_eq!(theta, witness_encryption::curve::pairing(&opening, &G2Point::generator()));
    let other = compute_theta(&ck, &cm, &beta, y.add(&Fr::one())).unwrap();
    assert_ne!(theta, other);
}

#[test]
fn mask_is_the_parity_of_the_conjunction() {
    assert_eq!(parity_of_mask(&vec![], &vec![]), Ok(false));
    assert_eq!(parity_of_mask(&vec![0xff], &vec![0x01]), Ok(true));
    assert_eq!(parity_of_mask(&vec![0xff], &vec![0x03]), Ok(false));
    assert_eq!(parity_of_mask(&vec![0xf0], &vec![0x0f]), Ok(false));
    // Under an exclusive-or fold this pair would give parity zero.
    assert_eq!(parity_of_mask(&vec![0x80], &vec![0x80]), Ok(true));
    assert_eq!(parity_of_mask(&vec![0x0f, 0x81], &vec![0x07, 0x80]), Ok(false));
    assert_eq!(parity_of_mask(&vec![0x0f, 0x81], &vec![0x07, 0x81]), Ok(true));
    assert_eq!(parity_of_mask(&vec![1, 2], &vec![1]).err(), Some(Error::DimensionMismatch));
    assert!(bit_at(0x80, 0));
    assert!(!bit_at(0x80, 7));
    assert!(bit_at(0x01, 7));
    assert!(bit_at(0x10, 3));
}

#[test]
fn key_stream_depends_on_the_shared_element() {
    let one = GtElement::generator();
    let two = one.add(&one);
    assert_ne!(one.to_bytes(), two.to_bytes());
    assert_eq!(one.to_bytes(), GtElement::generator().to_bytes());
    // Over 64 choices of random bytes two key streams differ in some mask.
    let mut rng = StdRng::seed_from_u64(59);
    let mut differ = false;
    for _ in 0..64 {
        let bytes: Vec<u8> = (0..MASK_BYTES).map(|_| rng.gen::<u8>()).collect();
        let a = encrypt_message(false, &one, &bytes).unwrap();
        let b = encrypt_message(false, &two, &bytes).unwrap();
        assert_eq!(encrypt_message(a, &one, &bytes), Ok(false));
        assert_eq!(encrypt_message(true, &one, &bytes), Ok(!a));
        differ = differ || a != b;
    }
    assert!(differ);
    let zeros = vec![0u8; MASK_BYTES];
    assert_eq!(encrypt_message(true, &one, &zeros), Ok(true));
    assert_eq!(encrypt_message(true, &one, &vec![0u8; 3]).err(), Some(Error::DimensionMismatch));
}

#[test]
fn cipher_refuses_wrong_sizes_and_kinds() {
    let mut rng = StdRng::seed_from_u64(61);
    let (ck, alpha, beta, y, _u) = setup_random(2, &mut rng).unwrap();
    let (cm, d) = commit(&ck, alpha, &mut rng).unwrap();
    let opening = open(&ck, &d, &beta).unwrap();
    let short = vec![Fr::one()];
    let bytes = vec![7u8; MASK_BYTES];
    let hk = vec![BlsElement::Scalar(Fr::from_u64(9))];

    assert_eq!(encrypt_bit(&ck, cm, &short, y, true, &mut rng).err(), Some(Error::DimensionMismatch));
    assert_eq!(encrypt(&ck, &cm, &short, y, true, &mut rng).err(), Some(Error::DimensionMismatch));
    assert_eq!(compute_theta(&ck, &cm, &short, y).err(), Some(Error::DimensionMismatch));
    assert_eq!(
        encrypt_with(&ck, &cm, &beta, y, true, &Fr::one(), vec![1, 2, 3]).err(),
        Some(Error::DimensionMismatch)
    );
    assert_eq!(
        encrypt_bit_with(&ck, cm, &beta, y, true, &hk, &vec![1, 2, 3]).err(),
        Some(Error::DimensionMismatch)
    );
    assert_eq!(
        encrypt_bit_with(&ck, cm, &beta, y, true, &vec![], &bytes).err(),
        Some(Error::DimensionMismatch)
    );
    let points = vec![BlsElement::G1Affine(G1Point::generator())];
    assert_eq!(
        encrypt_bit_with(&ck, cm, &beta, y, true, &points, &bytes).err(),
        Some(Error::InvalidOperation)
    );

    let hp = vec![BlsElement::G2Affine(G2Point::generator())];
    assert_eq!(
        decrypt_bit(&ck, opening, &short, &hp, &bytes, true).err(),
        Some(Error::DimensionMismatch)
    );
    assert_eq!(
        decrypt_bit(&ck, opening, &beta, &hp, &vec![], true).err(),
        Some(Error::DimensionMismatch)
    );
    assert_eq!(
        decrypt_bit(&ck, opening, &beta, &vec![], &bytes, true).err(),
        Some(Error::DimensionMismatch)
    );
    assert_eq!(
        decrypt_bit(&ck, opening, &beta, &points, &bytes, true).err(),
        Some(Error::InvalidOperation)
    );
    assert_eq!(
        decrypt_bit(&ck, opening, &beta, &hk, &bytes, true).err(),
        Some(Error::InvalidOperation)
    );
    let ct = Ciphertext { proj_key: G2Point::generator(), rand_bytes: vec![], ciphertext: true };
    assert_eq!(decrypt(&ck, &ct, &opening).err(), Some(Error::DimensionMismatch));

    let gamma = gen_gamma_opening();
    assert_eq!((gamma.nrows(), gamma.ncols()), (1, 1));
    assert_eq!(gamma.get(0, 0), BlsElement::G2Affine(G2Point::generator()));
}
