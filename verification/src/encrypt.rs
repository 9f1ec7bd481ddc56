//! Encryption of one bit to a claim about a commitment.
//!
//! The claim is that the commitment `cm` opens, for the linear function
//! `beta`, to the value `y`. Whoever encrypts knows the claim and nothing
//! else. The bit is masked with a key stream derived from an element of the
//! target group that can be computed in two ways: from the claim and a
//! secret scalar, or from an opening for the claim and the scalar's
//! projection, which travels with the ciphertext. [`lemma_decrypt_recovers`]
//! proves that an opening which the commitment's verification accepts
//! recovers the bit. An opening for another claim yields an unrelated
//! element, and a bit that is right half of the time.

use crate::curve::{pairing, Fr, G1Point, G2Point, GtElement};
use crate::field::{
    congruent, field_mul, field_sub, lemma_congruent_mul, lemma_reduce_arith, modulus, reduce,
};
use crate::keystream::{encrypt_message, mask_bit, MASK_BYTES};
use crate::linear_fc::{
    accepts, commitment_sum, evaluation, lefthandside, lefthandside_value, lemma_opening_accepted,
    opening_sum, righthandside, righthandside_value, scalars, CommitmentKey, KeyView,
};
use crate::Error;
use vstd::prelude::*;

verus! {

/// A masked bit, with what its receiver needs beside an opening.
#[derive(Debug, PartialEq)]
pub struct Ciphertext {
    /// The projection of the hashing key.
    pub proj_key: G2Point,
    /// The random bytes of the mask.
    pub rand_bytes: Vec<u8>,
    /// The masked bit.
    pub ciphertext: bool,
}

/// The exponent of the claim's element: the left side of the commitment's
/// verification equation without its value term. An opening for the claim
/// pairs with the generator to this element.
pub open spec fn theta_value(key: KeyView, cm: int, beta: Seq<int>, y: int) -> int {
    field_sub(lefthandside_value(key, cm, beta), righthandside_value(key, y))
}

/// The exponent of the projection of a hashing key.
pub open spec fn projected(hash_key: int) -> int {
    field_mul(1, hash_key)
}

/// The bit that encryption puts out.
pub open spec fn encrypted(
    key: KeyView,
    cm: int,
    beta: Seq<int>,
    y: int,
    hash_key: int,
    rand_bytes: Seq<u8>,
    message: bool,
) -> bool {
    message ^ mask_bit(field_mul(theta_value(key, cm, beta, y), hash_key), rand_bytes)
}

/// `ciphertext`, with the projected key `proj_key` and the random bytes,
/// is an encryption of `message` to the claim, under some hashing key.
pub open spec fn encrypts(
    key: KeyView,
    cm: int,
    beta: Seq<int>,
    y: int,
    proj_key: int,
    rand_bytes: Seq<u8>,
    message: bool,
    ciphertext: bool,
) -> bool {
    exists|hash_key: int|
        {
            &&& 0 <= hash_key < modulus()
            &&& proj_key == projected(hash_key)
            &&& ciphertext == #[trigger] encrypted(key, cm, beta, y, hash_key, rand_bytes, message)
        }
}

/// The bit that decryption puts out.
pub open spec fn decrypted(
    ciphertext: bool,
    proj_key: int,
    rand_bytes: Seq<u8>,
    opening: int,
) -> bool {
    ciphertext ^ mask_bit(field_mul(opening, proj_key), rand_bytes)
}

/// The element of the claim that `commit` opens to `y` for `beta`.
///
/// `DimensionMismatch` where the number of coefficients is not the key's
/// length.
pub fn compute_theta(ckey: &CommitmentKey, commit: &G1Point, beta: &Vec<Fr>, y: Fr) -> (out: Result<
    GtElement,
    Error,
>)
    ensures
        match out {
            Ok(theta) => beta.len() == ckey@.n() && theta@ == theta_value(
                ckey@,
                commit@,
                scalars(beta@),
                y@,
            ),
            Err(e) => e == Error::DimensionMismatch && beta.len() != ckey@.n(),
        },
{
    let n = ckey.n();
    let pairing1 = match lefthandside(*commit, ckey, beta, n as u64) {
        Ok(t) => t,
        Err(e) => {
            return Err(e);
        },
    };
    let pairing2 = match righthandside(ckey, y, n as u64) {
        Ok(t) => t,
        Err(e) => {
            return Err(e);
        },
    };
    Ok(pairing1.sub(&pairing2))
}

/// The one entry of the language of openings: the generator of the second
/// source group.
#[allow(non_snake_case)]
pub fn compute_M() -> (out: G2Point)
    ensures
        out@ == 1,
{
    G2Point::generator()
}

/// A hashing key, drawn here, and its projection.
pub fn gen_hash_keys(rng: &mut rand::rngs::StdRng) -> (out: (Fr, G2Point))
    ensures
        0 <= out.0@ < modulus(),
        out.1@ == projected(out.0@),
{
    let hash_key = Fr::random(rng);
    let proj_key = compute_M().scale(&hash_key);
    (hash_key, proj_key)
}

/// The ciphertext of a bit under a given hashing key and given random
/// bytes.
///
/// `DimensionMismatch` where the number of coefficients is not the key's
/// length, or there are not exactly [`MASK_BYTES`] random bytes.
pub fn encrypt_with(
    ckey: &CommitmentKey,
    commit: &G1Point,
    beta: &Vec<Fr>,
    y: Fr,
    message: bool,
    hash_key: &Fr,
    rand_bytes: Vec<u8>,
) -> (out: Result<Ciphertext, Error>)
    ensures
        match out {
            Ok(ct) => {
                &&& beta.len() == ckey@.n()
                &&& rand_bytes.len() == MASK_BYTES
                &&& ct.proj_key@ == projected(hash_key@)
                &&& ct.rand_bytes == rand_bytes
                &&& ct.ciphertext == encrypted(
                    ckey@,
                    commit@,
                    scalars(beta@),
                    y@,
                    hash_key@,
                    rand_bytes@,
                    message,
                )
            },
            Err(e) => e == Error::DimensionMismatch && (beta.len() != ckey@.n() || rand_bytes.len()
                != MASK_BYTES),
        },
{
    let theta = match compute_theta(ckey, commit, beta, y) {
        Ok(theta) => theta,
        Err(e) => {
            return Err(e);
        },
    };
    let proj_key = compute_M().scale(hash_key);
    let hash = theta.scale(hash_key);
    let ciphertext = match encrypt_message(message, &hash, &rand_bytes) {
        Ok(bit) => bit,
        Err(e) => {
            return Err(e);
        },
    };
    Ok(Ciphertext { proj_key, rand_bytes, ciphertext })
}

/// The ciphertext of a bit for the claim that `commit` opens to `y` for
/// `beta`, under a hashing key and random bytes that are drawn here.
///
/// `DimensionMismatch` where the number of coefficients is not the key's
/// length.
pub fn encrypt(
    ckey: &CommitmentKey,
    commit: &G1Point,
    beta: &Vec<Fr>,
    y: Fr,
    message: bool,
    rng: &mut rand::rngs::StdRng,
) -> (out: Result<Ciphertext, Error>)
    ensures
        match out {
            Ok(ct) => {
                &&& beta.len() == ckey@.n()
                &&& ct.rand_bytes.len() == MASK_BYTES
                &&& encrypts(
                    ckey@,
                    commit@,
                    scalars(beta@),
                    y@,
                    ct.proj_key@,
                    ct.rand_bytes@,
                    message,
                    ct.ciphertext,
                )
            },
            Err(e) => e == Error::DimensionMismatch && beta.len() != ckey@.n(),
        },
{
    let (hash_key, _proj_key) = gen_hash_keys(rng);
    let rand_bytes = crate::curve::random_bytes(rng, MASK_BYTES);
    match encrypt_with(ckey, commit, beta, y, message, &hash_key, rand_bytes) {
        Ok(ct) => {
            assert(ct.ciphertext == encrypted(
                ckey@,
                commit@,
                scalars(beta@),
                y@,
                hash_key@,
                ct.rand_bytes@,
                message,
            ));
            Ok(ct)
        },
        Err(e) => Err(e),
    }
}

/// The bit that an opening recovers from a ciphertext. With an opening
/// that does not fit the claim this is some bit, not an error.
///
/// `DimensionMismatch` where the ciphertext has not exactly
/// [`MASK_BYTES`] random bytes.
pub fn decrypt(_ckey: &CommitmentKey, ct: &Ciphertext, opening: &G1Point) -> (out: Result<
    bool,
    Error,
>)
    ensures
        match out {
            Ok(message) => ct.rand_bytes.len() == MASK_BYTES && message == decrypted(
                ct.ciphertext,
                ct.proj_key@,
                ct.rand_bytes@,
                opening@,
            ),
            Err(e) => e == Error::DimensionMismatch && ct.rand_bytes.len() != MASK_BYTES,
        },
{
    let proj_hash = pairing(opening, &ct.proj_key);
    encrypt_message(ct.ciphertext, &proj_hash, &ct.rand_bytes)
}

/// The two ways to the shared element meet: where the commitment's
/// verification accepts the opening, the claim's element to the power of
/// the hashing key is the pairing of the opening with the key's projection.
pub proof fn lemma_shared_element(
    key: KeyView,
    cm: int,
    op: int,
    beta: Seq<int>,
    y: int,
    hash_key: int,
)
    requires
        accepts(key, cm, op, beta, y),
    ensures
        field_mul(theta_value(key, cm, beta, y), hash_key) == field_mul(op, projected(hash_key)),
{
    let left = lefthandside_value(key, cm, beta);
    let right = righthandside_value(key, y);
    // The equation says that the left side is the opening and the value term.
    lemma_reduce_arith(op + right, right);
    lemma_reduce_arith(left, right);
    assert(op + right - right == op);
    assert(congruent(theta_value(key, cm, beta, y), op)) by {
        lemma_reduce_arith(left - right, 0);
        lemma_reduce_arith(reduce(op + right), right);
    }
    lemma_congruent_mul(theta_value(key, cm, beta, y), op, hash_key, hash_key);
    lemma_reduce_arith(1, hash_key);
    assert(1 * hash_key == hash_key);
    lemma_reduce_arith(op, hash_key);
}

/// Decryption undoes encryption for whoever holds an opening that the
/// commitment's verification accepts for the claim: whatever the hashing
/// key and the random bytes were, and for both bits.
pub proof fn lemma_decrypt_recovers(
    key: KeyView,
    cm: int,
    op: int,
    beta: Seq<int>,
    y: int,
    proj_key: int,
    rand_bytes: Seq<u8>,
    message: bool,
    ciphertext: bool,
)
    requires
        accepts(key, cm, op, beta, y),
        encrypts(key, cm, beta, y, proj_key, rand_bytes, message, ciphertext),
    ensures
        decrypted(ciphertext, proj_key, rand_bytes, op) == message,
{
    let hash_key = choose|hash_key: int|
        {
            &&& 0 <= hash_key < modulus()
            &&& proj_key == projected(hash_key)
            &&& ciphertext == #[trigger] encrypted(key, cm, beta, y, hash_key, rand_bytes, message)
        };
    lemma_shared_element(key, cm, op, beta, y, hash_key);
}

/// Whoever committed to a vector decrypts what was encrypted to the true
/// value of a linear function at it: with the opening that [`open`] gives
/// for that function, under every key that a secret generates.
///
/// [`open`]: crate::linear_fc::open
pub proof fn lemma_committer_decrypts(
    key: KeyView,
    u: int,
    x: Seq<int>,
    r: int,
    beta: Seq<int>,
    proj_key: int,
    rand_bytes: Seq<u8>,
    message: bool,
    ciphertext: bool,
)
    requires
        key.powers_of(u),
        x.len() == key.n(),
        beta.len() == key.n(),
        encrypts(
            key,
            reduce(commitment_sum(key, x, r)),
            beta,
            reduce(evaluation(x, beta)),
            proj_key,
            rand_bytes,
            message,
            ciphertext,
        ),
    ensures
        decrypted(ciphertext, proj_key, rand_bytes, reduce(opening_sum(key, x, r, beta)))
            == message,
{
    lemma_opening_accepted(key, u, x, r, beta);
    lemma_decrypt_recovers(
        key,
        reduce(commitment_sum(key, x, r)),
        reduce(opening_sum(key, x, r, beta)),
        beta,
        reduce(evaluation(x, beta)),
        proj_key,
        rand_bytes,
        message,
        ciphertext,
    );
}

} // verus!
