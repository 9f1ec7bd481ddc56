//! Bit-level witness encryption over BLS12-381: a linear functional
//! commitment, smooth projective hash functions over languages of mixed
//! group elements, and a one-bit cipher keyed by their hash value.
//!
//! [`encrypt_bit`] and [`decrypt_bit`] are the cipher as a smooth projective
//! hash function: the language has the one entry [`encrypt::compute_M`], the
//! word is the element of the claim, and the witness is the opening.

use crate::bls_elements::{inner_product, views, BlsElement, Element, Kind};
use crate::curve::{random_bytes, Fr, G1Point};
use crate::encrypt::{
    compute_M, compute_theta, decrypted, encrypted, encrypts, projected, theta_value,
};
use crate::keystream::{encrypt_message, MASK_BYTES};
use crate::linear_fc::{scalars, CommitmentKey};
use crate::matrix::{Matrix, MatrixView};
use crate::sphf::{
    all_scalars, as_hash, gen_hash_keys, gen_verifier_hash, has_projection, mul_lambda,
};
use vstd::prelude::*;

pub mod bls_elements;
pub mod curve;
pub mod encrypt;
pub mod field;
pub mod keystream;
pub mod linear_fc;
pub mod matrix;
pub mod sphf;

verus! {

/// The faults of a caller: each aborts the operation, and none is an
/// outcome of the cryptography.
#[derive(Clone, Copy, Debug, PartialEq, Eq)]
pub enum Error {
    /// Two elements were combined that have no product, sum or difference.
    InvalidOperation,
    /// The sizes of keys, vectors or matrices do not fit together.
    DimensionMismatch,
    /// A composition or a selector that is not provided.
    Unsupported,
}

/// The language of openings: one row, one column, the generator of the
/// second source group.
pub open spec fn opening_language() -> MatrixView {
    MatrixView {
        rows: 1,
        cols: 1,
        entries: seq![Element { kind: Kind::G2, value: 1 }],
    }
}

/// The language of openings.
pub fn gen_gamma_opening() -> (out: Matrix)
    ensures
        out@ == opening_language(),
{
    let data = vec![BlsElement::G2Affine(compute_M())];
    assert(views(data@) =~= opening_language().entries);
    match Matrix::from_row_slice(1, 1, data) {
        Ok(gamma) => gamma,
        Err(_) => vstd::pervasive::unreached(),
    }
}

/// Every hashing key of one scalar has a projection in the language of
/// openings.
proof fn lemma_opening_language_projects(key: Seq<Element>)
    requires
        key.len() == 1,
        all_scalars(key),
    ensures
        has_projection(key, opening_language()),
{
    let gamma = opening_language();
    assert forall|j: int| 0 <= j < 1 implies inner_product(key, #[trigger] gamma.column(j))
        is Some by {
        assert(key[0].kind is Scalar);
        assert(gamma.column(j)[0] == gamma.entries[0]);
    }
}

/// The masked bit for the claim that `cm` opens to `y` for `beta`, under a
/// given hashing key of one scalar and given random bytes.
///
/// `DimensionMismatch` where the number of coefficients is not the key's
/// length, there are not exactly [`MASK_BYTES`] random bytes, or the hashing
/// key has not exactly one entry; otherwise `InvalidOperation` where that
/// entry is not a scalar.
pub fn encrypt_bit_with(
    ck: &CommitmentKey,
    cm: G1Point,
    beta: &Vec<Fr>,
    y: Fr,
    message: bool,
    hk: &Vec<BlsElement>,
    rand_bytes: &Vec<u8>,
) -> (out: Result<bool, Error>)
    ensures
        match out {
            Ok(bit) => {
                &&& beta.len() == ck@.n()
                &&& rand_bytes.len() == MASK_BYTES
                &&& hk.len() == 1
                &&& hk[0]@.kind is Scalar
                &&& bit == encrypted(
                    ck@,
                    cm@,
                    scalars(beta@),
                    y@,
                    hk[0]@.value,
                    rand_bytes@,
                    message,
                )
            },
            Err(Error::DimensionMismatch) => beta.len() != ck@.n() || rand_bytes.len() != MASK_BYTES
                || hk.len() != 1,
            Err(Error::InvalidOperation) => {
                &&& beta.len() == ck@.n()
                &&& rand_bytes.len() == MASK_BYTES
                &&& hk.len() == 1
                &&& !(hk[0]@.kind is Scalar)
            },
            Err(Error::Unsupported) => false,
        },
{
    if rand_bytes.len() != MASK_BYTES {
        return Err(Error::DimensionMismatch);
    }
    let theta = match compute_theta(ck, &cm, beta, y) {
        Ok(theta) => vec![BlsElement::Gt(theta)],
        Err(e) => {
            return Err(e);
        },
    };
    if hk.len() != 1 {
        return Err(Error::DimensionMismatch);
    }
    proof {
        assert(views(hk@)[0] == hk[0]@);
        assert(views(theta@)[0] == theta[0]@);
        let t = theta_value(ck@, cm@, scalars(beta@), y@);
        assert(hk[0]@.value * t == t * hk[0]@.value) by (nonlinear_arith);
    }
    let shared = match gen_verifier_hash(hk, &theta) {
        Ok(shared) => shared,
        Err(e) => {
            return Err(e);
        },
    };
    encrypt_message(message, &shared, rand_bytes)
}

/// Encrypts one bit to the claim that the commitment `cm` opens to `y`
/// for the linear function `beta`. Returns the masked bit, the projection
/// of the hashing key, and the random bytes of the mask: what decryption
/// needs beside an opening.
///
/// `DimensionMismatch` where the number of coefficients is not the key's
/// length.
pub fn encrypt_bit(
    ck: &CommitmentKey,
    cm: G1Point,
    beta: &Vec<Fr>,
    y: Fr,
    message: bool,
    rng: &mut rand::rngs::StdRng,
) -> (out: Result<(bool, Vec<BlsElement>, Vec<u8>), Error>)
    ensures
        match out {
            Ok((bit, hp, r)) => {
                &&& beta.len() == ck@.n()
                &&& r.len() == MASK_BYTES
                &&& hp.len() == 1
                &&& hp[0]@.kind is G2
                &&& encrypts(ck@, cm@, scalars(beta@), y@, hp[0]@.value, r@, message, bit)
            },
            Err(e) => e == Error::DimensionMismatch && beta.len() != ck@.n(),
        },
{
    let gamma = gen_gamma_opening();
    let (hk, hp) = match gen_hash_keys(&gamma, rng) {
        Ok(keys) => keys,
        Err(_) => {
            proof {
                assert forall|key: Seq<Element>|
                    key.len() == 1 && all_scalars(key) implies #[trigger] has_projection(
                    key,
                    gamma@,
                ) by {
                    lemma_opening_language_projects(key);
                }
            }
            vstd::pervasive::unreached()
        },
    };
    let r = random_bytes(rng, MASK_BYTES);
    proof {
        assert(gamma@.column(0)[0] == gamma@.entries[0]);
        assert(views(hk@)[0] == hk[0]@);
        assert(views(hp@)[0] == hp[0]@);
        assert(inner_product(views(hk@), gamma@.column(0)) == Some(views(hp@)[0]));
        assert(hk[0]@.value * 1 == 1 * hk[0]@.value);
    }
    match encrypt_bit_with(ck, cm, beta, y, message, &hk, &r) {
        Ok(bit) => {
            assert(bit == encrypted(ck@, cm@, scalars(beta@), y@, hk[0]@.value, r@, message));
            assert(hp[0]@.value == projected(hk[0]@.value));
            assert(encrypts(ck@, cm@, scalars(beta@), y@, hp[0]@.value, r@, message, bit));
            Ok((bit, hp, r))
        },
        Err(e) => Err(e),
    }
}

/// Recovers a bit with an opening for the claim it was encrypted to. With
/// an opening that does not fit the claim the result is some bit, not an
/// error.
///
/// `DimensionMismatch` where the number of coefficients is not the key's
/// length, there are not exactly [`MASK_BYTES`] random bytes, or the
/// projected key has not exactly one entry; otherwise `InvalidOperation`
/// where that entry is not of the second source group.
pub fn decrypt_bit(
    ck: &CommitmentKey,
    opening: G1Point,
    beta: &Vec<Fr>,
    hp: &Vec<BlsElement>,
    r: &Vec<u8>,
    ciphertext: bool,
) -> (out: Result<bool, Error>)
    ensures
        match out {
            Ok(message) => {
                &&& beta.len() == ck@.n()
                &&& r.len() == MASK_BYTES
                &&& hp.len() == 1
                &&& hp[0]@.kind is G2
                &&& message == decrypted(ciphertext, hp[0]@.value, r@, opening@)
            },
            Err(Error::DimensionMismatch) => beta.len() != ck@.n() || r.len() != MASK_BYTES
                || hp.len() != 1,
            Err(Error::InvalidOperation) => {
                &&& beta.len() == ck@.n()
                &&& r.len() == MASK_BYTES
                &&& hp.len() == 1
                &&& !(hp[0]@.kind is G2)
            },
            Err(Error::Unsupported) => false,
        },
{
    if beta.len() != ck.n() || r.len() != MASK_BYTES || hp.len() != 1 {
        return Err(Error::DimensionMismatch);
    }
    let lambda = vec![BlsElement::G1Affine(opening)];
    proof {
        assert(views(hp@)[0] == hp[0]@);
        assert(views(lambda@)[0] == lambda[0]@);
        assert(hp[0]@.value * opening@ == opening@ * hp[0]@.value) by (nonlinear_arith);
    }
    let shared = match mul_lambda(hp, &lambda) {
        Ok(res) => match as_hash(res) {
            Ok(shared) => shared,
            Err(e) => {
                return Err(e);
            },
        },
        Err(e) => {
            return Err(e);
        },
    };
    encrypt_message(ciphertext, &shared, r)
}

} // verus!
