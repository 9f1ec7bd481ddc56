//! The mask of one bit: a key stream derived from an element of the target
//! group, folded with as many random bytes into one parity bit.
//!
//! The fold takes the conjunction of each bit of the random bytes with the
//! bit of the key stream at the same place, and the parity of all of them:
//! the inner product of the two bit strings modulo two.

use crate::curve::{gt_encoding, GtElement};
use crate::Error;
use vstd::prelude::*;

verus! {

/// The number of key-stream bytes, and of random bytes, that mask one bit.
pub const MASK_BYTES: usize = 256;

/// The first `len` bytes that SHAKE256 puts out for an input.
pub uninterp spec fn xof_output(input: Seq<u8>, len: nat) -> Seq<u8>;

/// `ExtendableOutput::digest_xof` for `Shake256`: absorbs the input, then
/// fills the buffer. The output is a function of the input and of the
/// length asked for, and has that length.
#[verifier::external_body]
fn shake256(input: &Vec<u8>, len: usize) -> (out: Vec<u8>)
    ensures
        out@ == xof_output(input@, len as nat),
        out@.len() == len,
{
    let mut out = vec![0u8; len];
    <sha3::Shake256 as sha3::digest::ExtendableOutput>::digest_xof(input, &mut out);
    out
}

/// Bit `j` of a byte, counted from the most significant.
pub open spec fn bit_of(b: u8, j: u8) -> bool {
    (b >> (7 - j) as u8) & 1u8 == 1u8
}

/// The parity of the conjunctions of the first `j` bits of two bytes.
pub open spec fn bits_parity(r: u8, k: u8, j: nat) -> bool
    decreases j,
{
    if j == 0 {
        false
    } else {
        bits_parity(r, k, (j - 1) as nat) ^ (bit_of(r, (j - 1) as u8) && bit_of(k, (j - 1) as u8))
    }
}

/// The parity of the conjunctions of the bits of two byte strings of the
/// same length, place by place.
pub open spec fn mask_parity(r: Seq<u8>, k: Seq<u8>) -> bool
    decreases r.len(),
{
    if r.len() == 0 {
        false
    } else {
        mask_parity(r.drop_last(), k.drop_last()) ^ bits_parity(r.last(), k.last(), 8)
    }
}

/// The key stream of a shared element of the target group, by its exponent.
pub open spec fn key_stream(shared: int) -> Seq<u8> {
    xof_output(gt_encoding(shared), MASK_BYTES as nat)
}

/// The bit that masks a message under a shared element and random bytes.
pub open spec fn mask_bit(shared: int, rand_bytes: Seq<u8>) -> bool {
    mask_parity(rand_bytes, key_stream(shared))
}

/// Bit `j` of a byte, counted from the most significant.
pub fn bit_at(b: u8, j: u8) -> (out: bool)
    requires
        j < 8,
    ensures
        out == bit_of(b, j),
{
    (b >> (7 - j)) & 1u8 == 1u8
}

/// The parity of the conjunctions of the bits of two byte strings.
///
/// `DimensionMismatch` where the lengths differ.
pub fn parity_of_mask(r: &Vec<u8>, k: &Vec<u8>) -> (out: Result<bool, Error>)
    ensures
        match out {
            Ok(bit) => r.len() == k.len() && bit == mask_parity(r@, k@),
            Err(e) => e == Error::DimensionMismatch && r.len() != k.len(),
        },
{
    if r.len() != k.len() {
        return Err(Error::DimensionMismatch);
    }
    let mut res_bit = false;
    let mut i: usize = 0;
    assert(r@.take(0) =~= Seq::empty());
    while i < r.len()
        invariant
            i <= r.len(),
            r.len() == k.len(),
            res_bit == mask_parity(r@.take(i as int), k@.take(i as int)),
        decreases r.len() - i,
    {
        let mut byte_bit = false;
        let mut j: u8 = 0;
        while j < 8
            invariant
                j <= 8,
                i < r.len(),
                r.len() == k.len(),
                byte_bit == bits_parity(r[i as int], k[i as int], j as nat),
            decreases 8 - j,
        {
            byte_bit = byte_bit ^ (bit_at(r[i], j) && bit_at(k[i], j));
            j += 1;
        }
        proof {
            assert(r@.take(i + 1).drop_last() =~= r@.take(i as int));
            assert(k@.take(i + 1).drop_last() =~= k@.take(i as int));
            assert(r@.take(i + 1).last() == r[i as int]);
            assert(k@.take(i + 1).last() == k[i as int]);
        }
        res_bit = res_bit ^ byte_bit;
        i += 1;
    }
    proof {
        assert(r@.take(r.len() as int) =~= r@);
        assert(k@.take(k.len() as int) =~= k@);
    }
    Ok(res_bit)
}

/// A bit under the mask of a shared element: the message bit masked, or
/// the masked bit opened, which is the same operation.
///
/// `DimensionMismatch` where there are not exactly [`MASK_BYTES`] random
/// bytes.
pub fn encrypt_message(message: bool, hashkey: &GtElement, rand_bytes: &Vec<u8>) -> (out: Result<
    bool,
    Error,
>)
    ensures
        match out {
            Ok(bit) => rand_bytes.len() == MASK_BYTES && bit == (message ^ mask_bit(
                hashkey@,
                rand_bytes@,
            )),
            Err(e) => e == Error::DimensionMismatch && rand_bytes.len() != MASK_BYTES,
        },
{
    if rand_bytes.len() != MASK_BYTES {
        return Err(Error::DimensionMismatch);
    }
    let encoded = hashkey.to_bytes();
    let hashedkey = shake256(&encoded, MASK_BYTES);
    match parity_of_mask(rand_bytes, &hashedkey) {
        Ok(res_bit) => Ok(res_bit ^ message),
        Err(e) => Err(e),
    }
}

} // verus!
