//! The boundary to the curve library: scalars, the points of the two source
//! groups, the elements of the target group, and the pairing.
//!
//! The arithmetic is `blstrs`'. Nothing of it is proved here. What this module
//! states of it is group theory: the scalars are the integers modulo the prime
//! `r`; each of the three groups is cyclic of order `r`, so each of its elements
//! is a unique power `g^e`, `0 <= e < r`, of the group's fixed generator `g`;
//! and the pairing is bilinear and maps the two source generators to the target
//! generator. The *exponent* `e` is the model of a point. It is never computed
//! (that would be a discrete logarithm): it exists, and the group operations
//! act on it as addition and multiplication modulo `r`.
//!
//! The private functions of this module state these facts of single calls,
//! and are trusted. Each asks that its arguments be elements of their group,
//! and promises so of its result. The public types wrap the library's values
//! and hold such elements only, which is their invariant; they offer the
//! operations with contracts over the model.

use crate::field::{field_add, field_mul, field_neg, field_pow, field_sub, modulus, reduce};
use vstd::arithmetic::power::*;
use vstd::prelude::*;

verus! {

/// `blstrs::Scalar`, held as an opaque value.
#[verifier::external_type_specification]
#[verifier::external_body]
pub struct ExScalar(blstrs::Scalar);

/// `blstrs::G1Affine`, held as an opaque value.
#[verifier::external_type_specification]
#[verifier::external_body]
pub struct ExG1Affine(blstrs::G1Affine);

/// `blstrs::G2Affine`, held as an opaque value.
#[verifier::external_type_specification]
#[verifier::external_body]
pub struct ExG2Affine(blstrs::G2Affine);

/// `blstrs::Gt`, held as an opaque value.
#[verifier::external_type_specification]
#[verifier::external_body]
pub struct ExGt(blstrs::Gt);

/// `rand::rngs::StdRng`, the source of randomness that callers hand in.
#[verifier::external_type_specification]
#[verifier::external_body]
pub struct ExStdRng(rand::rngs::StdRng);

/// The integer in `[0, r)` that a scalar of the curve library stands for.
pub uninterp spec fn scalar_value(s: blstrs::Scalar) -> int;

/// The exponent in `[0, r)` of a point of the first source group to the base
/// of that group's generator.
pub uninterp spec fn g1_exponent(p: blstrs::G1Affine) -> int;

/// The exponent in `[0, r)` of a point of the second source group to the base
/// of that group's generator.
pub uninterp spec fn g2_exponent(q: blstrs::G2Affine) -> int;

/// The exponent in `[0, r)` of an element of the target group to the base of
/// the pairing of the two source generators.
pub uninterp spec fn gt_exponent(t: blstrs::Gt) -> int;

/// Whether a value of the curve library satisfies the curve equation of
/// the first source group, or is its point at infinity.
pub uninterp spec fn g1_on_curve(p: blstrs::G1Affine) -> bool;

/// Whether a value of the curve library has no component outside the
/// subgroup of order `r` of the first curve.
pub uninterp spec fn g1_torsion_free(p: blstrs::G1Affine) -> bool;

/// Whether a value of the curve library satisfies the curve equation of
/// the second source group, or is its point at infinity.
pub uninterp spec fn g2_on_curve(q: blstrs::G2Affine) -> bool;

/// Whether a value of the curve library has no component outside the
/// subgroup of order `r` of the second curve.
pub uninterp spec fn g2_torsion_free(q: blstrs::G2Affine) -> bool;

/// A value of the curve library is a point of the first source group. The
/// library's operations and validating decoders yield such points only.
pub open spec fn g1_in_group(p: blstrs::G1Affine) -> bool {
    g1_on_curve(p) && g1_torsion_free(p)
}

/// A value of the curve library is a point of the second source group.
pub open spec fn g2_in_group(q: blstrs::G2Affine) -> bool {
    g2_on_curve(q) && g2_torsion_free(q)
}

/// Whether a value of the curve library is an element of the target group:
/// in the subgroup of order `r` of the extension field's units. The
/// pairing and the library's operations on its results yield such elements
/// only.
pub uninterp spec fn gt_in_group(t: blstrs::Gt) -> bool;

/// The exponent of the point to which the curve library hashes a message in
/// the first source group, with empty domain separation tag and augmentation.
pub uninterp spec fn g1_hash_exponent(msg: Seq<char>) -> int;

/// The exponent of the point to which the curve library hashes a message in
/// the second source group, with empty domain separation tag and augmentation.
pub uninterp spec fn g2_hash_exponent(msg: Seq<char>) -> int;

/// The bytes by which the curve library prints the target group's element of
/// a given exponent.
pub uninterp spec fn gt_encoding(exponent: int) -> Seq<u8>;

/// `Scalar::from(u64)`: the scalar of a small integer. No reduction happens,
/// `r` has 255 bits.
#[verifier::external_body]
fn scalar_from_u64(x: u64) -> (out: blstrs::Scalar)
    ensures
        scalar_value(out) == x,
{
    blstrs::Scalar::from(x)
}

/// `Scalar + Scalar`: addition in the field.
#[verifier::external_body]
fn scalar_sum(a: &blstrs::Scalar, b: &blstrs::Scalar) -> (out: blstrs::Scalar)
    ensures
        scalar_value(out) == reduce(scalar_value(*a) + scalar_value(*b)),
{
    a + b
}

/// `Scalar * Scalar`: multiplication in the field.
#[verifier::external_body]
fn scalar_product(a: &blstrs::Scalar, b: &blstrs::Scalar) -> (out: blstrs::Scalar)
    ensures
        scalar_value(out) == reduce(scalar_value(*a) * scalar_value(*b)),
{
    a * b
}

/// `-Scalar`: the additive inverse in the field.
#[verifier::external_body]
fn scalar_negation(a: &blstrs::Scalar) -> (out: blstrs::Scalar)
    ensures
        scalar_value(out) == reduce(-scalar_value(*a)),
{
    -a
}

/// `Field::pow_vartime` with an exponent of one limb: square and multiply,
/// the power in the field.
#[verifier::external_body]
fn scalar_power(a: &blstrs::Scalar, k: u64) -> (out: blstrs::Scalar)
    ensures
        scalar_value(out) == reduce(pow(scalar_value(*a), k as nat)),
{
    ff::Field::pow_vartime(a, [k])
}

/// `Scalar == Scalar`. Two scalars are equal when they stand for the same
/// integer: the library keeps each in one canonical form.
#[verifier::external_body]
fn scalar_equal(a: &blstrs::Scalar, b: &blstrs::Scalar) -> (out: bool)
    ensures
        out == (scalar_value(*a) == scalar_value(*b)),
{
    a == b
}

/// `Field::random`: a scalar drawn from the generator's stream. Which one is
/// not stated: only that it is a scalar.
#[verifier::external_body]
fn scalar_random(rng: &mut rand::rngs::StdRng) -> (out: blstrs::Scalar)
    ensures
        0 <= scalar_value(out) < modulus(),
{
    <blstrs::Scalar as ff::Field>::random(rng)
}

/// `G1Affine::generator()`: the fixed generator, of exponent one.
#[verifier::external_body]
fn g1_generator() -> (out: blstrs::G1Affine)
    ensures
        g1_in_group(out),
        g1_exponent(out) == 1,
{
    <blstrs::G1Affine as group::prime::PrimeCurveAffine>::generator()
}

/// `G1Affine::identity()`: the neutral element, of exponent zero.
#[verifier::external_body]
fn g1_identity() -> (out: blstrs::G1Affine)
    ensures
        g1_in_group(out),
        g1_exponent(out) == 0,
{
    <blstrs::G1Affine as group::prime::PrimeCurveAffine>::identity()
}

/// `G1Projective + G1Affine`, brought back to affine form: the group
/// operation, which adds exponents.
#[verifier::external_body]
fn g1_sum(a: &blstrs::G1Affine, b: &blstrs::G1Affine) -> (out: blstrs::G1Affine)
    requires
        g1_in_group(*a),
        g1_in_group(*b),
    ensures
        g1_in_group(out),
        g1_exponent(out) == reduce(g1_exponent(*a) + g1_exponent(*b)),
{
    blstrs::G1Affine::from(blstrs::G1Projective::from(a) + b)
}

/// `-G1Affine`: the inverse, which negates the exponent.
#[verifier::external_body]
fn g1_negation(a: &blstrs::G1Affine) -> (out: blstrs::G1Affine)
    requires
        g1_in_group(*a),
    ensures
        g1_in_group(out),
        g1_exponent(out) == reduce(-g1_exponent(*a)),
{
    -a
}

/// `G1Affine * Scalar`, brought back to affine form: the point added to itself
/// `s` times, which multiplies the exponent by `s`.
#[verifier::external_body]
fn g1_scalar_product(p: &blstrs::G1Affine, s: &blstrs::Scalar) -> (out: blstrs::G1Affine)
    requires
        g1_in_group(*p),
    ensures
        g1_in_group(out),
        g1_exponent(out) == reduce(g1_exponent(*p) * scalar_value(*s)),
{
    blstrs::G1Affine::from(p * s)
}

/// `G1Affine == G1Affine`. Affine coordinates are unique, and so is the
/// exponent: equal points, equal exponents, and the converse.
#[verifier::external_body]
fn g1_equal(a: &blstrs::G1Affine, b: &blstrs::G1Affine) -> (out: bool)
    requires
        g1_in_group(*a),
        g1_in_group(*b),
    ensures
        out == (g1_exponent(*a) == g1_exponent(*b)),
{
    a == b
}

/// `G1Projective::random`: a point of the group drawn from the generator's
/// stream. Which one is not stated.
#[verifier::external_body]
fn g1_random(rng: &mut rand::rngs::StdRng) -> (out: blstrs::G1Affine)
    ensures
        g1_in_group(out),
        0 <= g1_exponent(out) < modulus(),
{
    blstrs::G1Affine::from(<blstrs::G1Projective as group::Group>::random(rng))
}

/// `G1Projective::hash_to_curve` with empty tag and augmentation: a point of
/// the group that depends on the message alone.
#[verifier::external_body]
fn g1_hash(msg: &str) -> (out: blstrs::G1Affine)
    ensures
        g1_in_group(out),
        g1_exponent(out) == g1_hash_exponent(msg@),
{
    blstrs::G1Affine::from(blstrs::G1Projective::hash_to_curve(msg.as_bytes(), &[], &[]))
}

/// `G1Affine::is_on_curve`: whether the value is on the curve.
#[verifier::external_body]
fn g1_is_on_curve(p: &blstrs::G1Affine) -> (out: bool)
    ensures
        out == g1_on_curve(*p),
{
    p.is_on_curve().into()
}

/// `G1Affine::is_torsion_free`: whether the value lies in the subgroup of
/// order `r`.
#[verifier::external_body]
fn g1_is_torsion_free(p: &blstrs::G1Affine) -> (out: bool)
    ensures
        out == g1_torsion_free(*p),
{
    p.is_torsion_free().into()
}

/// `G2Affine::generator()`: the fixed generator, of exponent one.
#[verifier::external_body]
fn g2_generator() -> (out: blstrs::G2Affine)
    ensures
        g2_in_group(out),
        g2_exponent(out) == 1,
{
    <blstrs::G2Affine as group::prime::PrimeCurveAffine>::generator()
}

/// `G2Affine::identity()`: the neutral element, of exponent zero.
#[verifier::external_body]
fn g2_identity() -> (out: blstrs::G2Affine)
    ensures
        g2_in_group(out),
        g2_exponent(out) == 0,
{
    <blstrs::G2Affine as group::prime::PrimeCurveAffine>::identity()
}

/// `G2Projective + G2Affine`, brought back to affine form: the group
/// operation, which adds exponents.
#[verifier::external_body]
fn g2_sum(a: &blstrs::G2Affine, b: &blstrs::G2Affine) -> (out: blstrs::G2Affine)
    requires
        g2_in_group(*a),
        g2_in_group(*b),
    ensures
        g2_in_group(out),
        g2_exponent(out) == reduce(g2_exponent(*a) + g2_exponent(*b)),
{
    blstrs::G2Affine::from(blstrs::G2Projective::from(a) + b)
}

/// `G2Affine * Scalar`, brought back to affine form: multiplies the exponent
/// by `s`.
#[verifier::external_body]
fn g2_scalar_product(q: &blstrs::G2Affine, s: &blstrs::Scalar) -> (out: blstrs::G2Affine)
    requires
        g2_in_group(*q),
    ensures
        g2_in_group(out),
        g2_exponent(out) == reduce(g2_exponent(*q) * scalar_value(*s)),
{
    blstrs::G2Affine::from(q * s)
}

/// `G2Affine == G2Affine`: equal points, equal exponents, and the converse.
#[verifier::external_body]
fn g2_equal(a: &blstrs::G2Affine, b: &blstrs::G2Affine) -> (out: bool)
    requires
        g2_in_group(*a),
        g2_in_group(*b),
    ensures
        out == (g2_exponent(*a) == g2_exponent(*b)),
{
    a == b
}

/// `G2Projective::random`: a point of the group drawn from the generator's
/// stream. Which one is not stated.
#[verifier::external_body]
fn g2_random(rng: &mut rand::rngs::StdRng) -> (out: blstrs::G2Affine)
    ensures
        g2_in_group(out),
        0 <= g2_exponent(out) < modulus(),
{
    blstrs::G2Affine::from(<blstrs::G2Projective as group::Group>::random(rng))
}

/// `G2Projective::hash_to_curve` with empty tag and augmentation: a point of
/// the group that depends on the message alone.
#[verifier::external_body]
fn g2_hash(msg: &str) -> (out: blstrs::G2Affine)
    ensures
        g2_in_group(out),
        g2_exponent(out) == g2_hash_exponent(msg@),
{
    blstrs::G2Affine::from(blstrs::G2Projective::hash_to_curve(msg.as_bytes(), &[], &[]))
}

/// `G2Affine::is_on_curve`: whether the value is on the curve.
#[verifier::external_body]
fn g2_is_on_curve(q: &blstrs::G2Affine) -> (out: bool)
    ensures
        out == g2_on_curve(*q),
{
    q.is_on_curve().into()
}

/// `G2Affine::is_torsion_free`: whether the value lies in the subgroup of
/// order `r`.
#[verifier::external_body]
fn g2_is_torsion_free(q: &blstrs::G2Affine) -> (out: bool)
    ensures
        out == g2_torsion_free(*q),
{
    q.is_torsion_free().into()
}

/// `Gt::generator()`: the pairing of the two source generators, of exponent
/// one.
#[verifier::external_body]
fn gt_generator() -> (out: blstrs::Gt)
    ensures
        gt_in_group(out),
        gt_exponent(out) == 1,
{
    <blstrs::Gt as group::Group>::generator()
}

/// `Gt::identity()`: the neutral element, of exponent zero.
#[verifier::external_body]
fn gt_identity() -> (out: blstrs::Gt)
    ensures
        gt_in_group(out),
        gt_exponent(out) == 0,
{
    <blstrs::Gt as group::Group>::identity()
}

/// `Gt + Gt`: the group operation, written additively by the library, which
/// adds exponents.
#[verifier::external_body]
fn gt_sum(a: &blstrs::Gt, b: &blstrs::Gt) -> (out: blstrs::Gt)
    requires
        gt_in_group(*a),
        gt_in_group(*b),
    ensures
        gt_in_group(out),
        gt_exponent(out) == reduce(gt_exponent(*a) + gt_exponent(*b)),
{
    a + b
}

/// `Gt - Gt`: the group operation with the inverse of the second operand,
/// which subtracts exponents.
#[verifier::external_body]
fn gt_difference(a: &blstrs::Gt, b: &blstrs::Gt) -> (out: blstrs::Gt)
    requires
        gt_in_group(*a),
        gt_in_group(*b),
    ensures
        gt_in_group(out),
        gt_exponent(out) == reduce(gt_exponent(*a) - gt_exponent(*b)),
{
    a - b
}

/// `-Gt`: the inverse, which negates the exponent.
#[verifier::external_body]
fn gt_negation(a: &blstrs::Gt) -> (out: blstrs::Gt)
    requires
        gt_in_group(*a),
    ensures
        gt_in_group(out),
        gt_exponent(out) == reduce(-gt_exponent(*a)),
{
    -a
}

/// `Gt * Scalar`: the element combined with itself `s` times, which multiplies
/// the exponent by `s`.
#[verifier::external_body]
fn gt_scalar_product(t: &blstrs::Gt, s: &blstrs::Scalar) -> (out: blstrs::Gt)
    requires
        gt_in_group(*t),
    ensures
        gt_in_group(out),
        gt_exponent(out) == reduce(gt_exponent(*t) * scalar_value(*s)),
{
    t * s
}

/// `Gt == Gt`: equal elements, equal exponents, and the converse.
#[verifier::external_body]
fn gt_equal(a: &blstrs::Gt, b: &blstrs::Gt) -> (out: bool)
    requires
        gt_in_group(*a),
        gt_in_group(*b),
    ensures
        out == (gt_exponent(*a) == gt_exponent(*b)),
{
    a == b
}

/// `Gt`'s `Display`, as bytes: the element's coordinates in the library's
/// fixed notation, the same text for the same element.
#[verifier::external_body]
fn gt_text(t: &blstrs::Gt) -> (out: Vec<u8>)
    requires
        gt_in_group(*t),
    ensures
        out@ == gt_encoding(gt_exponent(*t)),
{
    t.to_string().into_bytes()
}

/// `blstrs::pairing`: the bilinear map. The pairing of `g1^a` and `g2^b` is
/// the target generator to the power `a * b`.
#[verifier::external_body]
fn pairing_of(p: &blstrs::G1Affine, q: &blstrs::G2Affine) -> (out: blstrs::Gt)
    requires
        g1_in_group(*p),
        g2_in_group(*q),
    ensures
        gt_in_group(out),
        gt_exponent(out) == reduce(g1_exponent(*p) * g2_exponent(*q)),
{
    blstrs::pairing(p, q)
}

/// `RngCore::fill_bytes` on a fresh buffer: `len` bytes of the generator's
/// stream. Which bytes is not stated.
#[verifier::external_body]
fn bytes_random(rng: &mut rand::rngs::StdRng, len: usize) -> (out: Vec<u8>)
    ensures
        out@.len() == len,
{
    let mut out = vec![0u8; len];
    rand::RngCore::fill_bytes(rng, &mut out);
    out
}

/// A scalar: an element of the prime field of order `r`.
#[derive(Clone, Copy, Debug, PartialEq, Eq)]
pub struct Fr {
    inner: blstrs::Scalar,
}

impl View for Fr {
    type V = int;

    closed spec fn view(&self) -> int {
        scalar_value(self.inner)
    }
}

impl Fr {
    /// The scalar of the curve library as a scalar of this one.
    pub fn from_scalar(scalar: blstrs::Scalar) -> (out: Fr)
        ensures
            out@ == scalar_value(scalar),
    {
        Fr { inner: scalar }
    }

    /// The scalar as the curve library holds it.
    pub fn to_scalar(&self) -> (out: blstrs::Scalar)
        ensures
            scalar_value(out) == self@,
    {
        self.inner
    }

    pub fn from_u64(x: u64) -> (out: Fr)
        ensures
            out@ == x,
    {
        Fr { inner: scalar_from_u64(x) }
    }

    pub fn zero() -> (out: Fr)
        ensures
            out@ == 0,
    {
        Fr::from_u64(0)
    }

    pub fn one() -> (out: Fr)
        ensures
            out@ == 1,
    {
        Fr::from_u64(1)
    }

    pub fn add(&self, rhs: &Fr) -> (out: Fr)
        ensures
            out@ == field_add(self@, rhs@),
    {
        Fr { inner: scalar_sum(&self.inner, &rhs.inner) }
    }

    pub fn mul(&self, rhs: &Fr) -> (out: Fr)
        ensures
            out@ == field_mul(self@, rhs@),
    {
        Fr { inner: scalar_product(&self.inner, &rhs.inner) }
    }

    pub fn neg(&self) -> (out: Fr)
        ensures
            out@ == field_neg(self@),
    {
        Fr { inner: scalar_negation(&self.inner) }
    }

    pub fn pow(&self, k: u64) -> (out: Fr)
        ensures
            out@ == field_pow(self@, k as nat),
    {
        Fr { inner: scalar_power(&self.inner, k) }
    }

    pub fn equals(&self, rhs: &Fr) -> (out: bool)
        ensures
            out == (self@ == rhs@),
    {
        scalar_equal(&self.inner, &rhs.inner)
    }

    /// Draws a scalar. Nothing is stated of which.
    pub fn random(rng: &mut rand::rngs::StdRng) -> (out: Fr)
        ensures
            0 <= out@ < modulus(),
    {
        Fr { inner: scalar_random(rng) }
    }
}

/// A point of the first source group.
#[derive(Clone, Copy, Debug, PartialEq, Eq)]
pub struct G1Point {
    point: blstrs::G1Affine,
}

impl View for G1Point {
    type V = int;

    closed spec fn view(&self) -> int {
        g1_exponent(self.point)
    }
}

impl G1Point {
    #[verifier::type_invariant]
    spec fn inv(self) -> bool {
        g1_in_group(self.point)
    }

    /// A value of the curve library as a point, where it is a point of the
    /// group.
    pub fn from_affine(point: blstrs::G1Affine) -> (out: Option<G1Point>)
        ensures
            match out {
                Some(p) => g1_in_group(point) && p@ == g1_exponent(point),
                None => !g1_in_group(point),
            },
    {
        if g1_is_on_curve(&point) && g1_is_torsion_free(&point) {
            Some(G1Point { point })
        } else {
            None
        }
    }

    /// The point as the curve library holds it.
    pub fn to_affine(&self) -> (out: blstrs::G1Affine)
        ensures
            g1_in_group(out),
            g1_exponent(out) == self@,
    {
        proof {
            use_type_invariant(self);
        }
        self.point
    }

    pub fn generator() -> (out: G1Point)
        ensures
            out@ == 1,
    {
        G1Point { point: g1_generator() }
    }

    pub fn identity() -> (out: G1Point)
        ensures
            out@ == 0,
    {
        G1Point { point: g1_identity() }
    }

    pub fn add(&self, rhs: &G1Point) -> (out: G1Point)
        ensures
            out@ == field_add(self@, rhs@),
    {
        proof {
            use_type_invariant(self);
            use_type_invariant(rhs);
        }
        G1Point { point: g1_sum(&self.point, &rhs.point) }
    }

    pub fn neg(&self) -> (out: G1Point)
        ensures
            out@ == field_neg(self@),
    {
        proof {
            use_type_invariant(self);
        }
        G1Point { point: g1_negation(&self.point) }
    }

    pub fn scale(&self, s: &Fr) -> (out: G1Point)
        ensures
            out@ == field_mul(self@, s@),
    {
        proof {
            use_type_invariant(self);
        }
        G1Point { point: g1_scalar_product(&self.point, &s.inner) }
    }

    pub fn equals(&self, rhs: &G1Point) -> (out: bool)
        ensures
            out == (self@ == rhs@),
    {
        proof {
            use_type_invariant(self);
            use_type_invariant(rhs);
        }
        g1_equal(&self.point, &rhs.point)
    }

    /// Draws a point. Nothing is stated of which.
    pub fn random(rng: &mut rand::rngs::StdRng) -> (out: G1Point)
        ensures
            0 <= out@ < modulus(),
    {
        G1Point { point: g1_random(rng) }
    }

    /// The point to which a message hashes.
    pub fn hash(msg: &str) -> (out: G1Point)
        ensures
            out@ == g1_hash_exponent(msg@),
    {
        G1Point { point: g1_hash(msg) }
    }
}

/// A point of the second source group.
#[derive(Clone, Copy, Debug, PartialEq, Eq)]
pub struct G2Point {
    point: blstrs::G2Affine,
}

impl View for G2Point {
    type V = int;

    closed spec fn view(&self) -> int {
        g2_exponent(self.point)
    }
}

impl G2Point {
    #[verifier::type_invariant]
    spec fn inv(self) -> bool {
        g2_in_group(self.point)
    }

    /// A value of the curve library as a point, where it is a point of the
    /// group.
    pub fn from_affine(point: blstrs::G2Affine) -> (out: Option<G2Point>)
        ensures
            match out {
                Some(q) => g2_in_group(point) && q@ == g2_exponent(point),
                None => !g2_in_group(point),
            },
    {
        if g2_is_on_curve(&point) && g2_is_torsion_free(&point) {
            Some(G2Point { point })
        } else {
            None
        }
    }

    /// The point as the curve library holds it.
    pub fn to_affine(&self) -> (out: blstrs::G2Affine)
        ensures
            g2_in_group(out),
            g2_exponent(out) == self@,
    {
        proof {
            use_type_invariant(self);
        }
        self.point
    }

    pub fn generator() -> (out: G2Point)
        ensures
            out@ == 1,
    {
        G2Point { point: g2_generator() }
    }

    pub fn identity() -> (out: G2Point)
        ensures
            out@ == 0,
    {
        G2Point { point: g2_identity() }
    }

    pub fn add(&self, rhs: &G2Point) -> (out: G2Point)
        ensures
            out@ == field_add(self@, rhs@),
    {
        proof {
            use_type_invariant(self);
            use_type_invariant(rhs);
        }
        G2Point { point: g2_sum(&self.point, &rhs.point) }
    }

    pub fn scale(&self, s: &Fr) -> (out: G2Point)
        ensures
            out@ == field_mul(self@, s@),
    {
        proof {
            use_type_invariant(self);
        }
        G2Point { point: g2_scalar_product(&self.point, &s.inner) }
    }

    pub fn equals(&self, rhs: &G2Point) -> (out: bool)
        ensures
            out == (self@ == rhs@),
    {
        proof {
            use_type_invariant(self);
            use_type_invariant(rhs);
        }
        g2_equal(&self.point, &rhs.point)
    }

    /// Draws a point. Nothing is stated of which.
    pub fn random(rng: &mut rand::rngs::StdRng) -> (out: G2Point)
        ensures
            0 <= out@ < modulus(),
    {
        G2Point { point: g2_random(rng) }
    }

    /// The point to which a message hashes.
    pub fn hash(msg: &str) -> (out: G2Point)
        ensures
            out@ == g2_hash_exponent(msg@),
    {
        G2Point { point: g2_hash(msg) }
    }
}

/// An element of the target group, written additively.
#[derive(Clone, Copy, Debug, PartialEq, Eq)]
pub struct GtElement {
    element: blstrs::Gt,
}

impl View for GtElement {
    type V = int;

    closed spec fn view(&self) -> int {
        gt_exponent(self.element)
    }
}

impl GtElement {
    #[verifier::type_invariant]
    spec fn inv(self) -> bool {
        gt_in_group(self.element)
    }

    pub fn generator() -> (out: GtElement)
        ensures
            out@ == 1,
    {
        GtElement { element: gt_generator() }
    }

    pub fn identity() -> (out: GtElement)
        ensures
            out@ == 0,
    {
        GtElement { element: gt_identity() }
    }

    pub fn add(&self, rhs: &GtElement) -> (out: GtElement)
        ensures
            out@ == field_add(self@, rhs@),
    {
        proof {
            use_type_invariant(self);
            use_type_invariant(rhs);
        }
        GtElement { element: gt_sum(&self.element, &rhs.element) }
    }

    pub fn sub(&self, rhs: &GtElement) -> (out: GtElement)
        ensures
            out@ == field_sub(self@, rhs@),
    {
        proof {
            use_type_invariant(self);
            use_type_invariant(rhs);
        }
        GtElement { element: gt_difference(&self.element, &rhs.element) }
    }

    pub fn neg(&self) -> (out: GtElement)
        ensures
            out@ == field_neg(self@),
    {
        proof {
            use_type_invariant(self);
        }
        GtElement { element: gt_negation(&self.element) }
    }

    pub fn scale(&self, s: &Fr) -> (out: GtElement)
        ensures
            out@ == field_mul(self@, s@),
    {
        proof {
            use_type_invariant(self);
        }
        GtElement { element: gt_scalar_product(&self.element, &s.inner) }
    }

    pub fn equals(&self, rhs: &GtElement) -> (out: bool)
        ensures
            out == (self@ == rhs@),
    {
        proof {
            use_type_invariant(self);
            use_type_invariant(rhs);
        }
        gt_equal(&self.element, &rhs.element)
    }

    /// The element as bytes, the same for the same element.
    pub fn to_bytes(&self) -> (out: Vec<u8>)
        ensures
            out@ == gt_encoding(self@),
    {
        proof {
            use_type_invariant(self);
        }
        gt_text(&self.element)
    }
}

/// The pairing of a point of each source group.
pub fn pairing(p: &G1Point, q: &G2Point) -> (out: GtElement)
    ensures
        out@ == field_mul(p@, q@),
{
    proof {
        use_type_invariant(p);
        use_type_invariant(q);
    }
    GtElement { element: pairing_of(&p.point, &q.point) }
}

/// Draws `len` bytes. Nothing is stated of which.
pub fn random_bytes(rng: &mut rand::rngs::StdRng, len: usize) -> (out: Vec<u8>)
    ensures
        out@.len() == len,
{
    bytes_random(rng, len)
}

} // verus!
