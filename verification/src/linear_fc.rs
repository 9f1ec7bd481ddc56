//! A functional commitment for linear functions of a hidden vector.
//!
//! A key for vectors of length `n` holds the powers `u^1, ..., u^(2n)` of a
//! secret `u` in the first source group, with the power `u^(n + 1)` left out,
//! and `u^1, ..., u^n` in the second. A commitment to `x` can be opened to
//! the value `y` of any linear function `beta` at `x`: the opening is one
//! point, and verification is one equation between pairings. The contracts
//! state every result by its exponent, and [`lemma_opening_accepted`] proves
//! that verification accepts what [`commit_with`] and [`open`] produce.

use crate::curve::{pairing, Fr, G1Point, G2Point, GtElement};
use crate::field::{
    congruent, field_pow, lemma_congruent_add, lemma_congruent_mul, lemma_modulus_large,
    lemma_reduce_arith, lemma_reduce_small, lemma_sum_add, lemma_sum_congruent, lemma_sum_equal,
    lemma_sum_scale, lemma_sum_single, modulus, reduce, sum_to,
};
use crate::Error;
use vstd::arithmetic::power::*;
use vstd::prelude::*;

verus! {

/// The secret vector of a commitment.
pub type FunctionVars = Vec<Fr>;

/// The public coefficients of a linear function.
pub type FunctionCoeffs = Vec<Fr>;

/// The value of the function at the secret vector.
pub type FunctionOutput = Fr;

/// A commitment: one point of the first source group.
pub type Commitment = G1Point;

/// The model of a key: the exponents of its points.
pub struct KeyView {
    pub u1: Seq<int>,
    pub u2: Seq<int>,
}

impl KeyView {
    /// The length of the vectors that the key commits to.
    pub open spec fn n(self) -> nat {
        self.u2.len()
    }

    /// The shape of a key: `n >= 1`, twice as many points in the first
    /// group, and the neutral element where `u^(n + 1)` would stand.
    pub open spec fn wf(self) -> bool {
        &&& self.u2.len() >= 1
        &&& self.u1.len() == 2 * self.u2.len()
        &&& self.u1[self.u2.len() as int] == 0
    }

    /// The key is the one that the secret `u` generates.
    pub open spec fn powers_of(self, u: int) -> bool {
        &&& self.wf()
        &&& forall|j: int|
            0 <= j < self.u1.len() && j != self.n() ==> #[trigger] self.u1[j] == field_pow(
                u,
                (j + 1) as nat,
            )
        &&& forall|j: int|
            0 <= j < self.u2.len() ==> #[trigger] self.u2[j] == field_pow(u, (j + 1) as nat)
    }
}

/// The values of a vector of scalars.
pub open spec fn scalars(s: Seq<Fr>) -> Seq<int> {
    s.map_values(|x: Fr| x@)
}

pub open spec fn evaluation_terms(x: Seq<int>, beta: Seq<int>) -> spec_fn(int) -> int {
    |i: int| x[i] * beta[i]
}

/// The integer `x[0] * beta[0] + ...`, whose residue is the value of the
/// linear function `beta` at `x`.
pub open spec fn evaluation(x: Seq<int>, beta: Seq<int>) -> int {
    sum_to(evaluation_terms(x, beta), x.len())
}

pub open spec fn commitment_terms(key: KeyView, x: Seq<int>) -> spec_fn(int) -> int {
    |i: int| key.u1[i] * x[i]
}

/// The integer whose residue is the exponent of the commitment to `x` with
/// the blinding `r`.
pub open spec fn commitment_sum(key: KeyView, x: Seq<int>, r: int) -> int {
    r + sum_to(commitment_terms(key, x), x.len())
}

pub open spec fn cross_terms(key: KeyView, x: Seq<int>, i: int) -> spec_fn(int) -> int {
    |j: int|
        if j != i {
            key.u1[key.n() - i + j] * x[j]
        } else {
            0
        }
}

/// The part of the opening that belongs to the coefficient `beta[i]`: the
/// blinding at the power `n - i`, and every `x[j]` but `x[i]` at the power
/// `n - i + j + 1`.
pub open spec fn opening_part(key: KeyView, x: Seq<int>, r: int, i: int) -> int {
    key.u1[key.n() - 1 - i] * r + sum_to(cross_terms(key, x, i), key.n())
}

pub open spec fn opening_terms(key: KeyView, x: Seq<int>, r: int, beta: Seq<int>) -> spec_fn(
    int,
) -> int {
    |i: int| opening_part(key, x, r, i) * beta[i]
}

/// The integer whose residue is the exponent of the opening.
pub open spec fn opening_sum(key: KeyView, x: Seq<int>, r: int, beta: Seq<int>) -> int {
    sum_to(opening_terms(key, x, r, beta), key.n())
}

pub open spec fn combination_terms(key: KeyView, beta: Seq<int>) -> spec_fn(int) -> int {
    |i: int| key.u2[key.n() - 1 - i] * beta[i]
}

/// The integer whose residue is the exponent of the point of the second
/// group against which a commitment is paired.
pub open spec fn combination(key: KeyView, beta: Seq<int>) -> int {
    sum_to(combination_terms(key, beta), key.n())
}

/// The exponent of the left side of the verification equation.
pub open spec fn lefthandside_value(key: KeyView, cm: int, beta: Seq<int>) -> int {
    reduce(cm * combination(key, beta))
}

/// The exponent of the term of the verification equation that carries the
/// claimed value.
pub open spec fn righthandside_value(key: KeyView, y: int) -> int {
    reduce(key.u1[0] * (key.u2[key.n() - 1] * y))
}

/// The verification equation: the pairing of the commitment with the
/// combination equals the pairing of the opening with the generator,
/// combined with the value term.
pub open spec fn accepts(key: KeyView, cm: int, op: int, beta: Seq<int>, y: int) -> bool {
    lefthandside_value(key, cm, beta) == reduce(op + righthandside_value(key, y))
}

pub open spec fn trapdoor_cross_terms(u: int, x: Seq<int>, i: int) -> spec_fn(int) -> int {
    |j: int|
        if j != i {
            field_pow(u, (x.len() + 1 - i + j) as nat) * x[j]
        } else {
            0
        }
}

pub open spec fn trapdoor_terms(u: int, x: Seq<int>, r: int, beta: Seq<int>) -> spec_fn(
    int,
) -> int {
    |i: int|
        (field_pow(u, (x.len() - i) as nat) * r + sum_to(trapdoor_cross_terms(u, x, i), x.len()))
            * beta[i]
}

/// The integer whose residue is the exponent of the opening, from the
/// secret of the key.
pub open spec fn trapdoor_sum(u: int, x: Seq<int>, r: int, beta: Seq<int>) -> int {
    sum_to(trapdoor_terms(u, x, r, beta), x.len())
}

/// A commitment key.
#[derive(Debug, PartialEq)]
pub struct CommitmentKey {
    u1: Vec<G1Point>,
    u2: Vec<G2Point>,
}

impl View for CommitmentKey {
    type V = KeyView;

    closed spec fn view(&self) -> KeyView {
        KeyView {
            u1: self.u1@.map_values(|p: G1Point| p@),
            u2: self.u2@.map_values(|q: G2Point| q@),
        }
    }
}

impl CommitmentKey {
    #[verifier::type_invariant]
    spec fn inv(self) -> bool {
        self@.wf()
    }

    /// A key from its points, or `DimensionMismatch` where they have not
    /// the shape of a key.
    pub fn new(u1: Vec<G1Point>, u2: Vec<G2Point>) -> (out: Result<CommitmentKey, Error>)
        ensures
            match out {
                Ok(key) => key@.wf() && key@ == (KeyView {
                    u1: u1@.map_values(|p: G1Point| p@),
                    u2: u2@.map_values(|q: G2Point| q@),
                }),
                Err(e) => e == Error::DimensionMismatch && !(KeyView {
                    u1: u1@.map_values(|p: G1Point| p@),
                    u2: u2@.map_values(|q: G2Point| q@),
                }).wf(),
            },
    {
        let n = u2.len();
        if n == 0 || u1.len() < n || u1.len() - n != n {
            return Err(Error::DimensionMismatch);
        }
        if !u1[n].equals(&G1Point::identity()) {
            return Err(Error::DimensionMismatch);
        }
        Ok(CommitmentKey { u1, u2 })
    }

    /// The length of the vectors that the key commits to.
    pub fn n(&self) -> (out: usize)
        ensures
            out == self@.n(),
            2 * out <= usize::MAX,
            self@.wf(),
    {
        proof {
            use_type_invariant(self);
            assert(self@.u1.len() == self.u1.len());
        }
        self.u2.len()
    }

    /// The point of the first group at place `j`.
    pub fn u1(&self, j: usize) -> (out: G1Point)
        requires
            j < self@.u1.len(),
        ensures
            out@ == self@.u1[j as int],
            self@.wf(),
    {
        proof {
            use_type_invariant(self);
        }
        self.u1[j]
    }

    /// The point of the second group at place `j`.
    pub fn u2(&self, j: usize) -> (out: G2Point)
        requires
            j < self@.u2.len(),
        ensures
            out@ == self@.u2[j as int],
            self@.wf(),
    {
        proof {
            use_type_invariant(self);
        }
        self.u2[j]
    }
}

/// The key that a secret generates: the powers of `u`, and the neutral
/// element in place of `u^(n + 1)`.
///
/// `DimensionMismatch` for the length zero, and for one whose double is
/// beyond what a vector can hold.
pub fn key_from_secret(witness_length: u64, u: &Fr) -> (out: Result<CommitmentKey, Error>)
    ensures
        match out {
            Ok(key) => key@.n() == witness_length && key@.powers_of(u@),
            Err(e) => e == Error::DimensionMismatch && (witness_length == 0 || 2 * witness_length
                > usize::MAX),
        },
{
    if witness_length == 0 || witness_length > (usize::MAX / 2) as u64 {
        return Err(Error::DimensionMismatch);
    }
    let n = witness_length as usize;
    let g1 = G1Point::generator();
    let g2 = G2Point::generator();
    let mut u1: Vec<G1Point> = Vec::new();
    let mut j: usize = 0;
    while j < 2 * n
        invariant
            j <= 2 * n,
            1 <= n <= usize::MAX / 2,
            g1@ == 1,
            u1.len() == j,
            forall|k: int|
                0 <= k < j && k != n ==> (#[trigger] u1[k])@ == field_pow(u@, (k + 1) as nat),
            j > n ==> u1[n as int]@ == 0,
        decreases 2 * n - j,
    {
        if j == n {
            u1.push(G1Point::identity());
        } else {
            let power = u.pow((j + 1) as u64);
            let point = g1.scale(&power);
            proof {
                lemma_reduce_arith(1, pow(u@, (j + 1) as nat));
                assert(1 * field_pow(u@, (j + 1) as nat) == field_pow(u@, (j + 1) as nat));
                assert(1 * pow(u@, (j + 1) as nat) == pow(u@, (j + 1) as nat));
            }
            u1.push(point);
        }
        j += 1;
    }
    let mut u2: Vec<G2Point> = Vec::new();
    let mut j: usize = 0;
    while j < n
        invariant
            j <= n,
            n <= usize::MAX / 2,
            g2@ == 1,
            u2.len() == j,
            forall|k: int| 0 <= k < j ==> (#[trigger] u2[k])@ == field_pow(u@, (k + 1) as nat),
        decreases n - j,
    {
        let power = u.pow((j + 1) as u64);
        let point = g2.scale(&power);
        proof {
            lemma_reduce_arith(1, pow(u@, (j + 1) as nat));
            assert(1 * field_pow(u@, (j + 1) as nat) == field_pow(u@, (j + 1) as nat));
            assert(1 * pow(u@, (j + 1) as nat) == pow(u@, (j + 1) as nat));
        }
        u2.push(point);
        j += 1;
    }
    let key = CommitmentKey { u1, u2 };
    Ok(key)
}

/// A key for vectors of the given length, from a secret that is drawn
/// here and forgotten.
pub fn generate_key(witness_length: u64, rng: &mut rand::rngs::StdRng) -> (out: Result<
    CommitmentKey,
    Error,
>)
    ensures
        match out {
            Ok(key) => key@.n() == witness_length && exists|u: int|
                0 <= u < modulus() && key@.powers_of(u),
            Err(e) => e == Error::DimensionMismatch && (witness_length == 0 || 2 * witness_length
                > usize::MAX),
        },
{
    let u = Fr::random(rng);
    key_from_secret(witness_length, &u)
}

/// The value of the linear function `beta` at `x`.
///
/// `DimensionMismatch` where the lengths differ.
pub fn compute_func(x: &Vec<Fr>, beta: &Vec<Fr>) -> (out: Result<Fr, Error>)
    ensures
        match out {
            Ok(y) => x.len() == beta.len() && y@ == reduce(
                evaluation(scalars(x@), scalars(beta@)),
            ),
            Err(e) => e == Error::DimensionMismatch && x.len() != beta.len(),
        },
{
    let n = x.len();
    if beta.len() != n {
        return Err(Error::DimensionMismatch);
    }
    let ghost f = evaluation_terms(scalars(x@), scalars(beta@));
    let mut y = Fr::zero();
    let mut i: usize = 0;
    proof {
        lemma_modulus_large();
        lemma_reduce_small(0);
    }
    while i < n
        invariant
            i <= n,
            n == x.len(),
            n == beta.len(),
            f == evaluation_terms(scalars(x@), scalars(beta@)),
            y@ == reduce(sum_to(f, i as nat)),
        decreases n - i,
    {
        let term = x[i].mul(&beta[i]);
        proof {
            assert(f(i as int) == x[i as int]@ * beta[i as int]@);
            lemma_reduce_arith(sum_to(f, i as nat), f(i as int));
        }
        y = y.add(&term);
        i += 1;
    }
    Ok(y)
}

/// A key for vectors of the given length together with a sample instance:
/// the vector `1, 2, 1, 2, ...`, the coefficients `2, 1, 2, 1, ...`, the
/// value of the function, and the secret of the key.
///
/// The secret is handed out so that openings can be compared in the
/// exponent. A key whose secret is known binds nobody.
pub fn setup_random(witness_length: u64, rng: &mut rand::rngs::StdRng) -> (out: Result<
    (CommitmentKey, FunctionVars, FunctionCoeffs, FunctionOutput, Fr),
    Error,
>)
    ensures
        match out {
            Ok((key, alpha, beta, y, u)) => {
                &&& key@.n() == witness_length
                &&& key@.powers_of(u@)
                &&& alpha.len() == witness_length
                &&& beta.len() == witness_length
                &&& forall|i: int|
                    0 <= i < witness_length ==> (#[trigger] alpha[i])@ == (if i % 2 == 0 {
                        1int
                    } else {
                        2int
                    })
                &&& forall|i: int|
                    0 <= i < witness_length ==> (#[trigger] beta[i])@ == (if i % 2 == 0 {
                        2int
                    } else {
                        1int
                    })
                &&& y@ == reduce(evaluation(scalars(alpha@), scalars(beta@)))
            },
            Err(e) => e == Error::DimensionMismatch && (witness_length == 0 || 2 * witness_length
                > usize::MAX),
        },
{
    let u = Fr::random(rng);
    let key = match key_from_secret(witness_length, &u) {
        Ok(key) => key,
        Err(e) => {
            return Err(e);
        },
    };
    let n = key.n();
    let mut alpha: Vec<Fr> = Vec::new();
    let mut beta: Vec<Fr> = Vec::new();
    let mut i: usize = 0;
    while i < n
        invariant
            i <= n,
            alpha.len() == i,
            beta.len() == i,
            forall|k: int| 0 <= k < i ==> (#[trigger] alpha[k])@ == (if k % 2 == 0 {
                1int
            } else {
                2int
            }),
            forall|k: int| 0 <= k < i ==> (#[trigger] beta[k])@ == (if k % 2 == 0 {
                2int
            } else {
                1int
            }),
        decreases n - i,
    {
        if i % 2 == 0 {
            alpha.push(Fr::from_u64(1));
            beta.push(Fr::from_u64(2));
        } else {
            alpha.push(Fr::from_u64(2));
            beta.push(Fr::from_u64(1));
        }
        i += 1;
    }
    let y = match compute_func(&alpha, &beta) {
        Ok(y) => y,
        Err(e) => {
            return Err(e);
        },
    };
    Ok((key, alpha, beta, y, u))
}

/// The commitment to `alpha` with the blinding `r`: the generator to the
/// power `r`, combined with the key's points to the powers `alpha[i]`.
///
/// `DimensionMismatch` where `alpha` has not the key's length.
pub fn commit_with(ck: &CommitmentKey, alpha: &Vec<Fr>, r: &Fr) -> (out: Result<G1Point, Error>)
    ensures
        match out {
            Ok(cm) => alpha.len() == ck@.n() && cm@ == reduce(
                commitment_sum(ck@, scalars(alpha@), r@),
            ),
            Err(e) => e == Error::DimensionMismatch && alpha.len() != ck@.n(),
        },
{
    let n = ck.n();
    if alpha.len() != n {
        return Err(Error::DimensionMismatch);
    }
    let ghost f = commitment_terms(ck@, scalars(alpha@));
    let mut sum = G1Point::identity();
    let mut i: usize = 0;
    proof {
        lemma_modulus_large();
        lemma_reduce_small(0);
    }
    while i < n
        invariant
            i <= n,
            n == ck@.n(),
            n == alpha.len(),
            ck@.wf(),
            f == commitment_terms(ck@, scalars(alpha@)),
            sum@ == reduce(sum_to(f, i as nat)),
        decreases n - i,
    {
        let term = ck.u1(i).scale(&alpha[i]);
        proof {
            assert(f(i as int) == ck@.u1[i as int] * alpha[i as int]@);
            lemma_reduce_arith(sum_to(f, i as nat), f(i as int));
        }
        sum = sum.add(&term);
        i += 1;
    }
    let r1_gen = G1Point::generator().scale(r);
    let cm = sum.add(&r1_gen);
    proof {
        assert(1 * r@ == r@);
        lemma_reduce_arith(sum_to(f, n as nat), r@);
    }
    Ok(cm)
}

/// A commitment to `alpha` under a blinding that is drawn here. Returns
/// the commitment, and the vector with the blinding: what opens it.
pub fn commit(ck: &CommitmentKey, alpha: FunctionVars, rng: &mut rand::rngs::StdRng) -> (out:
    Result<(Commitment, (FunctionVars, Fr)), Error>)
    ensures
        match out {
            Ok((cm, d)) => {
                &&& d.0 == alpha
                &&& alpha.len() == ck@.n()
                &&& cm@ == reduce(commitment_sum(ck@, scalars(alpha@), d.1@))
            },
            Err(e) => e == Error::DimensionMismatch && alpha.len() != ck@.n(),
        },
{
    let r = Fr::random(rng);
    match commit_with(ck, &alpha, &r) {
        Ok(cm) => Ok((cm, (alpha, r))),
        Err(e) => Err(e),
    }
}

/// The opening of the commitment to `d.0` under the blinding `d.1` for the
/// linear function `beta`.
///
/// `DimensionMismatch` where the vector or the coefficients have not the
/// key's length.
pub fn open(ck: &CommitmentKey, d: &(FunctionVars, Fr), beta: &FunctionCoeffs) -> (out: Result<
    G1Point,
    Error,
>)
    ensures
        match out {
            Ok(op) => {
                &&& d.0.len() == ck@.n()
                &&& beta.len() == ck@.n()
                &&& op@ == reduce(opening_sum(ck@, scalars(d.0@), d.1@, scalars(beta@)))
            },
            Err(e) => e == Error::DimensionMismatch && (d.0.len() != ck@.n() || beta.len()
                != ck@.n()),
        },
{
    let n = ck.n();
    if d.0.len() != n || beta.len() != n {
        return Err(Error::DimensionMismatch);
    }
    let ghost x = scalars(d.0@);
    let ghost key = ck@;
    let ghost f = opening_terms(key, x, d.1@, scalars(beta@));
    let mut sum = G1Point::identity();
    let mut i: usize = 0;
    proof {
        lemma_modulus_large();
        lemma_reduce_small(0);
    }
    while i < n
        invariant
            i <= n,
            2 * n <= usize::MAX,
            n == key.n(),
            n == d.0.len(),
            n == beta.len(),
            key == ck@,
            key.wf(),
            x == scalars(d.0@),
            f == opening_terms(key, x, d.1@, scalars(beta@)),
            sum@ == reduce(sum_to(f, i as nat)),
        decreases n - i,
    {
        let ghost g = cross_terms(key, x, i as int);
        let mut w_i = ck.u1(n - 1 - i).scale(&d.1);
        let mut j: usize = 0;
        proof {
            lemma_reduce_arith(key.u1[n - 1 - i] * d.1@, 0);
        }
        while j < n
            invariant
                j <= n,
                i < n,
                2 * n <= usize::MAX,
                n == key.n(),
                n == d.0.len(),
                key == ck@,
                key.wf(),
                x == scalars(d.0@),
                g == cross_terms(key, x, i as int),
                w_i@ == reduce(key.u1[n - 1 - i] * d.1@ + sum_to(g, j as nat)),
            decreases n - j,
        {
            if j != i {
                let term = ck.u1(n - i + j).scale(&d.0[j]);
                proof {
                    assert(g(j as int) == key.u1[n - i + j] * x[j as int]);
                    lemma_reduce_arith(key.u1[n - 1 - i] * d.1@ + sum_to(g, j as nat), g(j as int));
                }
                w_i = w_i.add(&term);
            } else {
                assert(g(j as int) == 0);
            }
            j += 1;
        }
        let term = w_i.scale(&beta[i]);
        proof {
            assert(f(i as int) == opening_part(key, x, d.1@, i as int) * beta[i as int]@);
            lemma_reduce_arith(opening_part(key, x, d.1@, i as int), beta[i as int]@);
            lemma_reduce_arith(sum_to(f, i as nat), f(i as int));
        }
        sum = sum.add(&term);
        i += 1;
    }
    Ok(sum)
}

/// The exponent of the opening, computed from the secret of the key.
///
/// `DimensionMismatch` where the lengths differ, or are beyond half of
/// what a vector can hold.
pub fn dl_of_opening(u: Fr, d: &(FunctionVars, Fr), beta: &FunctionCoeffs) -> (out: Result<
    Fr,
    Error,
>)
    ensures
        match out {
            Ok(dl) => {
                &&& d.0.len() == beta.len()
                &&& dl@ == reduce(trapdoor_sum(u@, scalars(d.0@), d.1@, scalars(beta@)))
            },
            Err(e) => e == Error::DimensionMismatch && (d.0.len() != beta.len() || 2 * beta.len()
                > usize::MAX),
        },
{
    let n = beta.len();
    if d.0.len() != n || n > usize::MAX / 2 {
        return Err(Error::DimensionMismatch);
    }
    let ghost x = scalars(d.0@);
    let ghost f = trapdoor_terms(u@, x, d.1@, scalars(beta@));
    let mut sum = Fr::zero();
    let mut i: usize = 0;
    proof {
        lemma_modulus_large();
        lemma_reduce_small(0);
    }
    while i < n
        invariant
            i <= n,
            n <= usize::MAX / 2,
            n == d.0.len(),
            n == beta.len(),
            x == scalars(d.0@),
            f == trapdoor_terms(u@, x, d.1@, scalars(beta@)),
            sum@ == reduce(sum_to(f, i as nat)),
        decreases n - i,
    {
        let ghost g = trapdoor_cross_terms(u@, x, i as int);
        let ghost head = field_pow(u@, (n - i) as nat) * d.1@;
        let mut dl_of_w_i = u.pow((n - i) as u64).mul(&d.1);
        let mut j: usize = 0;
        proof {
            lemma_reduce_arith(head, 0);
        }
        while j < n
            invariant
                j <= n,
                i < n,
                n <= usize::MAX / 2,
                n == d.0.len(),
                x == scalars(d.0@),
                g == trapdoor_cross_terms(u@, x, i as int),
                head == field_pow(u@, (n - i) as nat) * d.1@,
                dl_of_w_i@ == reduce(head + sum_to(g, j as nat)),
            decreases n - j,
        {
            if j != i {
                let term = u.pow((n + 1 - i + j) as u64).mul(&d.0[j]);
                proof {
                    assert(g(j as int) == field_pow(u@, (n + 1 - i + j) as nat) * x[j as int]);
                    lemma_reduce_arith(head + sum_to(g, j as nat), g(j as int));
                }
                dl_of_w_i = dl_of_w_i.add(&term);
            } else {
                assert(g(j as int) == 0);
            }
            j += 1;
        }
        let term = dl_of_w_i.mul(&beta[i]);
        proof {
            assert(f(i as int) == (head + sum_to(g, n as nat)) * beta[i as int]@);
            lemma_reduce_arith(head + sum_to(g, n as nat), beta[i as int]@);
            lemma_reduce_arith(sum_to(f, i as nat), f(i as int));
        }
        sum = sum.add(&term);
        i += 1;
    }
    Ok(sum)
}

/// The exponent of the value term of verification, from the secret of the key:
/// `u^(n + 1) * y`.
pub fn dl_of_m(u: Fr, n: u64, y: Fr) -> (out: Fr)
    ensures
        out@ == reduce(pow(u@, (n + 1) as nat) * y@),
{
    let power = u.pow(n).mul(&u);
    let out = power.mul(&y);
    proof {
        lemma_reduce_arith(pow(u@, n as nat), u@);
        assert(pow(u@, (n + 1) as nat) == u@ * pow(u@, n as nat)) by {
            reveal(pow);
        }
        assert(pow(u@, n as nat) * u@ == u@ * pow(u@, n as nat)) by (nonlinear_arith);
        lemma_reduce_arith(pow(u@, (n + 1) as nat), y@);
    }
    out
}

/// The key's points of the second group, combined by the coefficients in
/// reverse: the point against which a commitment is paired.
///
/// `DimensionMismatch` where the number of coefficients is not the key's
/// length.
pub fn combine_key(ck: &CommitmentKey, beta: &FunctionCoeffs) -> (out: Result<G2Point, Error>)
    ensures
        match out {
            Ok(point) => beta.len() == ck@.n() && point@ == reduce(
                combination(ck@, scalars(beta@)),
            ),
            Err(e) => e == Error::DimensionMismatch && beta.len() != ck@.n(),
        },
{
    let len = ck.n();
    if beta.len() != len {
        return Err(Error::DimensionMismatch);
    }
    let ghost key = ck@;
    let ghost f = combination_terms(key, scalars(beta@));
    let mut sum = G2Point::identity();
    let mut i: usize = 0;
    proof {
        lemma_modulus_large();
        lemma_reduce_small(0);
    }
    while i < len
        invariant
            i <= len,
            len == key.n(),
            len == beta.len(),
            key == ck@,
            key.wf(),
            f == combination_terms(key, scalars(beta@)),
            sum@ == reduce(sum_to(f, i as nat)),
        decreases len - i,
    {
        let term = ck.u2(len - 1 - i).scale(&beta[i]);
        proof {
            assert(f(i as int) == key.u2[len - 1 - i] * beta[i as int]@);
            lemma_reduce_arith(sum_to(f, i as nat), f(i as int));
        }
        sum = sum.add(&term);
        i += 1;
    }
    Ok(sum)
}

/// The left side of the verification equation: the pairing of the commitment
/// with the
/// combination of the key.
///
/// `DimensionMismatch` where `n` or the number of coefficients is not the
/// key's length.
pub fn lefthandside(cm: Commitment, ck: &CommitmentKey, beta: &FunctionCoeffs, n: u64) -> (out:
    Result<GtElement, Error>)
    ensures
        match out {
            Ok(t) => {
                &&& n == ck@.n()
                &&& beta.len() == ck@.n()
                &&& t@ == lefthandside_value(ck@, cm@, scalars(beta@))
            },
            Err(e) => e == Error::DimensionMismatch && (n != ck@.n() || beta.len() != ck@.n()),
        },
{
    let len = ck.n();
    if n != len as u64 {
        return Err(Error::DimensionMismatch);
    }
    let sum = match combine_key(ck, beta) {
        Ok(point) => point,
        Err(e) => {
            return Err(e);
        },
    };
    let t = pairing(&cm, &sum);
    proof {
        lemma_reduce_arith(cm@, combination(ck@, scalars(beta@)));
    }
    Ok(t)
}

/// The term of the verification equation that carries the claimed value `y`:
/// the pairing of
/// the key's first point with its last point of the second group to the
/// power `y`.
///
/// `DimensionMismatch` where `n` is not the key's length.
pub fn righthandside(ck: &CommitmentKey, y: FunctionOutput, n: u64) -> (out: Result<
    GtElement,
    Error,
>)
    ensures
        match out {
            Ok(t) => n == ck@.n() && t@ == righthandside_value(ck@, y@),
            Err(e) => e == Error::DimensionMismatch && n != ck@.n(),
        },
{
    let len = ck.n();
    if n != len as u64 {
        return Err(Error::DimensionMismatch);
    }
    let scaled = ck.u2(len - 1).scale(&y);
    let t = pairing(&ck.u1(0), &scaled);
    proof {
        lemma_reduce_arith(ck@.u1[0], ck@.u2[len - 1] * y@);
    }
    Ok(t)
}

/// Whether `op` opens the commitment `cm` to the value `y` of the linear
/// function `beta`. A refusal is an answer, not an error.
///
/// `DimensionMismatch` where `n` or the number of coefficients is not the
/// key's length.
pub fn verify(
    ck: &CommitmentKey,
    cm: Commitment,
    op: G1Point,
    beta: &FunctionCoeffs,
    y: FunctionOutput,
    n: u64,
) -> (out: Result<bool, Error>)
    ensures
        match out {
            Ok(accepted) => {
                &&& n == ck@.n()
                &&& beta.len() == ck@.n()
                &&& accepted == accepts(ck@, cm@, op@, scalars(beta@), y@)
            },
            Err(e) => e == Error::DimensionMismatch && (n != ck@.n() || beta.len() != ck@.n()),
        },
{
    let lefthandside = match lefthandside(cm, ck, beta, n) {
        Ok(t) => t,
        Err(e) => {
            return Err(e);
        },
    };
    let righthandside = match righthandside(ck, y, n) {
        Ok(t) => t,
        Err(e) => {
            return Err(e);
        },
    };
    let opening_pairing = pairing(&op, &G2Point::generator());
    let sum = opening_pairing.add(&righthandside);
    proof {
        assert(op@ * 1 == op@);
        lemma_reduce_arith(op@, righthandside@);
    }
    Ok(lefthandside.equals(&sum))
}

/// Products of key points fall on key points again: the powers of the
/// secret add up. The one product that falls on the gap, `u^(n + 1)`, is
/// the same for every `i`.
proof fn lemma_key_products(key: KeyView, u: int, i: int, j: int)
    requires
        key.powers_of(u),
        0 <= i < key.n(),
        0 <= j < key.n(),
    ensures
        key.u2[key.n() - 1 - i] == key.u1[key.n() - 1 - i],
        j != i ==> congruent(key.u1[j] * key.u2[key.n() - 1 - i], key.u1[key.n() - i + j]),
        j == i ==> congruent(
            key.u1[j] * key.u2[key.n() - 1 - i],
            key.u1[0] * key.u2[key.n() - 1],
        ),
{
    let n = key.n() as int;
    let a = pow(u, (j + 1) as nat);
    let c = pow(u, (n - i) as nat);
    assert(key.u1[j] == reduce(a));
    assert(key.u2[n - 1 - i] == reduce(c));
    assert(key.u1[n - 1 - i] == reduce(c));
    lemma_reduce_arith(a, c);
    lemma_pow_adds(u, (j + 1) as nat, (n - i) as nat);
    assert(congruent(key.u1[j] * key.u2[n - 1 - i], pow(u, (n - i + j + 1) as nat)));
    if j != i {
        assert(key.u1[n - i + j] == reduce(pow(u, (n - i + j + 1) as nat)));
        lemma_reduce_arith(pow(u, (n - i + j + 1) as nat), 0);
    } else {
        assert(key.u1[0] == reduce(pow(u, 1)));
        assert(key.u2[n - 1] == reduce(pow(u, n as nat)));
        lemma_reduce_arith(pow(u, 1), pow(u, n as nat));
        lemma_pow_adds(u, 1, n as nat);
    }
}

/// The term of the verification equation that carries `x[i]`, standing
/// alone in a sum.
spec fn value_terms(key: KeyView, x: Seq<int>, i: int) -> spec_fn(int) -> int {
    |j: int|
        if j == i {
            key.u1[0] * key.u2[key.n() - 1] * x[i]
        } else {
            0
        }
}

/// One row of the verification equation: the commitment's exponent times one
/// key point of
/// the second group is that row's part of the opening, and the value term.
proof fn lemma_opening_row(key: KeyView, u: int, x: Seq<int>, r: int, i: int)
    requires
        key.powers_of(u),
        x.len() == key.n(),
        0 <= i < key.n(),
    ensures
        congruent(
            commitment_sum(key, x, r) * key.u2[key.n() - 1 - i],
            opening_part(key, x, r, i) + key.u1[0] * key.u2[key.n() - 1] * x[i],
        ),
{
    let n = key.n();
    let c = key.u2[n - 1 - i];
    let f = commitment_terms(key, x);
    let scaled = |j: int| c * f(j);
    let cross = cross_terms(key, x, i);
    let single = value_terms(key, x, i);
    let both = |j: int| cross(j) + single(j);
    lemma_sum_scale(f, c, n);
    assert forall|j: int| 0 <= j < n implies congruent(#[trigger] scaled(j), both(j)) by {
        lemma_key_products(key, u, i, j);
        assert(scaled(j) == (key.u1[j] * c) * x[j]) by (nonlinear_arith)
            requires
                scaled(j) == c * (key.u1[j] * x[j]),
        ;
        if j != i {
            lemma_congruent_mul(key.u1[j] * c, key.u1[n - i + j], x[j], x[j]);
        } else {
            lemma_congruent_mul(key.u1[j] * c, key.u1[0] * key.u2[n - 1], x[j], x[j]);
        }
    }
    lemma_sum_congruent(scaled, both, n);
    lemma_sum_add(cross, single, n);
    lemma_sum_single(single, n, i);
    lemma_key_products(key, u, i, i);
    let s = sum_to(f, n);
    assert(commitment_sum(key, x, r) * c == key.u1[n - 1 - i] * r + c * s) by (nonlinear_arith)
        requires
            commitment_sum(key, x, r) == r + s,
            c == key.u1[n - 1 - i],
    ;
    lemma_congruent_add(
        key.u1[n - 1 - i] * r,
        key.u1[n - 1 - i] * r,
        sum_to(scaled, n),
        sum_to(both, n),
    );
}

/// What was committed and opened as this module does is accepted: for
/// every key that a secret generates, every vector `x`, blinding `r` and
/// linear function `beta` of the key's length, verification accepts the
/// commitment to `x`, its opening for `beta`, and the value of `beta` at `x`.
pub proof fn lemma_opening_accepted(key: KeyView, u: int, x: Seq<int>, r: int, beta: Seq<int>)
    requires
        key.powers_of(u),
        x.len() == key.n(),
        beta.len() == key.n(),
    ensures
        accepts(
            key,
            reduce(commitment_sum(key, x, r)),
            reduce(opening_sum(key, x, r, beta)),
            beta,
            reduce(evaluation(x, beta)),
        ),
{
    let n = key.n();
    let cm = commitment_sum(key, x, r);
    let top = key.u1[0] * key.u2[n - 1];
    let comb = combination_terms(key, beta);
    let left = |i: int| cm * comb(i);
    let open = opening_terms(key, x, r, beta);
    let eval = evaluation_terms(x, beta);
    let value = |i: int| top * eval(i);
    let right = |i: int| open(i) + value(i);
    lemma_sum_scale(comb, cm, n);
    assert forall|i: int| 0 <= i < n implies congruent(#[trigger] left(i), right(i)) by {
        lemma_opening_row(key, u, x, r, i);
        let c = key.u2[n - 1 - i];
        let part = opening_part(key, x, r, i);
        lemma_congruent_mul(cm * c, part + top * x[i], beta[i], beta[i]);
        assert(left(i) == (cm * c) * beta[i]) by (nonlinear_arith)
            requires
                left(i) == cm * (c * beta[i]),
        ;
        assert(right(i) == (part + top * x[i]) * beta[i]) by (nonlinear_arith)
            requires
                right(i) == part * beta[i] + top * (x[i] * beta[i]),
        ;
    }
    lemma_sum_congruent(left, right, n);
    lemma_sum_add(open, value, n);
    lemma_sum_scale(eval, top, n);
    // Both sides of the equation, with every inner reduction moved outward.
    lemma_reduce_arith(cm, combination(key, beta));
    lemma_reduce_arith(opening_sum(key, x, r, beta), top * evaluation(x, beta));
    lemma_reduce_arith(key.u2[n - 1], evaluation(x, beta));
    lemma_reduce_arith(key.u1[0], key.u2[n - 1] * evaluation(x, beta));
    lemma_reduce_arith(key.u1[0], key.u2[n - 1] * reduce(evaluation(x, beta)));
    assert(key.u1[0] * (key.u2[n - 1] * evaluation(x, beta)) == top * evaluation(x, beta))
        by (nonlinear_arith)
        requires
            top == key.u1[0] * key.u2[n - 1],
    ;
    lemma_reduce_arith(
        reduce(opening_sum(key, x, r, beta)),
        righthandside_value(key, reduce(evaluation(x, beta))),
    );
}

/// For a commitment, a linear function and a value, verification accepts
/// at most one opening: two openings that it accepts are the same point.
/// Any other point, such as a multiple of an accepted opening by a scalar
/// other than one, is refused.
pub proof fn lemma_accepted_opening_unique(
    key: KeyView,
    cm: int,
    op: int,
    other: int,
    beta: Seq<int>,
    y: int,
)
    requires
        accepts(key, cm, op, beta, y),
        accepts(key, cm, other, beta, y),
    ensures
        congruent(op, other),
        0 <= op < modulus() && 0 <= other < modulus() ==> op == other,
{
    let right = righthandside_value(key, y);
    lemma_reduce_arith(op + right, right);
    lemma_reduce_arith(other + right, right);
    assert(op + right - right == op);
    assert(other + right - right == other);
    if 0 <= op < modulus() && 0 <= other < modulus() {
        lemma_reduce_small(op);
        lemma_reduce_small(other);
    }
}

/// The opening has the exponent that the secret of the key predicts, and
/// so has the value term of the verification equation.
pub proof fn lemma_trapdoor_exponents(
    key: KeyView,
    u: int,
    x: Seq<int>,
    r: int,
    beta: Seq<int>,
    y: int,
)
    requires
        key.powers_of(u),
        x.len() == key.n(),
        beta.len() == key.n(),
    ensures
        opening_sum(key, x, r, beta) == trapdoor_sum(u, x, r, beta),
        righthandside_value(key, y) == reduce(pow(u, (key.n() + 1) as nat) * y),
{
    let n = key.n();
    let open = opening_terms(key, x, r, beta);
    let trap = trapdoor_terms(u, x, r, beta);
    assert forall|i: int| 0 <= i < n implies #[trigger] open(i) == trap(i) by {
        let cross = cross_terms(key, x, i);
        let tcross = trapdoor_cross_terms(u, x, i);
        assert forall|j: int| 0 <= j < n implies #[trigger] cross(j) == tcross(j) by {
            if j != i {
                assert(key.u1[n - i + j] == field_pow(u, (n - i + j + 1) as nat));
            }
        }
        lemma_sum_equal(cross, tcross, n);
        assert(key.u1[n - 1 - i] == field_pow(u, (n - i) as nat));
    }
    lemma_sum_equal(open, trap, n);
    assert(key.u1[0] == reduce(pow(u, 1)));
    assert(key.u2[n - 1] == reduce(pow(u, n as nat)));
    lemma_pow_adds(u, 1, n as nat);
    lemma_reduce_arith(pow(u, 1), pow(u, n as nat));
    lemma_reduce_arith(key.u2[n - 1], y);
    lemma_reduce_arith(pow(u, n as nat), y);
    lemma_reduce_arith(key.u1[0], key.u2[n - 1] * y);
    lemma_reduce_arith(pow(u, 1), pow(u, n as nat) * y);
    lemma_reduce_arith(key.u1[0], pow(u, n as nat) * y);
    assert(pow(u, 1) * (pow(u, n as nat) * y) == pow(u, (n + 1) as nat) * y) by (nonlinear_arith)
        requires
            pow(u, 1) * pow(u, n as nat) == pow(u, (n + 1) as nat),
    ;
}

} // verus!
