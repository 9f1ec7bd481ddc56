//! Smooth projective hash functions over languages of mixed elements.
//!
//! A language is given by a matrix `gamma` with `m` rows and `k` columns. A
//! word `theta` (of length `m`) is in the language when it is `gamma` times
//! some witness `lambda` (of length `k`), in the exponent. The hashing key
//! `hk` is a vector of `m` secret scalars, and its projection `hp` is `hk`
//! times `gamma`, which anyone may know. The holder of `hk` hashes a word
//! as `hk` times `theta`; the holder of a witness hashes it as `hp` times
//! `lambda`. For a word in the language both get the same element of the
//! target group: [`lemma_hashes_agree`].
//!
//! Two languages combine into their conjunction and their disjunction, and
//! the words of the combined languages are again in them:
//! [`lemma_conjunction_in_language`], [`lemma_disjunction_in_language`].
//! For the language of a base and for its compositions the hashes are
//! defined and agree on every word that was built for its messages:
//! [`lemma_word_hashes_agree`], [`lemma_conjunction_hashes_agree`],
//! [`lemma_disjunction_hashes_agree`].

use crate::bls_elements::{
    dot, inner_product, inner_product_of, lemma_inner_product_kind, lemma_inner_product_value,
    product_kind, views, BlsElement, Element, Kind,
};
use crate::curve::{
    g1_hash_exponent, g2_hash_exponent, pairing, Fr, G1Point, G2Point, GtElement,
};
use crate::field::{
    congruent, field_add, field_mul, field_neg, field_sub, lemma_congruent_add,
    lemma_congruent_mul, lemma_modulus_large, lemma_reduce_arith, lemma_reduce_small,
    lemma_sum_congruent, lemma_sum_equal, lemma_sum_exchange, lemma_sum_scale, modulus, reduce,
    sum_to,
};
use crate::linear_fc::{
    accepts, combination, righthandside, righthandside_value, CommitmentKey, KeyView,
};
use crate::matrix::{Matrix, MatrixView};
use crate::Error;
use vstd::prelude::*;

verus! {

/// `hp` is the projection of the key `hk` for the language `gamma`: its
/// entry `j` is the inner product of `hk` with column `j`.
pub open spec fn projects(hk: Seq<Element>, gamma: MatrixView, hp: Seq<Element>) -> bool {
    &&& hk.len() == gamma.rows
    &&& hp.len() == gamma.cols
    &&& forall|j: int|
        0 <= j < gamma.cols ==> inner_product(hk, #[trigger] gamma.column(j)) == Some(hp[j])
}

/// The word `theta` is in the language `gamma`, with the witness `lambda`:
/// entry `i` of the word is row `i` times the witness, in the exponent.
pub open spec fn in_language(
    gamma: MatrixView,
    theta: Seq<Element>,
    lambda: Seq<Element>,
) -> bool {
    &&& theta.len() == gamma.rows
    &&& lambda.len() == gamma.cols
    &&& forall|i: int|
        0 <= i < gamma.rows ==> congruent(theta[i].value, dot(#[trigger] gamma.row(i), lambda))
}

/// The exponent of a hash: of an inner product that is defined and lies in
/// the target group.
pub open spec fn hash_value(a: Seq<Element>, b: Seq<Element>) -> Option<int> {
    match inner_product(a, b) {
        Some(e) => if e.kind is Gt {
            Some(e.value)
        } else {
            None
        },
        None => None,
    }
}

/// The projection of a hashing key: the key times each column of `gamma`.
///
/// `DimensionMismatch` where the key is empty or has not one entry for each
/// row; otherwise `InvalidOperation` where some column has no inner product
/// with the key.
pub fn mul_gamma(a: &Vec<BlsElement>, gamma: &Matrix) -> (out: Result<Vec<BlsElement>, Error>)
    ensures
        match out {
            Ok(hp) => projects(views(a@), gamma@, views(hp@)),
            Err(Error::DimensionMismatch) => a.len() == 0 || a.len() != gamma@.rows,
            Err(Error::InvalidOperation) => {
                &&& a.len() != 0
                &&& a.len() == gamma@.rows
                &&& !has_projection(views(a@), gamma@)
            },
            Err(Error::Unsupported) => false,
        },
{
    let width = gamma.ncols();
    if a.len() == 0 || a.len() != gamma.nrows() {
        return Err(Error::DimensionMismatch);
    }
    let mut res: Vec<BlsElement> = Vec::new();
    let mut i: usize = 0;
    while i < width
        invariant
            i <= width,
            width == gamma@.cols,
            a.len() != 0,
            a.len() == gamma@.rows,
            res.len() == i,
            forall|j: int|
                0 <= j < i ==> inner_product(views(a@), #[trigger] gamma@.column(j)) == Some(
                    res[j]@,
                ),
        decreases width - i,
    {
        let column = gamma.column(i);
        match inner_product_of(a, &column) {
            Ok(element) => {
                res.push(element);
            },
            Err(_) => {
                assert(inner_product(views(a@), gamma@.column(i as int)) is None);
                return Err(Error::InvalidOperation);
            },
        }
        i += 1;
    }
    assert(views(res@).len() == width);
    Ok(res)
}

/// The hashing key times a word.
///
/// `DimensionMismatch` where the lengths differ or are zero; otherwise
/// `InvalidOperation` where the inner product is undefined.
pub fn mul_theta(a: &Vec<BlsElement>, theta: &Vec<BlsElement>) -> (out: Result<BlsElement, Error>)
    ensures
        match out {
            Ok(e) => inner_product(views(a@), views(theta@)) == Some(e@),
            Err(Error::DimensionMismatch) => a.len() == 0 || a.len() != theta.len(),
            Err(Error::InvalidOperation) => a.len() != 0 && a.len() == theta.len()
                && inner_product(views(a@), views(theta@)) is None,
            Err(Error::Unsupported) => false,
        },
{
    inner_product_of(a, theta)
}

/// The projected key times a witness.
///
/// `DimensionMismatch` where the lengths differ or are zero; otherwise
/// `InvalidOperation` where the inner product is undefined.
pub fn mul_lambda(a: &Vec<BlsElement>, lambda: &Vec<BlsElement>) -> (out: Result<
    BlsElement,
    Error,
>)
    ensures
        match out {
            Ok(e) => inner_product(views(a@), views(lambda@)) == Some(e@),
            Err(Error::DimensionMismatch) => a.len() == 0 || a.len() != lambda.len(),
            Err(Error::InvalidOperation) => a.len() != 0 && a.len() == lambda.len()
                && inner_product(views(a@), views(lambda@)) is None,
            Err(Error::Unsupported) => false,
        },
{
    inner_product_of(a, lambda)
}

/// An element as a hash: the element of the target group that it is, or
/// `InvalidOperation` where it is of another kind.
pub fn as_hash(e: BlsElement) -> (out: Result<GtElement, Error>)
    ensures
        match out {
            Ok(t) => e@ == (Element { kind: Kind::Gt, value: t@ }),
            Err(err) => err == Error::InvalidOperation && !(e@.kind is Gt),
        },
{
    match e {
        BlsElement::Gt(t) => Ok(t),
        _ => Err(Error::InvalidOperation),
    }
}

/// The hash of a word under a hashing key.
///
/// `DimensionMismatch` where the lengths differ or are zero; otherwise
/// `InvalidOperation` where the inner product is undefined or lies outside
/// the target group.
pub fn gen_verifier_hash(hash_key: &Vec<BlsElement>, theta: &Vec<BlsElement>) -> (out: Result<
    GtElement,
    Error,
>)
    ensures
        match out {
            Ok(t) => hash_value(views(hash_key@), views(theta@)) == Some(t@),
            Err(Error::DimensionMismatch) => hash_key.len() == 0 || hash_key.len() != theta.len(),
            Err(Error::InvalidOperation) => hash_key.len() != 0 && hash_key.len() == theta.len()
                && hash_value(views(hash_key@), views(theta@)) is None,
            Err(Error::Unsupported) => false,
        },
{
    match mul_theta(hash_key, theta) {
        Ok(res) => as_hash(res),
        Err(e) => Err(e),
    }
}

/// A vector of scalars.
pub open spec fn all_scalars(hk: Seq<Element>) -> bool {
    forall|i: int| 0 <= i < hk.len() ==> (#[trigger] hk[i]).kind is Scalar && 0 <= hk[i].value
        < modulus()
}

/// The key `hk` has an inner product with every column of `gamma`.
pub open spec fn has_projection(hk: Seq<Element>, gamma: MatrixView) -> bool {
    forall|j: int| 0 <= j < gamma.cols ==> inner_product(hk, #[trigger] gamma.column(j)) is Some
}

/// A hashing key for the language `gamma`, drawn here, and its projection.
///
/// `DimensionMismatch` where `gamma` has no rows; `InvalidOperation` where
/// some column of `gamma` has no inner product with the key that was drawn.
pub fn gen_hash_keys(gamma: &Matrix, rng: &mut rand::rngs::StdRng) -> (out: Result<
    (Vec<BlsElement>, Vec<BlsElement>),
    Error,
>)
    ensures
        match out {
            Ok((hk, hp)) => projects(views(hk@), gamma@, views(hp@)) && all_scalars(views(hk@)),
            Err(Error::DimensionMismatch) => gamma@.rows == 0,
            Err(Error::InvalidOperation) => exists|hk: Seq<Element>|
                {
                    &&& hk.len() == gamma@.rows
                    &&& all_scalars(hk)
                    &&& !#[trigger] has_projection(hk, gamma@)
                },
            Err(Error::Unsupported) => false,
        },
{
    let rows = gamma.nrows();
    let mut a_n: Vec<BlsElement> = Vec::new();
    let mut i: usize = 0;
    while i < rows
        invariant
            i <= rows,
            a_n.len() == i,
            all_scalars(views(a_n@)),
        decreases rows - i,
    {
        let ghost before = views(a_n@);
        a_n.push(BlsElement::Scalar(Fr::random(rng)));
        proof {
            assert(views(a_n@) =~= before.push(a_n[i as int]@));
        }
        i += 1;
    }
    match mul_gamma(&a_n, gamma) {
        Ok(hp) => Ok((a_n, hp)),
        Err(e) => Err(e),
    }
}

spec fn key_word_terms(hk: Seq<Element>, gamma: MatrixView, lambda: Seq<Element>) -> spec_fn(
    int,
    int,
) -> int {
    |i: int, j: int| hk[i].value * (gamma.at(i, j).value * lambda[j].value)
}

/// The two ways to hash agree on the words of the language: where `hp` is
/// the projection of `hk`, and `theta` is in the language of `gamma` with
/// the witness `lambda`, the key times the word and the projection times
/// the witness have the same value, wherever both are defined.
pub proof fn lemma_hashes_agree(
    gamma: MatrixView,
    hk: Seq<Element>,
    hp: Seq<Element>,
    theta: Seq<Element>,
    lambda: Seq<Element>,
)
    requires
        projects(hk, gamma, hp),
        in_language(gamma, theta, lambda),
        inner_product(hk, theta) is Some,
        inner_product(hp, lambda) is Some,
    ensures
        inner_product(hk, theta).unwrap().value == inner_product(hp, lambda).unwrap().value,
        hash_value(hk, theta) is Some && hash_value(hp, lambda) is Some ==> hash_value(hk, theta)
            == hash_value(hp, lambda),
{
    let m = gamma.rows;
    let k = gamma.cols;
    let h = key_word_terms(hk, gamma, lambda);
    let by_rows = |i: int| sum_to(|j: int| h(i, j), k);
    let by_cols = |j: int| sum_to(|i: int| h(i, j), m);
    let left = |i: int| hk[i].value * theta[i].value;
    let right = |j: int| hp[j].value * lambda[j].value;
    lemma_inner_product_value(hk, theta);
    lemma_inner_product_value(hp, lambda);
    assert forall|i: int| 0 <= i < m implies congruent(#[trigger] left(i), by_rows(i)) by {
        let row = gamma.row(i);
        let terms = |j: int| row[j].value * lambda[j].value;
        let inner = |j: int| h(i, j);
        assert(congruent(theta[i].value, dot(row, lambda)));
        assert(dot(row, lambda) == sum_to(terms, k));
        lemma_sum_scale(terms, hk[i].value, k);
        lemma_sum_equal(|j: int| hk[i].value * terms(j), inner, k);
        lemma_congruent_mul(hk[i].value, hk[i].value, theta[i].value, sum_to(terms, k));
    }
    lemma_sum_congruent(left, by_rows, m);
    assert forall|j: int| 0 <= j < k implies congruent(#[trigger] right(j), by_cols(j)) by {
        let column = gamma.column(j);
        let terms = |i: int| hk[i].value * column[i].value;
        let inner = |i: int| h(i, j);
        assert(inner_product(hk, column) == Some(hp[j]));
        lemma_inner_product_value(hk, column);
        assert(dot(hk, column) == sum_to(terms, m));
        lemma_reduce_arith(sum_to(terms, m), 0);
        assert(congruent(hp[j].value, sum_to(terms, m)));
        lemma_sum_scale(terms, lambda[j].value, m);
        assert forall|i: int| 0 <= i < m implies (#[trigger] inner(i)) == lambda[j].value * terms(
            i,
        ) by {
            assert(hk[i].value * (column[i].value * lambda[j].value) == lambda[j].value * (
            hk[i].value * column[i].value)) by (nonlinear_arith);
        }
        lemma_sum_equal(inner, |i: int| lambda[j].value * terms(i), m);
        lemma_congruent_mul(hp[j].value, sum_to(terms, m), lambda[j].value, lambda[j].value);
        assert(sum_to(terms, m) * lambda[j].value == lambda[j].value * sum_to(terms, m))
            by (nonlinear_arith);
    }
    lemma_sum_congruent(right, by_cols, k);
    lemma_sum_exchange(h, m, k);
    assert(dot(hk, theta) == sum_to(left, m));
    assert(dot(hp, lambda) == sum_to(right, k));
}

/// The four points from which a language is built: `g1` and `h1` of the
/// first source group, `g2` and `h2` of the second, in the order
/// `(g1, g2, h1, h2)`.
pub type BaseGenerators = (G1Point, G2Point, G1Point, G2Point);

/// What proves a word: the two blinding scalars, and the two points to
/// which the messages hash.
pub type Witness = (Fr, Fr, G1Point, G2Point);

/// A word: two blinded points of each source group.
pub type Word = (G1Point, G1Point, G2Point, G2Point);

pub open spec fn scalar_of(value: int) -> Element {
    Element { kind: Kind::Scalar, value }
}

pub open spec fn g1_of(value: int) -> Element {
    Element { kind: Kind::G1, value }
}

pub open spec fn g2_of(value: int) -> Element {
    Element { kind: Kind::G2, value }
}

pub open spec fn gt_of(value: int) -> Element {
    Element { kind: Kind::Gt, value }
}

pub open spec fn base_view(base: BaseGenerators) -> (int, int, int, int) {
    (base.0@, base.1@, base.2@, base.3@)
}

pub open spec fn witness_view(witness: Witness) -> (int, int, int, int) {
    (witness.0@, witness.1@, witness.2@, witness.3@)
}

pub open spec fn word_view(word: Word) -> (int, int, int, int) {
    (word.0@, word.1@, word.2@, word.3@)
}

/// The language of the base `(g1, g2, h1, h2)`: four rows and three columns,
/// of the target group, the first and the second source group.
pub open spec fn language(base: (int, int, int, int)) -> MatrixView {
    MatrixView {
        rows: 4,
        cols: 3,
        entries: seq![
            gt_of(field_mul(base.0, base.1)),
            g1_of(0),
            g2_of(0),
            gt_of(0),
            g1_of(base.0),
            g2_of(0),
            gt_of(0),
            g1_of(0),
            g2_of(base.1),
            gt_of(field_mul(base.2, base.3)),
            g1_of(base.2),
            g2_of(base.3),
        ],
    }
}

/// The word for two messages under the blindings `r1` and `r2`: `g1^r1`,
/// `h1^r1` combined with the first message, `g2^r2`, and `h2^r2` combined
/// with the second.
pub open spec fn word_of(base: (int, int, int, int), msg1: int, msg2: int, r1: int, r2: int) -> (
    int,
    int,
    int,
    int,
) {
    (
        field_mul(base.0, r1),
        field_add(field_mul(base.2, r1), msg1),
        field_mul(base.1, r2),
        field_add(field_mul(base.3, r2), msg2),
    )
}

/// What the holder of the hashing key derives from a word and the two
/// messages: four pairings.
pub open spec fn theta_of(word: (int, int, int, int), msg1: int, msg2: int) -> Seq<Element> {
    seq![
        gt_of(field_mul(field_neg(word.0), word.2)),
        gt_of(field_mul(word.0, word.3)),
        gt_of(field_mul(word.1, word.2)),
        gt_of(field_sub(field_mul(word.1, word.3), field_mul(msg1, msg2))),
    ]
}

/// What the holder of a witness derives from it and from the word.
pub open spec fn lambda_of(witness: (int, int, int, int), word: (int, int, int, int)) -> Seq<
    Element,
> {
    seq![
        scalar_of(field_mul(field_neg(witness.0), witness.1)),
        g2_of(field_mul(witness.0, word.3)),
        g1_of(field_mul(witness.1, word.1)),
    ]
}

/// The witnesses of all words, one after the other.
pub open spec fn all_lambdas(
    witnesses: Seq<(int, int, int, int)>,
    words: Seq<(int, int, int, int)>,
) -> Seq<Element>
    decreases witnesses.len(),
{
    if witnesses.len() == 0 {
        Seq::empty()
    } else {
        all_lambdas(witnesses.drop_last(), words.drop_last()) + lambda_of(
            witnesses.last(),
            words.last(),
        )
    }
}

/// With the first clause of a disjunction chosen: its witness, then minus
/// one, then neutral values in place of the second clause.
pub open spec fn first_chosen(lambda: Seq<Element>) -> Seq<Element> {
    lambda + seq![scalar_of(field_neg(1)), scalar_of(0), g2_of(0), g1_of(0), scalar_of(0)]
}

/// With the second clause of a disjunction chosen: neutral values in place
/// of the first clause, then the witness of the second, then minus one.
pub open spec fn second_chosen(lambda: Seq<Element>) -> Seq<Element> {
    seq![scalar_of(0), g2_of(0), g1_of(0), scalar_of(0)] + lambda + seq![scalar_of(field_neg(1))]
}

/// The witness vector for some words, whole or with one clause of a
/// disjunction chosen, and the faults of a request for it.
pub open spec fn selected_lambda(
    witnesses: Seq<(int, int, int, int)>,
    words: Seq<(int, int, int, int)>,
    witness_to_prove: Option<u32>,
) -> Result<Seq<Element>, Error> {
    if witnesses.len() != words.len() {
        Err(Error::DimensionMismatch)
    } else {
        match witness_to_prove {
            None => if witnesses.len() == 0 {
                Err(Error::DimensionMismatch)
            } else {
                Ok(all_lambdas(witnesses, words))
            },
            Some(i) => if i >= 2 {
                Err(Error::Unsupported)
            } else if i >= witnesses.len() {
                Err(Error::DimensionMismatch)
            } else if i == 0 {
                Ok(first_chosen(lambda_of(witnesses[0], words[0])))
            } else {
                Ok(second_chosen(lambda_of(witnesses[1], words[1])))
            },
        }
    }
}

/// The neutral element of the kind of column `j` of a language.
pub open spec fn padding(j: int) -> Element {
    if j == 0 {
        gt_of(0)
    } else if j == 1 {
        g1_of(0)
    } else {
        g2_of(0)
    }
}

pub open spec fn conjunction_entry(a: MatrixView, b: MatrixView, i: int, j: int) -> Element {
    if i < 4 {
        if j < 3 {
            a.at(i, j)
        } else {
            padding(j - 3)
        }
    } else {
        if j < 3 {
            padding(j)
        } else {
            b.at(i - 4, j - 3)
        }
    }
}

/// The conjunction of two languages: the two matrices on the diagonal, and
/// neutral elements elsewhere.
pub open spec fn conjunction(a: MatrixView, b: MatrixView) -> MatrixView {
    MatrixView {
        rows: 8,
        cols: 6,
        entries: Seq::new(48, |k: int| conjunction_entry(a, b, k / 6, k % 6)),
    }
}

pub open spec fn disjunction_entry(
    a: MatrixView,
    b: MatrixView,
    theta_a: Seq<Element>,
    theta_b: Seq<Element>,
    i: int,
    j: int,
) -> Element {
    if j < 3 {
        if 1 <= i <= 4 {
            a.at(i - 1, j)
        } else {
            padding(j)
        }
    } else if j == 3 {
        if 1 <= i <= 4 {
            theta_a[i - 1]
        } else {
            gt_of(0)
        }
    } else if j < 7 {
        if 5 <= i {
            b.at(i - 5, j - 4)
        } else {
            padding(j - 4)
        }
    } else {
        if 5 <= i {
            theta_b[i - 5]
        } else {
            gt_of(0)
        }
    }
}

/// The disjunction of two languages: a neutral first row, then each
/// matrix with its word as one more column, and neutral elements elsewhere.
pub open spec fn disjunction(
    a: MatrixView,
    b: MatrixView,
    theta_a: Seq<Element>,
    theta_b: Seq<Element>,
) -> MatrixView {
    MatrixView {
        rows: 9,
        cols: 8,
        entries: Seq::new(72, |k: int| disjunction_entry(a, b, theta_a, theta_b, k / 8, k % 8)),
    }
}

/// The word of a disjunction: the inverse of the neutral element, then
/// neutral elements.
pub open spec fn disjunction_word(len: nat) -> Seq<Element> {
    Seq::new(
        len,
        |i: int|
            if i == 0 {
                gt_of(field_neg(0))
            } else {
                gt_of(0)
            },
    )
}

/// The language in which a commitment is a word: the commitment, and the
/// first point of the key in the second group.
pub fn gen_gamma_linear_fc(cm: G1Point, ck: &CommitmentKey) -> (out: Matrix)
    ensures
        out@ == (MatrixView { rows: 1, cols: 2, entries: seq![g1_of(cm@), g2_of(ck@.u2[0])] }),
{
    let n = ck.n();
    let cm_b = BlsElement::G1Affine(cm);
    let u2 = BlsElement::G2Affine(ck.u2(0));
    let data = vec![cm_b, u2];
    assert(views(data@) =~= seq![g1_of(cm@), g2_of(ck@.u2[0])]);
    match Matrix::from_row_slice(1, 2, data) {
        Ok(gamma) => gamma,
        Err(_) => vstd::pervasive::unreached(),
    }
}

/// The language of a base.
pub fn define_language(base: &BaseGenerators) -> (out: Matrix)
    ensures
        out@ == language(base_view(*base)),
{
    let g1_1 = BlsElement::G1Affine(G1Point::identity());
    let g2_1 = BlsElement::G2Affine(G2Point::identity());
    let gt_1 = BlsElement::Gt(GtElement::identity());
    let g1a = BlsElement::G1Affine(base.0);
    let g2a = BlsElement::G2Affine(base.1);
    let h1a = BlsElement::G1Affine(base.2);
    let h2a = BlsElement::G2Affine(base.3);
    let g1g2 = BlsElement::Gt(pairing(&base.0, &base.1));
    let h1h2 = BlsElement::Gt(pairing(&base.2, &base.3));
    let data = vec![g1g2, g1_1, g2_1, gt_1, g1a, g2_1, gt_1, g1_1, g2a, h1h2, h1a, h2a];
    assert(views(data@) =~= language(base_view(*base)).entries);
    match Matrix::from_row_slice(4, 3, data) {
        Ok(gamma) => gamma,
        Err(_) => vstd::pervasive::unreached(),
    }
}

/// A base drawn here, and its language.
pub fn define_language_random(rng: &mut rand::rngs::StdRng) -> (out: (BaseGenerators, Matrix))
    ensures
        out.1@ == language(base_view(out.0)),
{
    let g1 = G1Point::random(rng);
    let g2 = G2Point::random(rng);
    let h1 = G1Point::random(rng);
    let h2 = G2Point::random(rng);
    let base = (g1, g2, h1, h2);
    let gamma = define_language(&base);
    (base, gamma)
}

/// The word for two messages under given blindings, and its witness.
pub fn word_for(base_gen: &BaseGenerators, msg1: &str, msg2: &str, r1: Fr, r2: Fr) -> (out: (
    Witness,
    Word,
))
    ensures
        witness_view(out.0) == (r1@, r2@, g1_hash_exponent(msg1@), g2_hash_exponent(msg2@)),
        word_view(out.1) == word_of(
            base_view(*base_gen),
            g1_hash_exponent(msg1@),
            g2_hash_exponent(msg2@),
            r1@,
            r2@,
        ),
{
    let msg1_g1 = G1Point::hash(msg1);
    let msg2_g2 = G2Point::hash(msg2);
    let witness = (r1, r2, msg1_g1, msg2_g2);
    let word = (
        base_gen.0.scale(&r1),
        base_gen.2.scale(&r1).add(&msg1_g1),
        base_gen.1.scale(&r2),
        base_gen.3.scale(&r2).add(&msg2_g2),
    );
    (witness, word)
}

/// A word for two messages under blindings that are drawn here, and its
/// witness.
pub fn generate_word(
    base_gen: &BaseGenerators,
    msg1: &str,
    msg2: &str,
    rng: &mut rand::rngs::StdRng,
) -> (out: (Witness, Word))
    ensures
        witness_view(out.0).2 == g1_hash_exponent(msg1@),
        witness_view(out.0).3 == g2_hash_exponent(msg2@),
        word_view(out.1) == word_of(
            base_view(*base_gen),
            g1_hash_exponent(msg1@),
            g2_hash_exponent(msg2@),
            out.0.0@,
            out.0.1@,
        ),
{
    let r1 = Fr::random(rng);
    let r2 = Fr::random(rng);
    word_for(base_gen, msg1, msg2, r1, r2)
}

/// The word of the language of commitments for the claimed value `y`: the
/// value term of the commitment's verification equation.
pub fn gen_theta_linear_fc(ck: &CommitmentKey, y: Fr) -> (out: Vec<BlsElement>)
    ensures
        views(out@) == seq![gt_of(righthandside_value(ck@, y@))],
{
    let n = ck.n();
    let theta = match righthandside(ck, y, n as u64) {
        Ok(t) => t,
        Err(_) => vstd::pervasive::unreached(),
    };
    let out = vec![BlsElement::Gt(theta)];
    assert(views(out@) =~= seq![gt_of(righthandside_value(ck@, y@))]);
    out
}

/// What the holder of the hashing key derives from a word and the two
/// messages.
pub fn gen_theta(word: &Word, msg1: &str, msg2: &str) -> (out: Vec<BlsElement>)
    ensures
        views(out@) == theta_of(
            word_view(*word),
            g1_hash_exponent(msg1@),
            g2_hash_exponent(msg2@),
        ),
{
    let msg1_g1 = G1Point::hash(msg1);
    let msg2_g2 = G2Point::hash(msg2);
    let out = vec![
        BlsElement::Gt(pairing(&word.0.neg(), &word.2)),
        BlsElement::Gt(pairing(&word.0, &word.3)),
        BlsElement::Gt(pairing(&word.1, &word.2)),
        BlsElement::Gt(pairing(&word.1, &word.3).sub(&pairing(&msg1_g1, &msg2_g2))),
    ];
    assert(views(out@) =~= theta_of(
        word_view(*word),
        g1_hash_exponent(msg1@),
        g2_hash_exponent(msg2@),
    ));
    out
}

/// The word of a disjunction of the given length.
///
/// `DimensionMismatch` for the length zero.
pub fn gen_theta_disjunction(len: usize) -> (out: Result<Vec<BlsElement>, Error>)
    ensures
        match out {
            Ok(theta) => len >= 1 && views(theta@) == disjunction_word(len as nat),
            Err(e) => e == Error::DimensionMismatch && len == 0,
        },
{
    if len == 0 {
        return Err(Error::DimensionMismatch);
    }
    let mut theta: Vec<BlsElement> = Vec::new();
    theta.push(BlsElement::Gt(GtElement::identity().neg()));
    let mut i: usize = 1;
    while i < len
        invariant
            1 <= i <= len,
            theta.len() == i,
            forall|k: int| 0 <= k < i ==> (#[trigger] theta[k])@ == disjunction_word(len as nat)[k],
        decreases len - i,
    {
        theta.push(BlsElement::Gt(GtElement::identity()));
        i += 1;
    }
    assert(views(theta@) =~= disjunction_word(len as nat));
    Ok(theta)
}

/// A witness vector of the language of commitments, from its two points.
pub fn gen_lambda_linear_fc(element1: G2Point, element2: G1Point) -> (out: Vec<BlsElement>)
    ensures
        views(out@) == seq![g2_of(element1@), g1_of(element2@)],
{
    let out = vec![BlsElement::G2Affine(element1), BlsElement::G1Affine(element2)];
    assert(views(out@) =~= seq![g2_of(element1@), g1_of(element2@)]);
    out
}

/// The witness vector of one word.
pub fn lambda_for(witness: &Witness, word: &Word) -> (out: Vec<BlsElement>)
    ensures
        views(out@) == lambda_of(witness_view(*witness), word_view(*word)),
{
    let out = vec![
        BlsElement::Scalar(witness.0.neg().mul(&witness.1)),
        BlsElement::G2Affine(word.3.scale(&witness.0)),
        BlsElement::G1Affine(word.1.scale(&witness.1)),
    ];
    proof {
        assert(word.3@ * witness.0@ == witness.0@ * word.3@) by (nonlinear_arith);
        assert(word.1@ * witness.1@ == witness.1@ * word.1@) by (nonlinear_arith);
        assert(views(out@) =~= lambda_of(witness_view(*witness), word_view(*word)));
    }
    out
}

/// The models of some witnesses.
pub open spec fn witness_views(witnesses: Seq<Witness>) -> Seq<(int, int, int, int)> {
    witnesses.map_values(|w: Witness| witness_view(w))
}

/// The models of some words.
pub open spec fn word_views(words: Seq<Word>) -> Seq<(int, int, int, int)> {
    words.map_values(|w: Word| word_view(w))
}

/// The witness vector for some words: all of their witnesses one after the
/// other, or, for a disjunction of two, the witness of the chosen clause
/// and fixed neutral values in place of the other, whose witness need not
/// be known.
///
/// `DimensionMismatch` where there are not as many witnesses as words,
/// where there is none, or where the chosen one is missing; `Unsupported`
/// where a clause other than the first or the second is chosen.
pub fn gen_lambda(
    witnesses: &Vec<Witness>,
    words: &Vec<Word>,
    witness_to_prove: Option<u32>,
) -> (out: Result<Vec<BlsElement>, Error>)
    ensures
        match out {
            Ok(lambda) => selected_lambda(
                witness_views(witnesses@),
                word_views(words@),
                witness_to_prove,
            ) == Ok::<Seq<Element>, Error>(views(lambda@)),
            Err(e) => selected_lambda(
                witness_views(witnesses@),
                word_views(words@),
                witness_to_prove,
            ) == Err::<Seq<Element>, Error>(e),
        },
{
    if witnesses.len() != words.len() {
        return Err(Error::DimensionMismatch);
    }
    let ghost ws = witness_views(witnesses@);
    let ghost vs = word_views(words@);
    match witness_to_prove {
        None => {
            if witnesses.len() == 0 {
                return Err(Error::DimensionMismatch);
            }
            let mut lambda_final: Vec<BlsElement> = Vec::new();
            let mut i: usize = 0;
            assert(ws.take(0) =~= Seq::empty());
            while i < witnesses.len()
                invariant
                    i <= witnesses.len(),
                    witnesses.len() == words.len(),
                    ws == witness_views(witnesses@),
                    vs == word_views(words@),
                    views(lambda_final@) == all_lambdas(ws.take(i as int), vs.take(i as int)),
                decreases witnesses.len() - i,
            {
                let lambda = lambda_for(&witnesses[i], &words[i]);
                let ghost before = views(lambda_final@);
                let mut j: usize = 0;
                while j < lambda.len()
                    invariant
                        j <= lambda.len(),
                        views(lambda_final@) == before + views(lambda@).take(j as int),
                    decreases lambda.len() - j,
                {
                    let ghost prev = views(lambda_final@);
                    lambda_final.push(lambda[j]);
                    proof {
                        assert(views(lambda_final@) =~= prev.push(lambda[j as int]@));
                        assert(views(lambda@).take(j + 1) =~= views(lambda@).take(j as int).push(
                            lambda[j as int]@,
                        ));
                        assert(views(lambda_final@) =~= before + views(lambda@).take(j + 1));
                    }
                    j += 1;
                }
                proof {
                    assert(views(lambda@).take(lambda.len() as int) =~= views(lambda@));
                    assert(ws.take(i + 1).drop_last() =~= ws.take(i as int));
                    assert(vs.take(i + 1).drop_last() =~= vs.take(i as int));
                    assert(ws.take(i + 1).last() == witness_view(witnesses[i as int]));
                    assert(vs.take(i + 1).last() == word_view(words[i as int]));
                }
                i += 1;
            }
            proof {
                assert(ws.take(witnesses.len() as int) =~= ws);
                assert(vs.take(witnesses.len() as int) =~= vs);
            }
            Ok(lambda_final)
        },
        Some(i) => {
            if i >= 2 {
                return Err(Error::Unsupported);
            }
            if i as usize >= witnesses.len() {
                return Err(Error::DimensionMismatch);
            }
            let lambda = lambda_for(&witnesses[i as usize], &words[i as usize]);
            let mut lambda_final: Vec<BlsElement> = Vec::new();
            if i == 0 {
                lambda_final.push(lambda[0]);
                lambda_final.push(lambda[1]);
                lambda_final.push(lambda[2]);
                lambda_final.push(BlsElement::Scalar(Fr::one().neg()));
                lambda_final.push(BlsElement::Scalar(Fr::zero()));
                lambda_final.push(BlsElement::G2Affine(G2Point::identity()));
                lambda_final.push(BlsElement::G1Affine(G1Point::identity()));
                lambda_final.push(BlsElement::Scalar(Fr::zero()));
                assert(views(lambda_final@) =~= first_chosen(lambda_of(ws[0], vs[0])));
            } else {
                lambda_final.push(BlsElement::Scalar(Fr::zero()));
                lambda_final.push(BlsElement::G2Affine(G2Point::identity()));
                lambda_final.push(BlsElement::G1Affine(G1Point::identity()));
                lambda_final.push(BlsElement::Scalar(Fr::zero()));
                lambda_final.push(lambda[0]);
                lambda_final.push(lambda[1]);
                lambda_final.push(lambda[2]);
                lambda_final.push(BlsElement::Scalar(Fr::one().neg()));
                assert(views(lambda_final@) =~= second_chosen(lambda_of(ws[1], vs[1])));
            }
            Ok(lambda_final)
        },
    }
}

/// The hash of some words by their witnesses, under a projected key.
///
/// The faults of [`gen_lambda`] first; then `DimensionMismatch` where the
/// projected key has not the length of the witness vector, and
/// `InvalidOperation` where their inner product is undefined or lies
/// outside the target group.
pub fn gen_prover_hash(
    hp: &Vec<BlsElement>,
    witnesses: &Vec<Witness>,
    words: &Vec<Word>,
    witness_to_prove: Option<u32>,
) -> (out: Result<GtElement, Error>)
    ensures
        match selected_lambda(witness_views(witnesses@), word_views(words@), witness_to_prove) {
            Err(e) => out == Err::<GtElement, Error>(e),
            Ok(lambda) => match out {
                Ok(t) => hash_value(views(hp@), lambda) == Some(t@),
                Err(Error::DimensionMismatch) => hp.len() == 0 || hp.len() != lambda.len(),
                Err(Error::InvalidOperation) => hp.len() != 0 && hp.len() == lambda.len()
                    && hash_value(views(hp@), lambda) is None,
                Err(Error::Unsupported) => false,
            },
        },
{
    let lambda_final = match gen_lambda(witnesses, words, witness_to_prove) {
        Ok(lambda) => lambda,
        Err(e) => {
            return Err(e);
        },
    };
    match mul_lambda(hp, &lambda_final) {
        Ok(res) => as_hash(res),
        Err(e) => Err(e),
    }
}

/// The neutral element of the kind of column `j` of a language.
fn padding_element(j: usize) -> (out: BlsElement)
    ensures
        out@ == padding(j as int),
{
    if j == 0 {
        BlsElement::Gt(GtElement::identity())
    } else if j == 1 {
        BlsElement::G1Affine(G1Point::identity())
    } else {
        BlsElement::G2Affine(G2Point::identity())
    }
}

/// The conjunction of two languages of four rows and three columns: a
/// language whose words are the pairs of their words.
///
/// `Unsupported` for any number of languages but two; `DimensionMismatch`
/// where one of them has another shape.
pub fn gen_gamma_conjunction(gammas: &Vec<Matrix>) -> (out: Result<Matrix, Error>)
    ensures
        match out {
            Ok(gamma) => {
                &&& gammas.len() == 2
                &&& gammas[0]@.rows == 4 && gammas[0]@.cols == 3
                &&& gammas[1]@.rows == 4 && gammas[1]@.cols == 3
                &&& gamma@ == conjunction(gammas[0]@, gammas[1]@)
            },
            Err(Error::Unsupported) => gammas.len() != 2,
            Err(Error::DimensionMismatch) => gammas.len() == 2 && !(gammas[0]@.rows == 4
                && gammas[0]@.cols == 3 && gammas[1]@.rows == 4 && gammas[1]@.cols == 3),
            Err(Error::InvalidOperation) => false,
        },
{
    if gammas.len() != 2 {
        return Err(Error::Unsupported);
    }
    let a = &gammas[0];
    let b = &gammas[1];
    if a.nrows() != 4 || a.ncols() != 3 || b.nrows() != 4 || b.ncols() != 3 {
        return Err(Error::DimensionMismatch);
    }
    let mut data: Vec<BlsElement> = Vec::new();
    let mut k: usize = 0;
    while k < 48
        invariant
            k <= 48,
            a@.rows == 4 && a@.cols == 3,
            b@.rows == 4 && b@.cols == 3,
            data.len() == k,
            forall|p: int|
                0 <= p < k ==> (#[trigger] data[p])@ == conjunction_entry(a@, b@, p / 6, p % 6),
        decreases 48 - k,
    {
        let i = k / 6;
        let j = k % 6;
        let e = if i < 4 {
            if j < 3 {
                a.get(i, j)
            } else {
                padding_element(j - 3)
            }
        } else {
            if j < 3 {
                padding_element(j)
            } else {
                b.get(i - 4, j - 3)
            }
        };
        data.push(e);
        k += 1;
    }
    assert(views(data@) =~= conjunction(a@, b@).entries);
    match Matrix::from_row_slice(8, 6, data) {
        Ok(gamma) => Ok(gamma),
        Err(_) => vstd::pervasive::unreached(),
    }
}

/// The disjunction of two languages of four rows and three columns, with
/// one word of each built in: a language in which the fixed word of
/// [`gen_theta_disjunction`] lies whenever one of the two words lies in its
/// own.
///
/// `Unsupported` for any number of languages but two; `DimensionMismatch`
/// where there are not two words, or a language or a word has another
/// shape.
pub fn gen_gamma_disjunction(gammas: &Vec<Matrix>, thetas: &Vec<Vec<BlsElement>>) -> (out: Result<
    Matrix,
    Error,
>)
    ensures
        match out {
            Ok(gamma) => {
                &&& disjunction_fits(gammas, thetas)
                &&& gamma@ == disjunction(
                    gammas[0]@,
                    gammas[1]@,
                    views(thetas[0]@),
                    views(thetas[1]@),
                )
            },
            Err(Error::Unsupported) => gammas.len() != 2,
            Err(Error::DimensionMismatch) => gammas.len() == 2 && !disjunction_fits(gammas, thetas),
            Err(Error::InvalidOperation) => false,
        },
{
    if gammas.len() != 2 {
        return Err(Error::Unsupported);
    }
    if thetas.len() != 2 {
        return Err(Error::DimensionMismatch);
    }
    let a = &gammas[0];
    let b = &gammas[1];
    let theta_a = &thetas[0];
    let theta_b = &thetas[1];
    if a.nrows() != 4 || a.ncols() != 3 || b.nrows() != 4 || b.ncols() != 3 || theta_a.len() != 4
        || theta_b.len() != 4 {
        return Err(Error::DimensionMismatch);
    }
    let gt0 = BlsElement::Gt(GtElement::identity());
    let mut data: Vec<BlsElement> = Vec::new();
    let mut k: usize = 0;
    while k < 72
        invariant
            k <= 72,
            a@.rows == 4 && a@.cols == 3,
            b@.rows == 4 && b@.cols == 3,
            theta_a.len() == 4,
            theta_b.len() == 4,
            gt0@ == gt_of(0),
            data.len() == k,
            forall|p: int|
                0 <= p < k ==> (#[trigger] data[p])@ == disjunction_entry(
                    a@,
                    b@,
                    views(theta_a@),
                    views(theta_b@),
                    p / 8,
                    p % 8,
                ),
        decreases 72 - k,
    {
        let i = k / 8;
        let j = k % 8;
        let e = if j < 3 {
            if 1 <= i && i <= 4 {
                a.get(i - 1, j)
            } else {
                padding_element(j)
            }
        } else if j == 3 {
            if 1 <= i && i <= 4 {
                theta_a[i - 1]
            } else {
                gt0
            }
        } else if j < 7 {
            if 5 <= i {
                b.get(i - 5, j - 4)
            } else {
                padding_element(j - 4)
            }
        } else {
            if 5 <= i {
                theta_b[i - 5]
            } else {
                gt0
            }
        };
        data.push(e);
        k += 1;
    }
    assert(views(data@) =~= disjunction(
        a@,
        b@,
        views(theta_a@),
        views(theta_b@),
    ).entries);
    match Matrix::from_row_slice(9, 8, data) {
        Ok(gamma) => Ok(gamma),
        Err(_) => vstd::pervasive::unreached(),
    }
}

/// Two languages and two words of the shape that a disjunction takes.
pub open spec fn disjunction_fits(gammas: &Vec<Matrix>, thetas: &Vec<Vec<BlsElement>>) -> bool {
    &&& gammas.len() == 2
    &&& thetas.len() == 2
    &&& gammas[0]@.rows == 4 && gammas[0]@.cols == 3
    &&& gammas[1]@.rows == 4 && gammas[1]@.cols == 3
    &&& thetas[0].len() == 4
    &&& thetas[1].len() == 4
}

/// The inner sum of two vectors of length three, written out.
proof fn lemma_dot_three(a: Seq<Element>, b: Seq<Element>)
    requires
        a.len() == 3,
    ensures
        dot(a, b) == a[0].value * b[0].value + a[1].value * b[1].value + a[2].value * b[2].value,
{
    reveal_with_fuel(sum_to, 4);
}

/// The inner sum of two vectors of length six, written out.
proof fn lemma_dot_six(a: Seq<Element>, b: Seq<Element>)
    requires
        a.len() == 6,
    ensures
        dot(a, b) == a[0].value * b[0].value + a[1].value * b[1].value + a[2].value * b[2].value
            + a[3].value * b[3].value + a[4].value * b[4].value + a[5].value * b[5].value,
{
    reveal_with_fuel(sum_to, 7);
}

/// The inner sum of two vectors of length eight, written out.
proof fn lemma_dot_eight(a: Seq<Element>, b: Seq<Element>)
    requires
        a.len() == 8,
    ensures
        dot(a, b) == a[0].value * b[0].value + a[1].value * b[1].value + a[2].value * b[2].value
            + a[3].value * b[3].value + a[4].value * b[4].value + a[5].value * b[5].value
            + a[6].value * b[6].value + a[7].value * b[7].value,
{
    reveal_with_fuel(sum_to, 9);
}

/// A product with a factor zero.
proof fn lemma_zero_product(x: int, y: int)
    requires
        x == 0 || y == 0,
    ensures
        x * y == 0,
{
    assert(x * y == 0) by (nonlinear_arith)
        requires
            x == 0 || y == 0,
    ;
}

/// A residue stands for the integer it was taken of.
proof fn lemma_residue(x: int)
    ensures
        congruent(reduce(x), x),
{
    lemma_reduce_arith(x, 0);
}

proof fn lemma_congruent_neg(a: int, b: int)
    requires
        congruent(a, b),
    ensures
        congruent(-a, -b),
{
    lemma_reduce_arith(a, 0);
    lemma_reduce_arith(b, 0);
}

/// The exponents of a word, before any reduction.
spec fn word_sums(base: (int, int, int, int), msg1: int, msg2: int, r1: int, r2: int) -> (
    int,
    int,
    int,
    int,
) {
    (base.0 * r1, base.2 * r1 + msg1, base.1 * r2, base.3 * r2 + msg2)
}

proof fn lemma_word_sums(base: (int, int, int, int), msg1: int, msg2: int, r1: int, r2: int)
    ensures
        congruent(word_of(base, msg1, msg2, r1, r2).0, word_sums(base, msg1, msg2, r1, r2).0),
        congruent(word_of(base, msg1, msg2, r1, r2).1, word_sums(base, msg1, msg2, r1, r2).1),
        congruent(word_of(base, msg1, msg2, r1, r2).2, word_sums(base, msg1, msg2, r1, r2).2),
        congruent(word_of(base, msg1, msg2, r1, r2).3, word_sums(base, msg1, msg2, r1, r2).3),
{
    lemma_residue(base.0 * r1);
    lemma_residue(base.1 * r2);
    lemma_reduce_arith(base.2 * r1, msg1);
    lemma_reduce_arith(base.3 * r2, msg2);
    lemma_residue(field_mul(base.2, r1) + msg1);
    lemma_residue(field_mul(base.3, r2) + msg2);
}

/// A word that was built for its messages is in the language of its base,
/// and what its witness yields is a witness vector for it.
pub proof fn lemma_word_in_language(
    base: (int, int, int, int),
    msg1: int,
    msg2: int,
    r1: int,
    r2: int,
)
    ensures
        in_language(
            language(base),
            theta_of(word_of(base, msg1, msg2, r1, r2), msg1, msg2),
            lambda_of((r1, r2, msg1, msg2), word_of(base, msg1, msg2, r1, r2)),
        ),
{
    let gamma = language(base);
    let word = word_of(base, msg1, msg2, r1, r2);
    let sums = word_sums(base, msg1, msg2, r1, r2);
    let theta = theta_of(word, msg1, msg2);
    let lambda = lambda_of((r1, r2, msg1, msg2), word);
    let (g1, g2, h1, h2) = base;
    lemma_word_sums(base, msg1, msg2, r1, r2);
    // The witness vector, before any reduction.
    let l0 = -(r1 * r2);
    let l1 = r1 * sums.3;
    let l2 = r2 * sums.1;
    assert(congruent(lambda[0].value, l0)) by {
        lemma_residue(-r1);
        lemma_congruent_mul(field_neg(r1), -r1, r2, r2);
        lemma_residue(field_neg(r1) * r2);
        assert((-r1) * r2 == -(r1 * r2)) by (nonlinear_arith);
    }
    assert(congruent(lambda[1].value, l1)) by {
        lemma_congruent_mul(r1, r1, word.3, sums.3);
        lemma_residue(r1 * word.3);
    }
    assert(congruent(lambda[2].value, l2)) by {
        lemma_congruent_mul(r2, r2, word.1, sums.1);
        lemma_residue(r2 * word.1);
    }
    assert forall|i: int| 0 <= i < 4 implies congruent(
        theta[i].value,
        dot(#[trigger] gamma.row(i), lambda),
    ) by {
        let row = gamma.row(i);
        lemma_dot_three(row, lambda);
        assert(row[0] == gamma.entries[i * 3 + 0]);
        assert(row[1] == gamma.entries[i * 3 + 1]);
        assert(row[2] == gamma.entries[i * 3 + 2]);
        lemma_zero_product(0, lambda[0].value);
        lemma_zero_product(0, lambda[1].value);
        lemma_zero_product(0, lambda[2].value);
        if i == 0 {
            assert(row[0].value == field_mul(g1, g2) && row[1].value == 0 && row[2].value == 0);
            lemma_residue(g1 * g2);
            lemma_congruent_mul(row[0].value, g1 * g2, lambda[0].value, l0);
            assert(congruent(dot(row, lambda), (g1 * g2) * l0));
            lemma_residue(-word.0);
            lemma_congruent_neg(word.0, sums.0);
            lemma_congruent_mul(field_neg(word.0), -sums.0, word.2, sums.2);
            lemma_residue(field_neg(word.0) * word.2);
            assert(theta[0].value == field_mul(field_neg(word.0), word.2));
            assert(congruent(theta[0].value, (-sums.0) * sums.2));
            assert((-(g1 * r1)) * (g2 * r2) == (g1 * g2) * (-(r1 * r2))) by (nonlinear_arith);
        } else if i == 1 {
            assert(row[0].value == 0 && row[1].value == g1 && row[2].value == 0);
            lemma_congruent_mul(g1, g1, lambda[1].value, l1);
            assert(congruent(dot(row, lambda), g1 * l1));
            lemma_congruent_mul(word.0, sums.0, word.3, sums.3);
            lemma_residue(word.0 * word.3);
            assert(theta[1].value == field_mul(word.0, word.3));
            assert(congruent(theta[1].value, sums.0 * sums.3));
            assert((g1 * r1) * sums.3 == g1 * (r1 * sums.3)) by (nonlinear_arith);
        } else if i == 2 {
            assert(row[0].value == 0 && row[1].value == 0 && row[2].value == g2);
            lemma_congruent_mul(g2, g2, lambda[2].value, l2);
            assert(congruent(dot(row, lambda), g2 * l2));
            lemma_congruent_mul(word.1, sums.1, word.2, sums.2);
            lemma_residue(word.1 * word.2);
            assert(theta[2].value == field_mul(word.1, word.2));
            assert(congruent(theta[2].value, sums.1 * sums.2));
            assert(sums.1 * (g2 * r2) == g2 * (r2 * sums.1)) by (nonlinear_arith);
        } else {
            assert(row[0].value == field_mul(h1, h2) && row[1].value == h1 && row[2].value == h2);
            lemma_residue(h1 * h2);
            lemma_congruent_mul(row[0].value, h1 * h2, lambda[0].value, l0);
            lemma_congruent_mul(h1, h1, lambda[1].value, l1);
            lemma_congruent_mul(h2, h2, lambda[2].value, l2);
            lemma_congruent_add(
                row[0].value * lambda[0].value,
                (h1 * h2) * l0,
                row[1].value * lambda[1].value,
                h1 * l1,
            );
            lemma_congruent_add(
                row[0].value * lambda[0].value + row[1].value * lambda[1].value,
                (h1 * h2) * l0 + h1 * l1,
                row[2].value * lambda[2].value,
                h2 * l2,
            );
            assert(congruent(dot(row, lambda), (h1 * h2) * l0 + h1 * l1 + h2 * l2));
            lemma_congruent_mul(word.1, sums.1, word.3, sums.3);
            lemma_reduce_arith(word.1 * word.3, msg1 * msg2);
            lemma_reduce_arith(sums.1 * sums.3, msg1 * msg2);
            lemma_residue(word.1 * word.3 - msg1 * msg2);
            assert(theta[3].value == field_sub(field_mul(word.1, word.3), field_mul(msg1, msg2)));
            assert(congruent(theta[3].value, sums.1 * sums.3 - msg1 * msg2));
            let a = h1 * r1;
            let b = h2 * r2;
            assert((a + msg1) * (b + msg2) - msg1 * msg2 == a * b + a * msg2 + msg1 * b)
                by (nonlinear_arith);
            assert((h1 * h2) * (-(r1 * r2)) == -(a * b)) by (nonlinear_arith)
                requires
                    a == h1 * r1,
                    b == h2 * r2,
            ;
            assert(h1 * (r1 * (b + msg2)) == a * b + a * msg2) by (nonlinear_arith)
                requires
                    a == h1 * r1,
            ;
            assert(h2 * (r2 * (a + msg1)) == a * b + msg1 * b) by (nonlinear_arith)
                requires
                    b == h2 * r2,
            ;
        }
    }
}

/// The pair of a word of each of two languages is a word of their
/// conjunction, and the pair of their witness vectors is a witness vector
/// for it.
pub proof fn lemma_conjunction_in_language(
    a: MatrixView,
    b: MatrixView,
    theta_a: Seq<Element>,
    theta_b: Seq<Element>,
    lambda_a: Seq<Element>,
    lambda_b: Seq<Element>,
)
    requires
        a.rows == 4 && a.cols == 3,
        b.rows == 4 && b.cols == 3,
        in_language(a, theta_a, lambda_a),
        in_language(b, theta_b, lambda_b),
    ensures
        in_language(conjunction(a, b), theta_a + theta_b, lambda_a + lambda_b),
{
    let gamma = conjunction(a, b);
    let theta = theta_a + theta_b;
    let lambda = lambda_a + lambda_b;
    assert forall|i: int| 0 <= i < 8 implies congruent(
        theta[i].value,
        dot(#[trigger] gamma.row(i), lambda),
    ) by {
        let row = gamma.row(i);
        lemma_dot_six(row, lambda);
        assert forall|j: int| 0 <= j < 6 implies #[trigger] row[j] == conjunction_entry(
            a,
            b,
            i,
            j,
        ) by {
            assert(row[j] == gamma.entries[i * 6 + j]);
            assert((i * 6 + j) / 6 == i && (i * 6 + j) % 6 == j);
        }
        assert(row[0] == conjunction_entry(a, b, i, 0));
        assert(row[1] == conjunction_entry(a, b, i, 1));
        assert(row[2] == conjunction_entry(a, b, i, 2));
        assert(row[3] == conjunction_entry(a, b, i, 3));
        assert(row[4] == conjunction_entry(a, b, i, 4));
        assert(row[5] == conjunction_entry(a, b, i, 5));
        if i < 4 {
            let part = a.row(i);
            assert(part[0] == a.at(i, 0) && part[1] == a.at(i, 1) && part[2] == a.at(i, 2));
            lemma_dot_three(part, lambda_a);
            lemma_zero_product(row[3].value, lambda[3].value);
            lemma_zero_product(row[4].value, lambda[4].value);
            lemma_zero_product(row[5].value, lambda[5].value);
            assert(dot(row, lambda) == dot(part, lambda_a));
            assert(theta[i] == theta_a[i]);
        } else {
            let part = b.row(i - 4);
            assert(part[0] == b.at(i - 4, 0) && part[1] == b.at(i - 4, 1) && part[2] == b.at(
                i - 4,
                2,
            ));
            lemma_dot_three(part, lambda_b);
            lemma_zero_product(row[0].value, lambda[0].value);
            lemma_zero_product(row[1].value, lambda[1].value);
            lemma_zero_product(row[2].value, lambda[2].value);
            assert(lambda[3] == lambda_b[0] && lambda[4] == lambda_b[1] && lambda[5]
                == lambda_b[2]);
            assert(dot(row, lambda) == dot(part, lambda_b));
            assert(theta[i] == theta_b[i - 4]);
        }
    }
}

/// The language of commitments, and what a witness in it is: the claimed
/// value's word is in the language of [`gen_gamma_linear_fc`] when the
/// witness holds the combination of the key and a point `l` which the
/// key's first point of the second group pairs to the inverse of an
/// accepted opening. In the exponent `l` is the opening divided by the
/// secret of the key, negated.
pub proof fn lemma_commitment_in_language(
    key: KeyView,
    cm: int,
    op: int,
    beta: Seq<int>,
    y: int,
    b: int,
    l: int,
)
    requires
        accepts(key, cm, op, beta, y),
        congruent(b, combination(key, beta)),
        congruent(key.u2[0] * l, -op),
    ensures
        in_language(
            MatrixView { rows: 1, cols: 2, entries: seq![g1_of(cm), g2_of(key.u2[0])] },
            seq![gt_of(righthandside_value(key, y))],
            seq![g2_of(b), g1_of(l)],
        ),
{
    let gamma = MatrixView { rows: 1, cols: 2, entries: seq![g1_of(cm), g2_of(key.u2[0])] };
    let theta = seq![gt_of(righthandside_value(key, y))];
    let lambda = seq![g2_of(b), g1_of(l)];
    let right = righthandside_value(key, y);
    let comb = combination(key, beta);
    assert forall|i: int| 0 <= i < 1 implies congruent(
        theta[i].value,
        dot(#[trigger] gamma.row(i), lambda),
    ) by {
        let row = gamma.row(i);
        reveal_with_fuel(sum_to, 3);
        assert(row[0] == gamma.entries[0]);
        assert(row[1] == gamma.entries[1]);
        assert(dot(row, lambda) == cm * b + key.u2[0] * l);
        lemma_congruent_mul(cm, cm, b, comb);
        lemma_congruent_add(cm * b, cm * comb, key.u2[0] * l, -op);
        // The equation that was accepted, with the value term on its own.
        lemma_reduce_arith(cm * comb, 0);
        lemma_reduce_arith(op + right, op);
        lemma_reduce_arith(cm * comb, op);
        assert(op + right - op == right);
        lemma_residue(right);
    }
}

/// The witness vector of a disjunction with one clause chosen.
pub open spec fn chosen(selector: int, lambda: Seq<Element>) -> Seq<Element> {
    if selector == 0 {
        first_chosen(lambda)
    } else {
        second_chosen(lambda)
    }
}

/// The fixed word of a disjunction is in it as soon as the word of the
/// chosen clause is in that clause's language, whatever the other word is;
/// and the witness vector is made of the chosen clause's witness alone.
pub proof fn lemma_disjunction_in_language(
    a: MatrixView,
    b: MatrixView,
    theta_a: Seq<Element>,
    theta_b: Seq<Element>,
    selector: int,
    lambda: Seq<Element>,
)
    requires
        a.rows == 4 && a.cols == 3,
        b.rows == 4 && b.cols == 3,
        theta_a.len() == 4,
        theta_b.len() == 4,
        selector == 0 || selector == 1,
        selector == 0 ==> in_language(a, theta_a, lambda),
        selector == 1 ==> in_language(b, theta_b, lambda),
    ensures
        in_language(
            disjunction(a, b, theta_a, theta_b),
            disjunction_word(9),
            chosen(selector, lambda),
        ),
{
    let gamma = disjunction(a, b, theta_a, theta_b);
    let theta = disjunction_word(9);
    let full = chosen(selector, lambda);
    lemma_modulus_large();
    lemma_reduce_small(0);
    assert forall|i: int| 0 <= i < 9 implies congruent(
        theta[i].value,
        dot(#[trigger] gamma.row(i), full),
    ) by {
        let row = gamma.row(i);
        lemma_dot_eight(row, full);
        assert forall|j: int| 0 <= j < 8 implies #[trigger] row[j] == disjunction_entry(
            a,
            b,
            theta_a,
            theta_b,
            i,
            j,
        ) by {
            assert(row[j] == gamma.entries[i * 8 + j]);
            assert((i * 8 + j) / 8 == i && (i * 8 + j) % 8 == j);
        }
        assert(row[0] == disjunction_entry(a, b, theta_a, theta_b, i, 0));
        assert(row[1] == disjunction_entry(a, b, theta_a, theta_b, i, 1));
        assert(row[2] == disjunction_entry(a, b, theta_a, theta_b, i, 2));
        assert(row[3] == disjunction_entry(a, b, theta_a, theta_b, i, 3));
        assert(row[4] == disjunction_entry(a, b, theta_a, theta_b, i, 4));
        assert(row[5] == disjunction_entry(a, b, theta_a, theta_b, i, 5));
        assert(row[6] == disjunction_entry(a, b, theta_a, theta_b, i, 6));
        assert(row[7] == disjunction_entry(a, b, theta_a, theta_b, i, 7));
        assert(congruent(theta[i].value, 0));
        if selector == 0 && 1 <= i <= 4 {
            let part = a.row(i - 1);
            assert(part[0] == a.at(i - 1, 0) && part[1] == a.at(i - 1, 1) && part[2] == a.at(
                i - 1,
                2,
            ));
            let d = dot(part, lambda);
            let t = theta_a[i - 1].value;
            lemma_dot_three(part, lambda);
            assert(full[0] == lambda[0] && full[1] == lambda[1] && full[2] == lambda[2]);
            assert(full[3].value == field_neg(1));
            lemma_zero_product(row[4].value, full[4].value);
            lemma_zero_product(row[5].value, full[5].value);
            lemma_zero_product(row[6].value, full[6].value);
            lemma_zero_product(row[7].value, full[7].value);
            assert(dot(row, full) == d + t * field_neg(1));
            lemma_residue(-1);
            lemma_congruent_mul(t, d, field_neg(1), -1);
            lemma_congruent_add(d, d, t * field_neg(1), d * (-1));
            assert(d + d * (-1) == 0) by (nonlinear_arith);
        } else if selector == 1 && 5 <= i {
            let part = b.row(i - 5);
            assert(part[0] == b.at(i - 5, 0) && part[1] == b.at(i - 5, 1) && part[2] == b.at(
                i - 5,
                2,
            ));
            let d = dot(part, lambda);
            let t = theta_b[i - 5].value;
            lemma_dot_three(part, lambda);
            assert(full[4] == lambda[0] && full[5] == lambda[1] && full[6] == lambda[2]);
            assert(full[7].value == field_neg(1));
            lemma_zero_product(row[0].value, full[0].value);
            lemma_zero_product(row[1].value, full[1].value);
            lemma_zero_product(row[2].value, full[2].value);
            lemma_zero_product(row[3].value, full[3].value);
            assert(dot(row, full) == d + t * field_neg(1));
            lemma_residue(-1);
            lemma_congruent_mul(t, d, field_neg(1), -1);
            lemma_congruent_add(d, d, t * field_neg(1), d * (-1));
            assert(d + d * (-1) == 0) by (nonlinear_arith);
        } else {
            lemma_zero_product(row[0].value, full[0].value);
            lemma_zero_product(row[1].value, full[1].value);
            lemma_zero_product(row[2].value, full[2].value);
            lemma_zero_product(row[3].value, full[3].value);
            lemma_zero_product(row[4].value, full[4].value);
            lemma_zero_product(row[5].value, full[5].value);
            lemma_zero_product(row[6].value, full[6].value);
            lemma_zero_product(row[7].value, full[7].value);
            assert(dot(row, full) == 0);
        }
    }
}

/// The witness vector for one word, asked for whole, is that word's.
proof fn lemma_all_lambdas_one(witness: (int, int, int, int), word: (int, int, int, int))
    ensures
        all_lambdas(seq![witness], seq![word]) == lambda_of(witness, word),
{
    let ws = seq![witness];
    let vs = seq![word];
    assert(ws.drop_last() =~= Seq::empty());
    assert(all_lambdas(ws.drop_last(), vs.drop_last()) =~= Seq::empty());
    assert(all_lambdas(ws, vs) =~= lambda_of(witness, word));
}

/// The witness vector for two words, asked for whole, is the first word's
/// followed by the second's.
proof fn lemma_all_lambdas_two(
    w1: (int, int, int, int),
    w2: (int, int, int, int),
    v1: (int, int, int, int),
    v2: (int, int, int, int),
)
    ensures
        all_lambdas(seq![w1, w2], seq![v1, v2]) == lambda_of(w1, v1) + lambda_of(w2, v2),
{
    let ws = seq![w1, w2];
    let vs = seq![v1, v2];
    assert(ws.drop_last() =~= seq![w1]);
    assert(vs.drop_last() =~= seq![v1]);
    lemma_all_lambdas_one(w1, v1);
}

/// A hashing key for a language: one scalar for each row.
pub open spec fn is_hash_key(hk: Seq<Element>, gamma: MatrixView) -> bool {
    hk.len() == gamma.rows && all_scalars(hk)
}

/// The word that a witness `(r1, r2, msg1, msg2)` belongs to, over a base.
pub open spec fn honest_word(base: (int, int, int, int), witness: (int, int, int, int)) -> (
    int,
    int,
    int,
    int,
) {
    word_of(base, witness.2, witness.3, witness.0, witness.1)
}

/// What the holder of the hashing key derives from that word.
pub open spec fn honest_theta(base: (int, int, int, int), witness: (int, int, int, int)) -> Seq<
    Element,
> {
    theta_of(honest_word(base, witness), witness.2, witness.3)
}

/// What the holder of the witness derives from it and from that word.
pub open spec fn honest_lambda(base: (int, int, int, int), witness: (int, int, int, int)) -> Seq<
    Element,
> {
    lambda_of(witness, honest_word(base, witness))
}

/// Every column of `gamma` lies in one set, column `j` in the set
/// `kinds(j)`.
spec fn kinds_by_column(gamma: MatrixView, kinds: spec_fn(int) -> Kind) -> bool {
    forall|i: int, j: int|
        0 <= i < gamma.rows && 0 <= j < gamma.cols ==> (#[trigger] gamma.at(i, j)).kind == kinds(j)
}

spec fn language_kinds() -> spec_fn(int) -> Kind {
    |j: int| padding(j).kind
}

spec fn conjunction_kinds() -> spec_fn(int) -> Kind {
    |j: int| padding(j % 3).kind
}

spec fn disjunction_kinds() -> spec_fn(int) -> Kind {
    |j: int|
        if j == 3 || j == 7 {
            Kind::Gt
        } else if j < 3 {
            padding(j).kind
        } else {
            padding(j - 4).kind
        }
}

/// A vector of scalars has a projection in every language whose columns
/// each lie in one set, and the projection lies in the same sets.
proof fn lemma_projection_kinds(hk: Seq<Element>, gamma: MatrixView, kinds: spec_fn(int) -> Kind)
    requires
        is_hash_key(hk, gamma),
        gamma.rows >= 1,
        kinds_by_column(gamma, kinds),
    ensures
        has_projection(hk, gamma),
        forall|j: int|
            0 <= j < gamma.cols ==> inner_product(hk, #[trigger] gamma.column(j)).unwrap().kind
                == kinds(j),
{
    assert forall|j: int| 0 <= j < gamma.cols implies inner_product(
        hk,
        #[trigger] gamma.column(j),
    ) is Some && inner_product(hk, gamma.column(j)).unwrap().kind == kinds(j) by {
        let column = gamma.column(j);
        assert forall|i: int| 0 <= i < hk.len() implies product_kind(
            (#[trigger] hk[i]).kind,
            column[i].kind,
        ) == Some(kinds(j)) by {
            assert(column[i] == gamma.at(i, j));
        }
        lemma_inner_product_kind(hk, column, kinds(j));
    }
}

/// An inner product whose products all lie in the target group is a hash.
proof fn lemma_hash_defined(a: Seq<Element>, b: Seq<Element>)
    requires
        a.len() == b.len(),
        a.len() >= 1,
        forall|i: int|
            0 <= i < a.len() ==> product_kind((#[trigger] a[i]).kind, b[i].kind) == Some(Kind::Gt),
    ensures
        hash_value(a, b) is Some,
{
    lemma_inner_product_kind(a, b, Kind::Gt);
}

proof fn lemma_language_kinds(base: (int, int, int, int))
    ensures
        kinds_by_column(language(base), language_kinds()),
{
    let gamma = language(base);
    assert forall|i: int, j: int| 0 <= i < 4 && 0 <= j < 3 implies (#[trigger] gamma.at(
        i,
        j,
    )).kind == language_kinds()(j) by {
        assert(gamma.at(i, j) == gamma.entries[i * 3 + j]);
    }
}

proof fn lemma_conjunction_kinds(a: MatrixView, b: MatrixView)
    requires
        a.rows == 4 && a.cols == 3,
        b.rows == 4 && b.cols == 3,
        kinds_by_column(a, language_kinds()),
        kinds_by_column(b, language_kinds()),
    ensures
        kinds_by_column(conjunction(a, b), conjunction_kinds()),
{
    let gamma = conjunction(a, b);
    assert forall|i: int, j: int| 0 <= i < 8 && 0 <= j < 6 implies (#[trigger] gamma.at(
        i,
        j,
    )).kind == conjunction_kinds()(j) by {
        assert(gamma.at(i, j) == gamma.entries[i * 6 + j]);
        assert((i * 6 + j) / 6 == i && (i * 6 + j) % 6 == j);
        if i < 4 && j < 3 {
            assert(a.at(i, j).kind == language_kinds()(j));
        }
        if i >= 4 && j >= 3 {
            assert(b.at(i - 4, j - 3).kind == language_kinds()(j - 3));
        }
    }
}

proof fn lemma_disjunction_kinds(
    a: MatrixView,
    b: MatrixView,
    theta_a: Seq<Element>,
    theta_b: Seq<Element>,
)
    requires
        a.rows == 4 && a.cols == 3,
        b.rows == 4 && b.cols == 3,
        kinds_by_column(a, language_kinds()),
        kinds_by_column(b, language_kinds()),
        theta_a.len() == 4,
        theta_b.len() == 4,
        forall|i: int| 0 <= i < 4 ==> (#[trigger] theta_a[i]).kind is Gt,
        forall|i: int| 0 <= i < 4 ==> (#[trigger] theta_b[i]).kind is Gt,
    ensures
        kinds_by_column(disjunction(a, b, theta_a, theta_b), disjunction_kinds()),
{
    let gamma = disjunction(a, b, theta_a, theta_b);
    assert forall|i: int, j: int| 0 <= i < 9 && 0 <= j < 8 implies (#[trigger] gamma.at(
        i,
        j,
    )).kind == disjunction_kinds()(j) by {
        assert(gamma.at(i, j) == gamma.entries[i * 8 + j]);
        assert((i * 8 + j) / 8 == i && (i * 8 + j) % 8 == j);
        if 1 <= i <= 4 && j < 3 {
            assert(a.at(i - 1, j).kind == language_kinds()(j));
        }
        if 5 <= i && 4 <= j < 7 {
            assert(b.at(i - 5, j - 4).kind == language_kinds()(j - 4));
        }
        if 1 <= i <= 4 && j == 3 {
            assert(theta_a[i - 1].kind is Gt);
        }
        if 5 <= i && j == 7 {
            assert(theta_b[i - 5].kind is Gt);
        }
    }
}

/// The hash of a word's holder and the hash of a witness's holder are the
/// same element of the target group: for every base, messages and
/// blindings, and every hashing key with its projection. A projection
/// exists for every hashing key.
pub proof fn lemma_word_hashes_agree(
    base: (int, int, int, int),
    witness: (int, int, int, int),
    hk: Seq<Element>,
    hp: Seq<Element>,
)
    requires
        is_hash_key(hk, language(base)),
        projects(hk, language(base), hp),
    ensures
        has_projection(hk, language(base)),
        selected_lambda(seq![witness], seq![honest_word(base, witness)], None) == Ok::<
            Seq<Element>,
            Error,
        >(honest_lambda(base, witness)),
        hash_value(hk, honest_theta(base, witness)) is Some,
        hash_value(hk, honest_theta(base, witness)) == hash_value(
            hp,
            honest_lambda(base, witness),
        ),
{
    let gamma = language(base);
    let theta = honest_theta(base, witness);
    let lambda = honest_lambda(base, witness);
    lemma_all_lambdas_one(witness, honest_word(base, witness));
    lemma_language_kinds(base);
    lemma_projection_kinds(hk, gamma, language_kinds());
    lemma_hash_defined(hk, theta);
    assert forall|j: int| 0 <= j < 3 implies product_kind((#[trigger] hp[j]).kind, lambda[j].kind)
        == Some(Kind::Gt) by {
        assert(inner_product(hk, gamma.column(j)) == Some(hp[j]));
    }
    lemma_hash_defined(hp, lambda);
    lemma_word_in_language(base, witness.2, witness.3, witness.0, witness.1);
    lemma_hashes_agree(gamma, hk, hp, theta, lambda);
}

/// In the conjunction of two languages the two hashes are the same element
/// of the target group on the pair of two words that were each built for
/// their messages. A projection exists for every hashing key.
pub proof fn lemma_conjunction_hashes_agree(
    base_a: (int, int, int, int),
    base_b: (int, int, int, int),
    witness_a: (int, int, int, int),
    witness_b: (int, int, int, int),
    hk: Seq<Element>,
    hp: Seq<Element>,
)
    requires
        is_hash_key(hk, conjunction(language(base_a), language(base_b))),
        projects(hk, conjunction(language(base_a), language(base_b)), hp),
    ensures
        has_projection(hk, conjunction(language(base_a), language(base_b))),
        selected_lambda(
            seq![witness_a, witness_b],
            seq![honest_word(base_a, witness_a), honest_word(base_b, witness_b)],
            None,
        ) == Ok::<Seq<Element>, Error>(
            honest_lambda(base_a, witness_a) + honest_lambda(base_b, witness_b),
        ),
        hash_value(hk, honest_theta(base_a, witness_a) + honest_theta(base_b, witness_b)) is Some,
        hash_value(hk, honest_theta(base_a, witness_a) + honest_theta(base_b, witness_b))
            == hash_value(hp, honest_lambda(base_a, witness_a) + honest_lambda(base_b, witness_b)),
{
    let gamma = conjunction(language(base_a), language(base_b));
    let theta = honest_theta(base_a, witness_a) + honest_theta(base_b, witness_b);
    let lambda = honest_lambda(base_a, witness_a) + honest_lambda(base_b, witness_b);
    lemma_all_lambdas_two(
        witness_a,
        witness_b,
        honest_word(base_a, witness_a),
        honest_word(base_b, witness_b),
    );
    lemma_language_kinds(base_a);
    lemma_language_kinds(base_b);
    lemma_conjunction_kinds(language(base_a), language(base_b));
    lemma_projection_kinds(hk, gamma, conjunction_kinds());
    lemma_hash_defined(hk, theta);
    assert forall|j: int| 0 <= j < 6 implies product_kind((#[trigger] hp[j]).kind, lambda[j].kind)
        == Some(Kind::Gt) by {
        assert(inner_product(hk, gamma.column(j)) == Some(hp[j]));
    }
    lemma_hash_defined(hp, lambda);
    lemma_word_in_language(base_a, witness_a.2, witness_a.3, witness_a.0, witness_a.1);
    lemma_word_in_language(base_b, witness_b.2, witness_b.3, witness_b.0, witness_b.1);
    lemma_conjunction_in_language(
        language(base_a),
        language(base_b),
        honest_theta(base_a, witness_a),
        honest_theta(base_b, witness_b),
        honest_lambda(base_a, witness_a),
        honest_lambda(base_b, witness_b),
    );
    lemma_hashes_agree(gamma, hk, hp, theta, lambda);
}

/// The base of the chosen clause.
pub open spec fn chosen_base(
    selector: int,
    base_a: (int, int, int, int),
    base_b: (int, int, int, int),
) -> (int, int, int, int) {
    if selector == 0 {
        base_a
    } else {
        base_b
    }
}

/// In the disjunction of two languages the two hashes are the same element
/// of the target group as soon as the word of the chosen clause was built
/// for its messages: whatever the word of the other clause is, and without
/// a witness for it. A projection exists for every hashing key.
pub proof fn lemma_disjunction_hashes_agree(
    base_a: (int, int, int, int),
    base_b: (int, int, int, int),
    theta_a: Seq<Element>,
    theta_b: Seq<Element>,
    selector: int,
    witness: (int, int, int, int),
    hk: Seq<Element>,
    hp: Seq<Element>,
)
    requires
        selector == 0 || selector == 1,
        theta_a.len() == 4,
        theta_b.len() == 4,
        forall|i: int| 0 <= i < 4 ==> (#[trigger] theta_a[i]).kind is Gt,
        forall|i: int| 0 <= i < 4 ==> (#[trigger] theta_b[i]).kind is Gt,
        selector == 0 ==> theta_a == honest_theta(base_a, witness),
        selector == 1 ==> theta_b == honest_theta(base_b, witness),
        is_hash_key(hk, disjunction(language(base_a), language(base_b), theta_a, theta_b)),
        projects(hk, disjunction(language(base_a), language(base_b), theta_a, theta_b), hp),
    ensures
        has_projection(hk, disjunction(language(base_a), language(base_b), theta_a, theta_b)),
        hash_value(hk, disjunction_word(9)) is Some,
        hash_value(hk, disjunction_word(9)) == hash_value(
            hp,
            chosen(selector, honest_lambda(chosen_base(selector, base_a, base_b), witness)),
        ),
{
    let gamma = disjunction(language(base_a), language(base_b), theta_a, theta_b);
    let base = chosen_base(selector, base_a, base_b);
    let lambda = honest_lambda(base, witness);
    let full = chosen(selector, lambda);
    let theta = disjunction_word(9);
    lemma_language_kinds(base_a);
    lemma_language_kinds(base_b);
    lemma_disjunction_kinds(language(base_a), language(base_b), theta_a, theta_b);
    lemma_projection_kinds(hk, gamma, disjunction_kinds());
    lemma_hash_defined(hk, theta);
    assert forall|j: int| 0 <= j < 8 implies product_kind((#[trigger] hp[j]).kind, full[j].kind)
        == Some(Kind::Gt) by {
        assert(inner_product(hk, gamma.column(j)) == Some(hp[j]));
    }
    lemma_hash_defined(hp, full);
    lemma_word_in_language(base, witness.2, witness.3, witness.0, witness.1);
    lemma_disjunction_in_language(
        language(base_a),
        language(base_b),
        theta_a,
        theta_b,
        selector,
        lambda,
    );
    lemma_hashes_agree(gamma, hk, hp, theta, full);
}

} // verus!
