//! The closed algebra over scalars and the elements of the three groups.
//!
//! Matrix and vector routines are written once over [`BlsElement`]. Only some
//! pairs of operands have a product, and fewer have a sum: the tables are
//! [`product_kind`] and [`sum`]. Every other pair is an error of the caller's
//! construction and is answered with [`Error::InvalidOperation`]. An inner
//! product accumulates its products within the one set that they lie in:
//! [`accumulation`].

use crate::curve::{pairing, Fr, G1Point, G2Point, GtElement};
use crate::field::{field_add, field_mul, field_sub, lemma_reduce_arith, reduce, sum_to};
use crate::Error;
use vstd::prelude::*;

verus! {

/// Which of the four sets an element belongs to.
pub enum Kind {
    Scalar,
    G1,
    G2,
    Gt,
}

/// The model of an element: its kind, and the scalar or the exponent.
pub struct Element {
    pub kind: Kind,
    pub value: int,
}

/// A scalar or an element of one of the three groups.
#[derive(Clone, Copy, Debug, PartialEq)]
pub enum BlsElement {
    Scalar(Fr),
    G1Affine(G1Point),
    G2Affine(G2Point),
    Gt(GtElement),
}

impl View for BlsElement {
    type V = Element;

    open spec fn view(&self) -> Element {
        match self {
            BlsElement::Scalar(s) => Element { kind: Kind::Scalar, value: s@ },
            BlsElement::G1Affine(p) => Element { kind: Kind::G1, value: p@ },
            BlsElement::G2Affine(q) => Element { kind: Kind::G2, value: q@ },
            BlsElement::Gt(t) => Element { kind: Kind::Gt, value: t@ },
        }
    }
}

/// The models of a sequence of elements.
pub open spec fn views(s: Seq<BlsElement>) -> Seq<Element> {
    s.map_values(|e: BlsElement| e@)
}

/// The multiplication table: a scalar acts on everything, the two source
/// groups pair into the target group, and nothing else has a product.
pub open spec fn product_kind(a: Kind, b: Kind) -> Option<Kind> {
    match (a, b) {
        (Kind::Scalar, k) => Some(k),
        (k, Kind::Scalar) => Some(k),
        (Kind::G1, Kind::G2) => Some(Kind::Gt),
        (Kind::G2, Kind::G1) => Some(Kind::Gt),
        _ => None,
    }
}

/// The product of two elements, where they have one. In the model every
/// product multiplies: scalars, a scalar and an exponent, or the two
/// exponents of a pairing.
pub open spec fn product(a: Element, b: Element) -> Option<Element> {
    match product_kind(a.kind, b.kind) {
        Some(k) => Some(Element { kind: k, value: field_mul(a.value, b.value) }),
        None => None,
    }
}

/// The sum of two elements: defined for two scalars and for two elements of
/// the target group.
pub open spec fn sum(a: Element, b: Element) -> Option<Element> {
    if a.kind == b.kind && (a.kind is Scalar || a.kind is Gt) {
        Some(Element { kind: a.kind, value: field_add(a.value, b.value) })
    } else {
        None
    }
}

/// The difference of two elements: defined in the target group only.
pub open spec fn difference(a: Element, b: Element) -> Option<Element> {
    if a.kind is Gt && b.kind is Gt {
        Some(Element { kind: Kind::Gt, value: field_sub(a.value, b.value) })
    } else {
        None
    }
}

/// The group operation on two elements of the same set: what an inner
/// product accumulates with. It is wider than [`sum`]: a projected key sums
/// scaled points within a source group.
pub open spec fn accumulation(a: Element, b: Element) -> Option<Element> {
    if a.kind == b.kind {
        Some(Element { kind: a.kind, value: field_add(a.value, b.value) })
    } else {
        None
    }
}

/// The inner product `a[0] * b[0] + ... + a[n - 1] * b[n - 1]` of two vectors
/// of the same length `n >= 1`, accumulated from the left, where every
/// product is defined and all products lie in one set.
pub open spec fn inner_product(a: Seq<Element>, b: Seq<Element>) -> Option<Element>
    decreases a.len(),
{
    if a.len() == 0 || a.len() != b.len() {
        None
    } else if a.len() == 1 {
        product(a[0], b[0])
    } else {
        match (inner_product(a.drop_last(), b.drop_last()), product(a.last(), b.last())) {
            (Some(acc), Some(p)) => accumulation(acc, p),
            _ => None,
        }
    }
}

/// The integer whose residue an inner product's value is.
pub open spec fn dot(a: Seq<Element>, b: Seq<Element>) -> int {
    sum_to(|i: int| a[i].value * b[i].value, a.len())
}

/// An inner product that is defined has the value of the sum of products.
pub proof fn lemma_inner_product_value(a: Seq<Element>, b: Seq<Element>)
    requires
        inner_product(a, b) is Some,
    ensures
        inner_product(a, b).unwrap().value == reduce(dot(a, b)),
    decreases a.len(),
{
    let f = |i: int| a[i].value * b[i].value;
    if a.len() == 1 {
        assert(sum_to(f, 1) == sum_to(f, 0) + f(0));
        assert(sum_to(f, 0) == 0);
    } else {
        let a1 = a.drop_last();
        let b1 = b.drop_last();
        let f1 = |i: int| a1[i].value * b1[i].value;
        lemma_inner_product_value(a1, b1);
        let n1 = a1.len();
        assert(sum_to(f, a.len()) == sum_to(f, n1) + f(n1 as int));
        assert(sum_to(f, n1) == sum_to(f1, n1)) by {
            crate::field::lemma_sum_equal(f, f1, n1);
        }
        lemma_reduce_arith(sum_to(f1, n1), a.last().value * b.last().value);
    }
}

/// An inner product whose products all lie in one set is defined, and
/// lies in that set.
pub proof fn lemma_inner_product_kind(a: Seq<Element>, b: Seq<Element>, k: Kind)
    requires
        a.len() == b.len(),
        a.len() >= 1,
        forall|i: int|
            0 <= i < a.len() ==> product_kind((#[trigger] a[i]).kind, b[i].kind) == Some(k),
    ensures
        inner_product(a, b) is Some,
        inner_product(a, b).unwrap().kind == k,
    decreases a.len(),
{
    if a.len() == 1 {
        assert(product_kind(a[0].kind, b[0].kind) == Some(k));
    } else {
        let a1 = a.drop_last();
        let b1 = b.drop_last();
        assert forall|i: int| 0 <= i < a1.len() implies product_kind(
            (#[trigger] a1[i]).kind,
            b1[i].kind,
        ) == Some(k) by {
            assert(a1[i] == a[i]);
        }
        lemma_inner_product_kind(a1, b1, k);
        assert(product_kind(a[a.len() - 1].kind, b[a.len() - 1].kind) == Some(k));
    }
}

/// Where the inner product of two prefixes is undefined, so is the inner
/// product of the vectors.
pub proof fn lemma_inner_product_prefix(a: Seq<Element>, b: Seq<Element>, k: int)
    requires
        a.len() == b.len(),
        1 <= k <= a.len(),
        inner_product(a.take(k), b.take(k)) is None,
    ensures
        inner_product(a, b) is None,
    decreases a.len(),
{
    if k < a.len() {
        assert(a.drop_last().take(k) == a.take(k));
        assert(b.drop_last().take(k) == b.take(k));
        lemma_inner_product_prefix(a.drop_last(), b.drop_last(), k);
    } else {
        assert(a.take(k) == a);
        assert(b.take(k) == b);
    }
}

impl BlsElement {
    /// The product of two elements, or `InvalidOperation` where the pair has
    /// none.
    pub fn mul(self, rhs: BlsElement) -> (out: Result<BlsElement, Error>)
        ensures
            match out {
                Ok(e) => product(self@, rhs@) == Some(e@),
                Err(err) => err == Error::InvalidOperation && product(self@, rhs@) is None,
            },
    {
        match (self, rhs) {
            (BlsElement::Scalar(a), BlsElement::Scalar(b)) => Ok(BlsElement::Scalar(a.mul(&b))),
            (BlsElement::Scalar(a), BlsElement::G1Affine(p)) => {
                assert(a@ * p@ == p@ * a@) by (nonlinear_arith);
                Ok(BlsElement::G1Affine(p.scale(&a)))
            },
            (BlsElement::Scalar(a), BlsElement::G2Affine(q)) => {
                assert(a@ * q@ == q@ * a@) by (nonlinear_arith);
                Ok(BlsElement::G2Affine(q.scale(&a)))
            },
            (BlsElement::Scalar(a), BlsElement::Gt(t)) => {
                assert(a@ * t@ == t@ * a@) by (nonlinear_arith);
                Ok(BlsElement::Gt(t.scale(&a)))
            },
            (BlsElement::G1Affine(p), BlsElement::Scalar(b)) => {
                Ok(BlsElement::G1Affine(p.scale(&b)))
            },
            (BlsElement::G1Affine(p), BlsElement::G2Affine(q)) => {
                Ok(BlsElement::Gt(pairing(&p, &q)))
            },
            (BlsElement::G2Affine(q), BlsElement::Scalar(b)) => {
                Ok(BlsElement::G2Affine(q.scale(&b)))
            },
            (BlsElement::G2Affine(q), BlsElement::G1Affine(p)) => {
                assert(q@ * p@ == p@ * q@) by (nonlinear_arith);
                Ok(BlsElement::Gt(pairing(&p, &q)))
            },
            (BlsElement::Gt(t), BlsElement::Scalar(b)) => Ok(BlsElement::Gt(t.scale(&b))),
            _ => Err(Error::InvalidOperation),
        }
    }

    /// The sum of two scalars or of two elements of the target group, or
    /// `InvalidOperation` for any other pair.
    pub fn add(self, rhs: BlsElement) -> (out: Result<BlsElement, Error>)
        ensures
            match out {
                Ok(e) => sum(self@, rhs@) == Some(e@),
                Err(err) => err == Error::InvalidOperation && sum(self@, rhs@) is None,
            },
    {
        match (self, rhs) {
            (BlsElement::Scalar(a), BlsElement::Scalar(b)) => Ok(BlsElement::Scalar(a.add(&b))),
            (BlsElement::Gt(a), BlsElement::Gt(b)) => Ok(BlsElement::Gt(a.add(&b))),
            _ => Err(Error::InvalidOperation),
        }
    }

    /// The difference of two elements of the target group, or
    /// `InvalidOperation` for any other pair.
    pub fn sub(self, rhs: BlsElement) -> (out: Result<BlsElement, Error>)
        ensures
            match out {
                Ok(e) => difference(self@, rhs@) == Some(e@),
                Err(err) => err == Error::InvalidOperation && difference(self@, rhs@) is None,
            },
    {
        match (self, rhs) {
            (BlsElement::Gt(a), BlsElement::Gt(b)) => Ok(BlsElement::Gt(a.sub(&b))),
            _ => Err(Error::InvalidOperation),
        }
    }

    /// Whether two elements are the same element of the same set.
    pub fn equals(&self, rhs: &BlsElement) -> (out: bool)
        ensures
            out == (self@ == rhs@),
    {
        match (self, rhs) {
            (BlsElement::Scalar(a), BlsElement::Scalar(b)) => a.equals(b),
            (BlsElement::G1Affine(a), BlsElement::G1Affine(b)) => a.equals(b),
            (BlsElement::G2Affine(a), BlsElement::G2Affine(b)) => a.equals(b),
            (BlsElement::Gt(a), BlsElement::Gt(b)) => a.equals(b),
            _ => false,
        }
    }
}

/// One step of an inner product: the group operation on two elements of
/// the same set, or `InvalidOperation` where they lie in different sets.
///
/// This is not [`BlsElement::add`], which refuses the source groups. It
/// stays within this module.
fn accumulate(acc: BlsElement, term: BlsElement) -> (out: Result<BlsElement, Error>)
    ensures
        match out {
            Ok(e) => accumulation(acc@, term@) == Some(e@),
            Err(err) => err == Error::InvalidOperation && accumulation(acc@, term@) is None,
        },
{
    match (acc, term) {
        (BlsElement::Scalar(a), BlsElement::Scalar(b)) => Ok(BlsElement::Scalar(a.add(&b))),
        (BlsElement::G1Affine(a), BlsElement::G1Affine(b)) => Ok(BlsElement::G1Affine(a.add(&b))),
        (BlsElement::G2Affine(a), BlsElement::G2Affine(b)) => Ok(BlsElement::G2Affine(a.add(&b))),
        (BlsElement::Gt(a), BlsElement::Gt(b)) => Ok(BlsElement::Gt(a.add(&b))),
        _ => Err(Error::InvalidOperation),
    }
}

/// The inner product of two vectors of elements.
///
/// `DimensionMismatch` where the lengths differ or are zero; otherwise
/// `InvalidOperation` where a product is undefined or the products do not
/// all lie in one set.
pub fn inner_product_of(a: &Vec<BlsElement>, b: &Vec<BlsElement>) -> (out: Result<
    BlsElement,
    Error,
>)
    ensures
        match out {
            Ok(e) => inner_product(views(a@), views(b@)) == Some(e@),
            Err(Error::DimensionMismatch) => a.len() == 0 || a.len() != b.len(),
            Err(Error::InvalidOperation) => a.len() != 0 && a.len() == b.len() && inner_product(
                views(a@),
                views(b@),
            ) is None,
            Err(Error::Unsupported) => false,
        },
{
    let n = a.len();
    if n == 0 || n != b.len() {
        return Err(Error::DimensionMismatch);
    }
    let ghost va = views(a@);
    let ghost vb = views(b@);
    let first = a[0].mul(b[0]);
    let mut acc = match first {
        Ok(e) => e,
        Err(_) => {
            proof {
                assert(va.take(1).len() == 1);
                assert(va.take(1)[0] == va[0]);
                assert(vb.take(1)[0] == vb[0]);
                lemma_inner_product_prefix(va, vb, 1);
            }
            return Err(Error::InvalidOperation);
        },
    };
    let mut i: usize = 1;
    proof {
        assert(va.take(1)[0] == va[0]);
        assert(vb.take(1)[0] == vb[0]);
    }
    while i < n
        invariant
            1 <= i <= n,
            n == a.len(),
            n == b.len(),
            va == views(a@),
            vb == views(b@),
            inner_product(va.take(i as int), vb.take(i as int)) == Some(acc@),
        decreases n - i,
    {
        proof {
            assert(va.take(i + 1).drop_last() == va.take(i as int));
            assert(vb.take(i + 1).drop_last() == vb.take(i as int));
            assert(va.take(i + 1).last() == va[i as int]);
            assert(vb.take(i + 1).last() == vb[i as int]);
        }
        let term = match a[i].mul(b[i]) {
            Ok(e) => e,
            Err(_) => {
                proof {
                    lemma_inner_product_prefix(va, vb, i + 1);
                }
                return Err(Error::InvalidOperation);
            },
        };
        acc = match accumulate(acc, term) {
            Ok(e) => e,
            Err(_) => {
                proof {
                    lemma_inner_product_prefix(va, vb, i + 1);
                }
                return Err(Error::InvalidOperation);
            },
        };
        i += 1;
    }
    proof {
        assert(va.take(n as int) == va);
        assert(vb.take(n as int) == vb);
    }
    Ok(acc)
}

} // verus!
