use rand::rngs::StdRng;
use rand::SeedableRng;
use witness_encryption::bls_elements::{inner_product_of, BlsElement};
use witness_encryption::curve::{pairing, random_bytes, Fr, G1Point, G2Point, GtElement};
use witness_encryption::Error;

fn s(x: u64) -> BlsElement {
    BlsElement::Scalar(Fr::from_u64(x))
}

fn g1(x: u64) -> BlsElement {
    BlsElement::G1Affine(G1Point::generator().scale(&Fr::from_u64(x)))
}

fn g2(x: u64) -> BlsElement {
    BlsElement::G2Affine(G2Point::generator().scale(&Fr::from_u64(x)))
}

fn gt(x: u64) -> BlsElement {
    BlsElement::Gt(GtElement::generator().scale(&Fr::from_u64(x)))
}

#[test]
fn multiplication_table() {
    assert_eq!(s(3).mul(s(5)), Ok(s(15)));
    assert_eq!(s(3).mul(g1(5)), Ok(g1(15)));
    assert_eq!(s(3).mul(g2(5)), Ok(g2(15)));
    assert_eq!(s(3).mul(gt(5)), Ok(gt(15)));
    assert_eq!(g1(3).mul(s(5)), Ok(g1(15)));
    assert_eq!(g2(3).mul(s(5)), Ok(g2(15)));
    assert_eq!(gt(3).mul(s(5)), Ok(gt(15)));
    assert_eq!(g1(3).mul(g2(5)), Ok(gt(15)));
    assert_eq!(g2(3).mul(g1(5)), Ok(gt(15)));
    for (a, b) in [
        (g1(1), g1(1)),
        (g2(1), g2(1)),
        (gt(1), gt(1)),
        (g1(1), gt(1)),
        (gt(1), g1(1)),
        (g2(1), gt(1)),
        (gt(1), g2(1)),
    ] {
        assert_eq!(a.mul(b), Err(Error::InvalidOperation));
    }
}

#[test]
fn addition_and_subtraction_tables() {
    assert_eq!(s(3).add(s(5)), Ok(s(8)));
    assert_eq!(gt(3).add(gt(5)), Ok(gt(8)));
    assert_eq!(gt(8).sub(gt(5)), Ok(gt(3)));
    assert_eq!(gt(3).sub(gt(3)), Ok(BlsElement::Gt(GtElement::identity())));
    for (a, b) in [
        (g1(1), g1(1)),
        (g2(1), g2(1)),
        (s(1), gt(1)),
        (gt(1), s(1)),
        (g1(1), g2(1)),
        (s(1), g1(1)),
    ] {
        assert_eq!(a.add(b), Err(Error::InvalidOperation));
        assert_eq!(a.sub(b), Err(Error::InvalidOperation));
    }
    assert_eq!(s(3).sub(s(1)), Err(Error::InvalidOperation));
}

#[test]
fn equality_respects_the_kind() {
    assert!(s(1).equals(&s(1)));
    assert!(!s(1).equals(&s(2)));
    assert!(!s(1).equals(&g1(1)));
    assert!(g1(4).equals(&g1(4)));
    assert!(g2(4).equals(&g2(4)));
    assert!(!g2(4).equals(&g2(5)));
    assert!(gt(4).equals(&gt(4)));
    assert!(!gt(4).equals(&g2(4)));
}

#[test]
fn inner_products() {
    assert_eq!(inner_product_of(&vec![s(2), s(3)], &vec![s(5), s(7)]), Ok(s(31)));
    assert_eq!(inner_product_of(&vec![s(2), s(3)], &vec![g1(5), g1(7)]), Ok(g1(31)));
    assert_eq!(inner_product_of(&vec![g1(2), s(3)], &vec![g2(5), gt(7)]), Ok(gt(31)));
    assert_eq!(inner_product_of(&vec![g1(2)], &vec![s(5)]), Ok(g1(10)));
    assert_eq!(
        inner_product_of(&vec![s(2), s(3)], &vec![g1(5), g2(7)]),
        Err(Error::InvalidOperation)
    );
    assert_eq!(
        inner_product_of(&vec![g1(2), s(3)], &vec![g1(5), s(7)]),
        Err(Error::InvalidOperation)
    );
    assert_eq!(inner_product_of(&vec![], &vec![]), Err(Error::DimensionMismatch));
    assert_eq!(inner_product_of(&vec![s(1)], &vec![]), Err(Error::DimensionMismatch));
}

#[test]
fn field_operations() {
    let a = Fr::from_u64(6);
    let b = Fr::from_u64(7);
    assert_eq!(a.add(&b), Fr::from_u64(13));
    assert_eq!(a.mul(&b), Fr::from_u64(42));
    assert_eq!(a.pow(3), Fr::from_u64(216));
    assert_eq!(a.pow(0), Fr::one());
    assert_eq!(a.add(&a.neg()), Fr::zero());
    assert_ne!(a.neg(), a);
    assert!(a.equals(&Fr::from_u64(6)));
    assert!(!a.equals(&b));
    // r - 1 is minus one: its square is one.
    let minus_one = Fr::one().neg();
    assert_eq!(minus_one.mul(&minus_one), Fr::one());
    assert_eq!(Fr::from_u64(u64::MAX).add(&Fr::one()), Fr::from_u64(1 << 32).pow(2));
}

#[test]
fn group_operations() {
    let p = G1Point::generator();
    let q = G2Point::generator();
    let t = GtElement::generator();
    let two = Fr::from_u64(2);
    let three = Fr::from_u64(3);
    assert_eq!(p.add(&p), p.scale(&two));
    assert_eq!(q.add(&q), q.scale(&two));
    assert_eq!(t.add(&t), t.scale(&two));
    assert_ne!(p.add(&p), p);
    assert_eq!(p.add(&p.neg()), G1Point::identity());
    assert_ne!(p.neg(), p);
    assert_eq!(t.add(&t.neg()), GtElement::identity());
    assert_eq!(t.scale(&three).sub(&t), t.scale(&two));
    assert_eq!(p.scale(&Fr::zero()), G1Point::identity());
    assert_eq!(q.scale(&Fr::zero()), G2Point::identity());
    assert_eq!(pairing(&p, &q), t);
    assert_eq!(pairing(&p.scale(&two), &q.scale(&three)), t.scale(&Fr::from_u64(6)));
    assert_eq!(pairing(&G1Point::identity(), &q), GtElement::identity());
    assert_eq!(pairing(&p, &G2Point::identity()), GtElement::identity());
    assert!(p.equals(&G1Point::generator()));
    assert!(!p.equals(&G1Point::identity()));
    assert!(q.equals(&G2Point::generator()));
    assert!(!q.equals(&G2Point::identity()));
    assert!(t.equals(&GtElement::generator()));
    assert!(!t.equals(&GtElement::identity()));
}

#[test]
fn randomness_replays_from_a_seed() {
    let mut a = StdRng::seed_from_u64(99);
    let mut b = StdRng::seed_from_u64(99);
    assert_eq!(Fr::random(&mut a), Fr::random(&mut b));
    assert_eq!(G1Point::random(&mut a), G1Point::random(&mut b));
    assert_eq!(G2Point::random(&mut a), G2Point::random(&mut b));
    let x = random_bytes(&mut a, 256);
    assert_eq!(x.len(), 256);
    assert_eq!(x, random_bytes(&mut b, 256));
    assert_ne!(x, random_bytes(&mut a, 256));
    assert_ne!(Fr::random(&mut a), Fr::random(&mut a));
    assert_ne!(G1Point::random(&mut a), G1Point::random(&mut a));
    assert_ne!(G2Point::random(&mut a), G2Point::random(&mut a));
    assert_eq!(random_bytes(&mut a, 0).len(), 0);
}

#[test]
fn hashing_depends_on_the_message_alone() {
    assert_eq!(G1Point::hash("Hello"), G1Point::hash("Hello"));
    assert_ne!(G1Point::hash("Hello"), G1Point::hash("World"));
    assert_eq!(G2Point::hash("World"), G2Point::hash("World"));
    assert_ne!(G2Point::hash("Hello"), G2Point::hash("World"));
    assert_ne!(G1Point::hash("Hello"), G1Point::identity());
}

#[test]
fn values_of_the_curve_library_convert() {
    let five = blstrs::Scalar::from(5u64);
    assert_eq!(Fr::from_scalar(five), Fr::from_u64(5));
    assert_eq!(Fr::from_u64(5).to_scalar(), five);

    let p = G1Point::generator().scale(&Fr::from_u64(5));
    assert_eq!(G1Point::from_affine(p.to_affine()), Some(p));
    let q = G2Point::generator().scale(&Fr::from_u64(5));
    assert_eq!(G2Point::from_affine(q.to_affine()), Some(q));
    assert_eq!(
        G1Point::from_affine(blstrs::G1Affine::default()),
        Some(G1Point::identity())
    );
    assert_eq!(
        G2Point::from_affine(blstrs::G2Affine::default()),
        Some(G2Point::identity())
    );
}

#[test]
fn points_outside_the_group_are_refused() {
    // Of the points of the curve few lie in the subgroup of prime order: the
    // first abscissa that is on the curve at all gives a point outside it.
    let mut refused1 = false;
    for x in 0..64u8 {
        let mut bytes = [0u8; 48];
        bytes[0] = 0x80;
        bytes[47] = x;
        let decoded: Option<blstrs::G1Affine> =
            blstrs::G1Affine::from_compressed_unchecked(&bytes).into();
        if let Some(point) = decoded {
            let checked: Option<blstrs::G1Affine> = blstrs::G1Affine::from_compressed(&bytes).into();
            assert_eq!(G1Point::from_affine(point).is_some(), checked.is_some());
            refused1 = refused1 || checked.is_none();
        }
    }
    assert!(refused1);
    let mut refused2 = false;
    for x in 0..64u8 {
        let mut bytes = [0u8; 96];
        bytes[0] = 0x80;
        bytes[95] = x;
        let decoded: Option<blstrs::G2Affine> =
            blstrs::G2Affine::from_compressed_unchecked(&bytes).into();
        if let Some(point) = decoded {
            let checked: Option<blstrs::G2Affine> = blstrs::G2Affine::from_compressed(&bytes).into();
            assert_eq!(G2Point::from_affine(point).is_some(), checked.is_some());
            refused2 = refused2 || checked.is_none();
        }
    }
    assert!(refused2);
}
