use pasta_curves::{Ep, Fq};
use group::Group;
use ff::Field;
use wip_argument::scalars::{batch_invert, scalar_invert, fq_from_u64};
use wip_argument::msm::{inner_product, multiexp, P};
use wip_argument::folding::split_vector_in_half;
use wip_argument::products::{challenge_products, checked_pow2, is_power_of_two};
use wip_argument::prover::count_rounds;

fn fq(x: u64) -> Fq {
    Fq::from(x)
}

#[test]
fn inner_product_exact_value() {
    let a = vec![fq(2), fq(3)];
    let b = vec![fq(4), fq(5)];
    assert_eq!(inner_product(&a, &b), fq(23));
}

#[test]
fn inner_product_empty_is_zero() {
    let a: Vec<Fq> = vec![];
    let b: Vec<Fq> = vec![];
    assert_eq!(inner_product(&a, &b), fq(0));
}

#[test]
fn fq_from_u64_embeds() {
    assert_eq!(fq_from_u64(7), fq(7));
    assert_ne!(fq_from_u64(7), fq(8));
}

#[test]
fn multiexp_of_point_is_identity_function() {
    let p = Ep::random(rand::rngs::OsRng);
    assert_eq!(multiexp(&P::Point(p)), p);
}

#[test]
fn multiexp_empty_terms_is_identity() {
    assert_eq!(multiexp(&P::Terms(vec![])), Ep::identity());
}

#[test]
fn multiexp_exact_value() {
    let g = Ep::random(rand::rngs::OsRng);
    let h = Ep::random(rand::rngs::OsRng);
    let expect = g * fq(3) + h * fq(4);
    assert_eq!(multiexp(&P::Terms(vec![(fq(3), g), (fq(4), h)])), expect);
}

#[test]
fn multiexp_sums_duplicate_points_and_drops_zero_scalars() {
    let g = Ep::random(rand::rngs::OsRng);
    let h = Ep::random(rand::rngs::OsRng);
    let terms = vec![(fq(3), g), (fq(4), g), (fq(0), h)];
    assert_eq!(multiexp(&P::Terms(terms)), g * fq(7));
}

#[test]
fn split_routes_extra_element_left() {
    let v: Vec<u64> = vec![1, 2, 3];
    let (l, r) = split_vector_in_half(v);
    assert_eq!(l, vec![1, 2]);
    assert_eq!(r, vec![3]);
    let (l2, r2) = split_vector_in_half(l);
    assert_eq!(l2, vec![1]);
    assert_eq!(r2, vec![2]);
}

#[test]
fn split_even_length_is_halved() {
    let v: Vec<u64> = vec![1, 2, 3, 4];
    let (l, r) = split_vector_in_half(v);
    assert_eq!(l, vec![1, 2]);
    assert_eq!(r, vec![3, 4]);
}

#[test]
fn three_collapses_in_two_rounds() {
    assert_eq!(count_rounds(3), 2);
    assert_eq!(count_rounds(4), 2);
    assert_eq!(count_rounds(1), 0);
    assert_eq!(count_rounds(8), 3);
}

#[test]
fn batch_inversion_matches_individual_inverses() {
    let values = vec![fq(2), fq(3), fq(12345), fq(7)];
    let batched = batch_invert(&values);
    assert_eq!(batched.len(), values.len());
    for (v, b) in values.iter().zip(batched.iter()) {
        let individual = scalar_invert(v).unwrap();
        assert_eq!(*b, individual);
        assert_eq!(*v * *b, fq(1));
    }
}

#[test]
fn batch_inversion_leaves_zeros_alone() {
    let values = vec![fq(2), fq(0), fq(5)];
    let batched = batch_invert(&values);
    assert_eq!(batched[0], scalar_invert(&fq(2)).unwrap());
    assert_eq!(batched[1], fq(0));
    assert_eq!(batched[2], scalar_invert(&fq(5)).unwrap());
}

#[test]
fn scalar_invert_rejects_zero() {
    assert!(scalar_invert(&fq(0)).is_none());
    assert_eq!(scalar_invert(&fq(2)).unwrap() * fq(2), fq(1));
}

#[test]
fn challenge_product_table_two_rounds() {
    let e0 = fq(2);
    let i0 = fq(5);
    let e1 = fq(3);
    let i1 = fq(7);
    let table = challenge_products(&vec![(e0, i0), (e1, i1)]);
    assert_eq!(table, vec![i0 * i1, i0 * e1, e0 * i1, e0 * e1]);
}

#[test]
fn challenge_product_table_real_inverses() {
    let e0 = fq(11);
    let i0 = scalar_invert(&e0).unwrap();
    let e1 = fq(29);
    let i1 = scalar_invert(&e1).unwrap();
    let table = challenge_products(&vec![(e0, i0), (e1, i1)]);
    assert_eq!(table.len(), 4);
    assert_eq!(table[0] * e0 * e1, fq(1));
    assert_eq!(table[3], e0 * e1);
}

#[test]
fn challenge_product_table_empty_and_single() {
    assert_eq!(challenge_products(&vec![]), vec![Fq::ONE]);
    let e = fq(9);
    let i = scalar_invert(&e).unwrap();
    assert_eq!(challenge_products(&vec![(e, i)]), vec![i, e]);
}

#[test]
fn power_of_two_checks() {
    assert!(is_power_of_two(1));
    assert!(is_power_of_two(2));
    assert!(is_power_of_two(4));
    assert!(is_power_of_two(1024));
    assert!(!is_power_of_two(0));
    assert!(!is_power_of_two(3));
    assert!(!is_power_of_two(6));
    assert_eq!(checked_pow2(0), Some(1));
    assert_eq!(checked_pow2(5), Some(32));
    assert_eq!(checked_pow2(200), None);
}
