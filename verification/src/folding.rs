use vstd::prelude::*;
use crate::group_order;
use crate::scalars::{scalar_nat, svals, fq_add, fq_mul};
use crate::points::{point_dlog, pvals, point_add, point_mul};

verus! {

/// Copies a vector of plain values.
pub fn copy_vec<T: Copy>(v: &Vec<T>) -> (r: Vec<T>)
    ensures
        r@ == v@,
{
    let mut out: Vec<T> = Vec::new();
    let mut i: usize = 0;
    while i < v.len()
        invariant
            i <= v@.len(),
            out@ == v@.subrange(0, i as int),
        decreases v@.len() - i,
    {
        out.push(v[i]);
        i += 1;
    }
    proof {
        assert(out@ =~= v@);
    }
    out
}

/// The size of the left half of a split vector: half the length, rounded up,
/// so that an odd length routes the extra element to the left.
pub open spec fn mid_len(n: nat) -> nat {
    n / 2 + n % 2
}

/// Splits a vector into a left and a right half.  For an odd length the extra
/// element goes into the left half.
pub fn split_vector_in_half<T: Copy>(v: Vec<T>) -> (r: (Vec<T>, Vec<T>))
    ensures
        r.0@ == v@.take(mid_len(v@.len()) as int),
        r.1@ == v@.skip(mid_len(v@.len()) as int),
{
    let mid = v.len() / 2 + v.len() % 2;
    let mut first: Vec<T> = Vec::new();
    let mut second: Vec<T> = Vec::new();
    let mut i: usize = 0;
    while i < mid
        invariant
            mid == mid_len(v@.len()),
            i <= mid <= v@.len(),
            first@ == v@.subrange(0, i as int),
        decreases mid - i,
    {
        first.push(v[i]);
        i += 1;
    }
    while i < v.len()
        invariant
            mid == mid_len(v@.len()),
            mid <= i <= v@.len(),
            second@ == v@.subrange(mid as int, i as int),
        decreases v@.len() - i,
    {
        second.push(v[i]);
        i += 1;
    }
    proof {
        assert(first@ =~= v@.take(mid_len(v@.len()) as int));
        assert(second@ =~= v@.skip(mid_len(v@.len()) as int));
    }
    (first, second)
}

/// One folded entry: both halves scaled by their challenges and added, all
/// modulo the group order.
pub open spec fn fold_seq(x: Seq<nat>, y: Seq<nat>, c1: nat, c2: nat) -> Seq<nat> {
    Seq::new(x.len(), |i: int| (((c1 * x[i]) % group_order()) + ((c2 * y[i]) % group_order())) % group_order())
}

/// Folds two equally long scalar vectors into one: entry `i` of the result is
/// `c1 * x[i] + c2 * y[i]`, modulo the group order.
pub fn fold_scalars(
    x: &Vec<pasta_curves::Fq>,
    y: &Vec<pasta_curves::Fq>,
    c1: &pasta_curves::Fq,
    c2: &pasta_curves::Fq,
) -> (r: Vec<pasta_curves::Fq>)
    requires
        x@.len() == y@.len(),
    ensures
        svals(r@) == fold_seq(svals(x@), svals(y@), scalar_nat(*c1), scalar_nat(*c2)),
{
    let mut out: Vec<pasta_curves::Fq> = Vec::new();
    let mut i: usize = 0;
    while i < x.len()
        invariant
            i <= x@.len(),
            x@.len() == y@.len(),
            out@.len() == i,
            svals(out@) == fold_seq(svals(x@), svals(y@), scalar_nat(*c1), scalar_nat(*c2)).take(i as int),
        decreases x@.len() - i,
    {
        let left = fq_mul(c1, &x[i]);
        let right = fq_mul(c2, &y[i]);
        let entry = fq_add(&left, &right);
        out.push(entry);
        proof {
            let full = fold_seq(svals(x@), svals(y@), scalar_nat(*c1), scalar_nat(*c2));
            assert(svals(out@) =~= full.take(i + 1));
        }
        i += 1;
    }
    proof {
        let full = fold_seq(svals(x@), svals(y@), scalar_nat(*c1), scalar_nat(*c2));
        assert(full.take(x@.len() as int) =~= full);
    }
    out
}

/// Folds two equally long point vectors into one: entry `i` of the result has
/// discrete logarithm `c1 * x[i] + c2 * y[i]`, modulo the group order.
pub fn fold_points(
    x: &Vec<pasta_curves::Ep>,
    y: &Vec<pasta_curves::Ep>,
    c1: &pasta_curves::Fq,
    c2: &pasta_curves::Fq,
) -> (r: Vec<pasta_curves::Ep>)
    requires
        x@.len() == y@.len(),
    ensures
        pvals(r@) == fold_seq(pvals(x@), pvals(y@), scalar_nat(*c1), scalar_nat(*c2)),
{
    let mut out: Vec<pasta_curves::Ep> = Vec::new();
    let mut i: usize = 0;
    while i < x.len()
        invariant
            i <= x@.len(),
            x@.len() == y@.len(),
            out@.len() == i,
            pvals(out@) == fold_seq(pvals(x@), pvals(y@), scalar_nat(*c1), scalar_nat(*c2)).take(i as int),
        decreases x@.len() - i,
    {
        let left = point_mul(&x[i], c1);
        let right = point_mul(&y[i], c2);
        let entry = point_add(&left, &right);
        proof {
            assert(point_dlog(x@[i as int]) * scalar_nat(*c1) == scalar_nat(*c1) * point_dlog(x@[i as int]))
                by (nonlinear_arith);
            assert(point_dlog(y@[i as int]) * scalar_nat(*c2) == scalar_nat(*c2) * point_dlog(y@[i as int]))
                by (nonlinear_arith);
        }
        out.push(entry);
        proof {
            let full = fold_seq(pvals(x@), pvals(y@), scalar_nat(*c1), scalar_nat(*c2));
            assert(pvals(out@) =~= full.take(i + 1));
        }
        i += 1;
    }
    proof {
        let full = fold_seq(pvals(x@), pvals(y@), scalar_nat(*c1), scalar_nat(*c2));
        assert(full.take(x@.len() as int) =~= full);
    }
    out
}

} // verus!
