use vstd::prelude::*;
use vstd::arithmetic::div_mod::{lemma_add_mod_noop, lemma_mod_twice, lemma_small_mod};
use crate::group_order;
use crate::scalars::scalar_nat;
use crate::points::{point_dlog, point_add, point_mul, point_identity};

verus! {

/// A commitment target: either an opaque group element, or a list of
/// (scalar, point) terms whose multiexponentiation defines it.
pub enum P {
    Point(pasta_curves::Ep),
    Terms(Vec<(pasta_curves::Fq, pasta_curves::Ep)>),
}

/// The (representative, discrete logarithm) pairs of a term list.
pub open spec fn terms_view(v: Seq<(pasta_curves::Fq, pasta_curves::Ep)>) -> Seq<(nat, nat)> {
    v.map(|i: int, t: (pasta_curves::Fq, pasta_curves::Ep)| (scalar_nat(t.0), point_dlog(t.1)))
}

/// The discrete logarithm of the weighted sum of a list of (scalar, discrete
/// logarithm) terms: zero for the empty list, and otherwise the sum of the
/// products, modulo the group order.
pub open spec fn msm_nat(terms: Seq<(nat, nat)>) -> nat
    decreases terms.len(),
{
    if terms.len() == 0 {
        0
    } else {
        (msm_nat(terms.drop_last()) + terms.last().0 * terms.last().1) % group_order()
    }
}

pub proof fn lemma_terms_view_push(
    s: Seq<(pasta_curves::Fq, pasta_curves::Ep)>,
    t: (pasta_curves::Fq, pasta_curves::Ep),
)
    ensures
        terms_view(s.push(t)) == terms_view(s).push((scalar_nat(t.0), point_dlog(t.1))),
{
    assert(terms_view(s.push(t)) =~= terms_view(s).push((scalar_nat(t.0), point_dlog(t.1))));
}

pub proof fn lemma_terms_view_update(
    s: Seq<(pasta_curves::Fq, pasta_curves::Ep)>,
    i: int,
    t: (pasta_curves::Fq, pasta_curves::Ep),
)
    requires
        0 <= i < s.len(),
    ensures
        terms_view(s.update(i, t)) == terms_view(s).update(i, (scalar_nat(t.0), point_dlog(t.1))),
{
    assert(terms_view(s.update(i, t)) =~= terms_view(s).update(
        i,
        (scalar_nat(t.0), point_dlog(t.1)),
    ));
}

/// The discrete logarithm that a commitment target stands for.
pub open spec fn p_dlog(p: P) -> nat {
    match p {
        P::Point(pt) => point_dlog(pt),
        P::Terms(v) => msm_nat(terms_view(v@)),
    }
}

/// The same weighted sum, without any reduction.
pub open spec fn msm_sum(terms: Seq<(nat, nat)>) -> int
    decreases terms.len(),
{
    if terms.len() == 0 {
        0
    } else {
        msm_sum(terms.drop_last()) + terms.last().0 * terms.last().1
    }
}

/// A multiexponentiation is its unreduced sum, reduced once at the end.
pub proof fn lemma_msm_nat_is_sum(terms: Seq<(nat, nat)>)
    ensures
        msm_nat(terms) == msm_sum(terms) % (group_order() as int),
    decreases terms.len(),
{
    let q = group_order() as int;
    if terms.len() == 0 {
        assert(0int % q == 0);
    } else {
        lemma_msm_nat_is_sum(terms.drop_last());
        let rest = msm_sum(terms.drop_last());
        let p = (terms.last().0 * terms.last().1) as int;
        lemma_mod_twice(rest, q);
        lemma_add_mod_noop(rest % q, p, q);
        lemma_add_mod_noop(rest, p, q);
        assert((rest % q + p) % q == (rest + p) % q);
    }
}

pub proof fn lemma_msm_nat_bound(terms: Seq<(nat, nat)>)
    ensures
        msm_nat(terms) < group_order(),
    decreases terms.len(),
{
    if terms.len() > 0 {
        lemma_msm_nat_bound(terms.drop_last());
    }
}

/// Collapses a commitment target into the single group element it stands for:
/// an opaque point is returned as it is, and a term list is folded into its
/// weighted sum, starting from the identity.
pub fn multiexp(p: &P) -> (r: pasta_curves::Ep)
    ensures
        point_dlog(r) == p_dlog(*p),
{
    match p {
        P::Point(pt) => *pt,
        P::Terms(v) => {
            let mut res = point_identity();
            let mut i: usize = 0;
            while i < v.len()
                invariant
                    i <= v@.len(),
                    point_dlog(res) == msm_nat(terms_view(v@).take(i as int)),
                decreases v@.len() - i,
            {
                let term = point_mul(&v[i].1, &v[i].0);
                let next = point_add(&res, &term);
                proof {
                    let q = group_order() as int;
                    let pre = terms_view(v@).take(i as int);
                    let post = terms_view(v@).take(i + 1);
                    assert(post.drop_last() =~= pre);
                    assert(post.last() == (scalar_nat(v@[i as int].0), point_dlog(v@[i as int].1)));
                    let s = scalar_nat(v@[i as int].0) as int;
                    let d = point_dlog(v@[i as int].1) as int;
                    let acc = point_dlog(res) as int;
                    lemma_msm_nat_bound(pre);
                    lemma_small_mod(point_dlog(res), group_order());
                    lemma_add_mod_noop(acc, d * s, q);
                    assert(d * s == s * d) by (nonlinear_arith);
                    assert((acc + (d * s) % q) % q == (acc + s * d) % q);
                }
                res = next;
                i += 1;
            }
            proof {
                assert(terms_view(v@).take(v@.len() as int) =~= terms_view(v@));
            }
            res
        }
    }
}

/// The inner product of two equally long scalar vectors, modulo the group
/// order: zero for empty vectors, and otherwise the sum of the pairwise
/// products.
pub open spec fn ip_nat(a: Seq<nat>, b: Seq<nat>) -> nat
    decreases a.len(),
{
    if a.len() == 0 || b.len() == 0 {
        0
    } else {
        (ip_nat(a.drop_last(), b.drop_last()) + a.last() * b.last()) % group_order()
    }
}

pub proof fn lemma_ip_nat_bound(a: Seq<nat>, b: Seq<nat>)
    ensures
        ip_nat(a, b) < group_order(),
    decreases a.len(),
{
    if a.len() > 0 && b.len() > 0 {
        lemma_ip_nat_bound(a.drop_last(), b.drop_last());
    }
}

/// The inner product of two equally long scalar vectors.
pub fn inner_product(a: &Vec<pasta_curves::Fq>, b: &Vec<pasta_curves::Fq>) -> (r: pasta_curves::Fq)
    requires
        a@.len() == b@.len(),
    ensures
        scalar_nat(r) == ip_nat(crate::scalars::svals(a@), crate::scalars::svals(b@)),
{
    let mut acc = crate::scalars::fq_from_u64(0);
    let mut i: usize = 0;
    while i < a.len()
        invariant
            i <= a@.len(),
            a@.len() == b@.len(),
            scalar_nat(acc) == ip_nat(
                crate::scalars::svals(a@).take(i as int),
                crate::scalars::svals(b@).take(i as int),
            ),
        decreases a@.len() - i,
    {
        let prod = crate::scalars::fq_mul(&a[i], &b[i]);
        let next = crate::scalars::fq_add(&acc, &prod);
        proof {
            let q = group_order() as int;
            let av = crate::scalars::svals(a@);
            let bv = crate::scalars::svals(b@);
            assert(av.take(i + 1).drop_last() =~= av.take(i as int));
            assert(bv.take(i + 1).drop_last() =~= bv.take(i as int));
            let s = scalar_nat(a@[i as int]) as int;
            let t = scalar_nat(b@[i as int]) as int;
            let acci = scalar_nat(acc) as int;
            lemma_ip_nat_bound(av.take(i as int), bv.take(i as int));
            lemma_small_mod(scalar_nat(acc), group_order());
            lemma_add_mod_noop(acci, s * t, q);
        }
        acc = next;
        i += 1;
    }
    proof {
        assert(crate::scalars::svals(a@).take(a@.len() as int) =~= crate::scalars::svals(a@));
        assert(crate::scalars::svals(b@).take(b@.len() as int) =~= crate::scalars::svals(b@));
    }
    acc
}

} // verus!
