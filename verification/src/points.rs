use vstd::prelude::*;
use crate::group_order;
use crate::scalars::scalar_nat;

verus! {

#[verifier::external_type_specification]
#[verifier::external_body]
pub struct ExEp(pasta_curves::Ep);

/// The discrete logarithm of a Pallas point with respect to a fixed generator.
/// The Pallas group is cyclic of prime order `group_order()`, so every point
/// stands for exactly one integer in `[0, group_order())`, and the group
/// operations act on these integers modulo the order.  No computation of this
/// quantity is possible; it only gives contracts a value to speak about.
pub uninterp spec fn point_dlog(p: pasta_curves::Ep) -> nat;

/// The discrete logarithms of a sequence of points.
pub open spec fn pvals(s: Seq<pasta_curves::Ep>) -> Seq<nat> {
    s.map(|i: int, x: pasta_curves::Ep| point_dlog(x))
}

/// Relies on pasta_curves' `Add` for `Ep`: the group law, which adds discrete
/// logarithms modulo the group order.
#[verifier::external_body]
pub(crate) fn point_add(a: &pasta_curves::Ep, b: &pasta_curves::Ep) -> (r: pasta_curves::Ep)
    ensures
        point_dlog(r) == (point_dlog(*a) + point_dlog(*b)) % group_order(),
{
    *a + *b
}

/// Relies on pasta_curves' `Mul<Fq>` for `Ep`: scalar multiplication, which
/// multiplies the discrete logarithm by the scalar modulo the group order.
#[verifier::external_body]
pub(crate) fn point_mul(p: &pasta_curves::Ep, s: &pasta_curves::Fq) -> (r: pasta_curves::Ep)
    ensures
        point_dlog(r) == (point_dlog(*p) * scalar_nat(*s)) % group_order(),
{
    *p * *s
}

/// Relies on group's `Group::identity` for `Ep`: the neutral element, whose
/// discrete logarithm is zero.
#[verifier::external_body]
pub(crate) fn point_identity() -> (r: pasta_curves::Ep)
    ensures
        point_dlog(r) == 0,
{
    <pasta_curves::Ep as group::Group>::identity()
}

/// Relies on pasta_curves' `PartialEq` for `Ep`: equality of group elements,
/// which holds exactly when the discrete logarithms agree.
#[verifier::external_body]
pub(crate) fn point_eq(a: &pasta_curves::Ep, b: &pasta_curves::Ep) -> (r: bool)
    ensures
        r <==> point_dlog(*a) == point_dlog(*b),
{
    a == b
}

} // verus!
