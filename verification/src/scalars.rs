use vstd::prelude::*;
use vstd::arithmetic::div_mod::{lemma_mul_mod_noop_right, lemma_small_mod};
use vstd::arithmetic::mul::{lemma_mul_is_associative, lemma_mul_is_commutative};
use crate::group_order;

verus! {

#[verifier::external_type_specification]
#[verifier::external_body]
pub struct ExFq(pasta_curves::Fq);

/// The canonical representative of a scalar: the integer in `[0, group_order())`
/// that the field element stands for.
pub uninterp spec fn scalar_nat(s: pasta_curves::Fq) -> nat;

/// The representatives of a sequence of scalars.
pub open spec fn svals(s: Seq<pasta_curves::Fq>) -> Seq<nat> {
    s.map(|i: int, x: pasta_curves::Fq| scalar_nat(x))
}

/// Relies on pasta_curves' `Add` for `Fq`: addition modulo the group order.
#[verifier::external_body]
pub(crate) fn fq_add(a: &pasta_curves::Fq, b: &pasta_curves::Fq) -> (r: pasta_curves::Fq)
    ensures
        scalar_nat(r) == (scalar_nat(*a) + scalar_nat(*b)) % group_order(),
{
    *a + *b
}

/// Relies on pasta_curves' `Mul` for `Fq`: multiplication modulo the group order.
#[verifier::external_body]
pub(crate) fn fq_mul(a: &pasta_curves::Fq, b: &pasta_curves::Fq) -> (r: pasta_curves::Fq)
    ensures
        scalar_nat(r) == (scalar_nat(*a) * scalar_nat(*b)) % group_order(),
{
    *a * *b
}

/// The additive inverse of `x` modulo the group order.
pub open spec fn neg_mod(x: nat) -> nat {
    (((group_order() as int) - ((x % group_order()) as int)) % (group_order() as int)) as nat
}

/// Relies on pasta_curves' `Neg` for `Fq`: the additive inverse modulo the group order.
#[verifier::external_body]
pub(crate) fn fq_neg(a: &pasta_curves::Fq) -> (r: pasta_curves::Fq)
    ensures
        scalar_nat(r) == neg_mod(scalar_nat(*a)),
{
    -*a
}

/// Relies on ff's `Field::invert` for `Fq`: defined exactly on nonzero elements,
/// where it returns the multiplicative inverse.
#[verifier::external_body]
pub(crate) fn fq_invert(a: &pasta_curves::Fq) -> (r: Option<pasta_curves::Fq>)
    ensures
        r is Some <==> scalar_nat(*a) != 0,
        r is Some ==> scalar_nat(r.unwrap()) < group_order()
            && (scalar_nat(*a) * scalar_nat(r.unwrap())) % group_order() == 1,
{
    Option::from(ff::Field::invert(a))
}

/// Relies on ff's `Field::is_zero` for `Fq`.
#[verifier::external_body]
pub(crate) fn fq_is_zero(a: &pasta_curves::Fq) -> (r: bool)
    ensures
        r <==> scalar_nat(*a) == 0,
{
    ff::Field::is_zero(a).into()
}

/// Relies on pasta_curves' `From<u64>` for `Fq`: embeds a machine integer,
/// which is below the group order, as a field element.
#[verifier::external_body]
pub fn fq_from_u64(x: u64) -> (r: pasta_curves::Fq)
    ensures
        scalar_nat(r) == x,
{
    pasta_curves::Fq::from(x)
}

/// Relies on ff's `Field::random` for `Fq`, driven by the operating system's
/// entropy source; nothing is known of the value drawn.
#[verifier::external_body]
pub(crate) fn fq_random() -> (r: pasta_curves::Fq)
    ensures
        scalar_nat(r) < group_order(),
{
    <pasta_curves::Fq as ff::Field>::random(rand::rngs::OsRng)
}

/// Relies on ff's `BatchInverter::invert_with_external_scratch`: every nonzero
/// element is replaced by its multiplicative inverse in one shared pass, and
/// every zero element is left as zero.
#[verifier::external_body]
fn fq_batch_invert_in_place(v: &mut Vec<pasta_curves::Fq>)
    ensures
        final(v)@.len() == old(v)@.len(),
        forall|i: int| 0 <= i < old(v)@.len() && scalar_nat(old(v)@[i]) == 0
            ==> scalar_nat(#[trigger] final(v)@[i]) == 0,
        forall|i: int| 0 <= i < old(v)@.len() && scalar_nat(old(v)@[i]) != 0
            ==> scalar_nat(#[trigger] final(v)@[i]) < group_order()
                && (scalar_nat(old(v)@[i]) * scalar_nat(final(v)@[i])) % group_order() == 1,
{
    let mut scratch = vec![<pasta_curves::Fq as ff::Field>::ZERO; v.len()];
    let _ = ff::BatchInverter::invert_with_external_scratch(&mut v[..], &mut scratch[..]);
}

/// Inverts a whole list of scalars in one shared pass.  Nonzero entries come
/// back as their multiplicative inverses; zero entries come back as zero.
pub fn batch_invert(values: &Vec<pasta_curves::Fq>) -> (r: Vec<pasta_curves::Fq>)
    ensures
        r@.len() == values@.len(),
        forall|i: int| 0 <= i < values@.len() && scalar_nat(values@[i]) == 0
            ==> scalar_nat(#[trigger] r@[i]) == 0,
        forall|i: int| 0 <= i < values@.len() && scalar_nat(values@[i]) != 0
            ==> scalar_nat(#[trigger] r@[i]) < group_order()
                && (scalar_nat(values@[i]) * scalar_nat(r@[i])) % group_order() == 1,
{
    let mut out: Vec<pasta_curves::Fq> = Vec::new();
    let mut i: usize = 0;
    while i < values.len()
        invariant
            i <= values@.len(),
            out@ == values@.subrange(0, i as int),
        decreases values@.len() - i,
    {
        out.push(values[i]);
        i += 1;
    }
    assert(out@ == values@);
    fq_batch_invert_in_place(&mut out);
    out
}

/// Inverts one scalar, if it is nonzero.
pub fn scalar_invert(a: &pasta_curves::Fq) -> (r: Option<pasta_curves::Fq>)
    ensures
        r is Some <==> scalar_nat(*a) != 0,
        r is Some ==> scalar_nat(r.unwrap()) < group_order()
            && (scalar_nat(*a) * scalar_nat(r.unwrap())) % group_order() == 1,
{
    fq_invert(a)
}

/// The multiplicative inverse of `e` modulo the group order: the unique
/// representative below the modulus whose product with `e` leaves remainder 1,
/// when one exists.
pub open spec fn inv_mod(e: nat) -> nat {
    choose|x: nat| x < group_order() && #[trigger] ((e * x) % group_order()) == 1
}

/// A value that inverts `e` is the inverse of `e`.
pub proof fn lemma_inv_mod_is(e: nat, x: nat)
    requires
        x < group_order(),
        (e * x) % group_order() == 1,
    ensures
        inv_mod(e) == x,
{
    assert(x < group_order() && (e * x) % group_order() == 1);
    let y = choose|y: nat| y < group_order() && #[trigger] ((e * y) % group_order()) == 1;
    lemma_inverse_unique(e, x, y);
}

/// A multiplicative inverse modulo the group order is unique: any two
/// representatives below the modulus whose products with `a` leave remainder 1
/// are the same number.  In particular the scalars that `batch_invert` hands
/// back are exactly the per-element inverses computed independently.
pub proof fn lemma_inverse_unique(a: nat, x: nat, y: nat)
    requires
        x < group_order(),
        y < group_order(),
        (a * x) % group_order() == 1,
        (a * y) % group_order() == 1,
    ensures
        x == y,
{
    let q = group_order() as int;
    let ai = a as int;
    let xi = x as int;
    let yi = y as int;
    lemma_mul_mod_noop_right(xi, ai * yi, q);
    lemma_mul_mod_noop_right(yi, ai * xi, q);
    assert(xi % q == (xi * (ai * yi)) % q);
    assert(yi % q == (yi * (ai * xi)) % q);
    assert(xi * (ai * yi) == yi * (ai * xi)) by {
        lemma_mul_is_associative(xi, ai, yi);
        lemma_mul_is_commutative(xi, ai);
        lemma_mul_is_associative(ai, xi, yi);
        lemma_mul_is_associative(yi, ai, xi);
        lemma_mul_is_commutative(yi, ai);
        lemma_mul_is_associative(ai, yi, xi);
        lemma_mul_is_commutative(yi, xi);
    }
    lemma_small_mod(x, group_order());
    lemma_small_mod(y, group_order());
    assert(xi % q == xi);
    assert(yi % q == yi);
}

/// Batch inversion agrees with per-element inversion: any two lists of
/// representatives below the modulus that both invert the same scalar list
/// pointwise — as the outputs of `batch_invert` and `scalar_invert` do — are
/// the same list.
pub proof fn lemma_batch_matches_individual(vs: Seq<nat>, bs: Seq<nat>, ind: Seq<nat>)
    requires
        bs.len() == vs.len(),
        ind.len() == vs.len(),
        forall|i: int|
            0 <= i < vs.len() ==> #[trigger] bs[i] < group_order() && (vs[i] * bs[i])
                % group_order() == 1,
        forall|i: int|
            0 <= i < vs.len() ==> #[trigger] ind[i] < group_order() && (vs[i] * ind[i])
                % group_order() == 1,
    ensures
        bs == ind,
{
    assert forall|i: int| 0 <= i < vs.len() implies #[trigger] bs[i] == ind[i] by {
        lemma_inverse_unique(vs[i], bs[i], ind[i]);
    }
    assert(bs =~= ind);
}

} // verus!
