use vstd::prelude::*;
use vstd::arithmetic::power2::{pow2, lemma_pow2_strictly_increases, lemma_pow2_unfold};
use crate::group_order;
use vstd::arithmetic::power2::lemma2_to64;
use vstd::arithmetic::div_mod::lemma_small_mod;
use crate::scalars::{scalar_nat, fq_from_u64, fq_mul};

verus! {

/// The closed-form coefficient for leaf `i` of the challenge-product table of
/// a list of (challenge, inverse) pairs: round `j` contributes its challenge
/// when bit `m - 1 - j` of `i` is set and its inverse otherwise, so the last
/// round reads the lowest bit.
pub open spec fn chal_prod(ch: Seq<(nat, nat)>, i: int) -> nat
    decreases ch.len(),
{
    if ch.len() == 0 {
        1
    } else {
        (chal_prod(ch.drop_last(), i / 2) * (if i % 2 == 1 {
            ch.last().0
        } else {
            ch.last().1
        })) % group_order()
    }
}

/// The (challenge, inverse) representative pairs of a challenge list.
pub open spec fn chal_view(v: Seq<(pasta_curves::Fq, pasta_curves::Fq)>) -> Seq<(nat, nat)> {
    v.map(|i: int, c: (pasta_curves::Fq, pasta_curves::Fq)| (scalar_nat(c.0), scalar_nat(c.1)))
}

/// Computes `2^m` when it fits a machine word.
pub fn checked_pow2(m: usize) -> (r: Option<usize>)
    ensures
        r is Some ==> r.unwrap() as nat == pow2(m as nat),
        r is None ==> pow2(m as nat) > usize::MAX,
{
    proof {
        lemma2_to64();
    }
    let mut size: usize = 1;
    let mut j: usize = 0;
    while j < m
        invariant
            j <= m,
            size as nat == pow2(j as nat),
        decreases m - j,
    {
        if size > usize::MAX / 2 {
            proof {
                lemma_pow2_unfold((j + 1) as nat);
                assert(pow2((j + 1) as nat) > usize::MAX);
                if ((j + 1) as nat) < (m as nat) {
                    lemma_pow2_strictly_increases((j + 1) as nat, m as nat);
                }
            }
            return None;
        }
        size = size * 2;
        j += 1;
        proof {
            lemma_pow2_unfold(j as nat);
        }
    }
    Some(size)
}

/// Decides whether a count is an exact power of two, the shape the folding
/// rounds and the batched reconstruction both demand.
pub fn is_power_of_two(n: usize) -> (r: bool)
    ensures
        r <==> n as nat == pow2(crate::wip::num_rounds(n as nat)),
{
    proof {
        lemma2_to64();
    }
    if n == 0 {
        proof {
            vstd::arithmetic::power2::lemma_pow2_pos(crate::wip::num_rounds(0));
        }
        return false;
    }
    let mut c = n;
    while c > 1
        invariant
            1 <= c <= n,
            (n as nat == pow2(crate::wip::num_rounds(n as nat))) <==> (c as nat == pow2(
                crate::wip::num_rounds(c as nat),
            )),
        decreases c,
    {
        if c % 2 != 0 {
            proof {
                let rc = crate::wip::num_rounds(c as nat);
                assert(rc >= 1);
                lemma_pow2_unfold(rc);
                assert(pow2(rc) % 2 == 0);
            }
            return false;
        }
        proof {
            let half = (c / 2) as nat;
            assert(crate::folding::mid_len(c as nat) == half);
            assert(crate::wip::num_rounds(c as nat) == 1 + crate::wip::num_rounds(half));
            lemma_pow2_unfold(1 + crate::wip::num_rounds(half));
            assert(pow2(1 + crate::wip::num_rounds(half)) == 2 * pow2(crate::wip::num_rounds(half)));
        }
        c = c / 2;
    }
    proof {
        assert(crate::wip::num_rounds(1) == 0);
    }
    true
}

/// Expands a list of (challenge, inverse) pairs into the table of products
/// that the verifier's closed-form reconstruction reads: the table has one
/// entry per leaf, built level by level by recursive doubling, and entry `i`
/// equals `chal_prod` of the whole list at `i`.
pub fn challenge_products(challenges: &Vec<(pasta_curves::Fq, pasta_curves::Fq)>) -> (r: Vec<
    pasta_curves::Fq,
>)
    requires
        pow2(challenges@.len()) <= usize::MAX,
        forall|i: int| 0 <= i < challenges@.len()
            ==> scalar_nat(#[trigger] challenges@[i].0) < group_order()
                && scalar_nat(challenges@[i].1) < group_order(),
    ensures
        r@.len() == pow2(challenges@.len()),
        forall|i: int|
            0 <= i < r@.len() ==> scalar_nat(#[trigger] r@[i]) == chal_prod(
                chal_view(challenges@),
                i,
            ),
{
    let m = challenges.len();
    let ghost chs = chal_view(challenges@);
    let size = match checked_pow2(m) {
        Some(s) => s,
        None => {
            proof {
                assert(false);
            }
            unreached()
        }
    };
    let one = fq_from_u64(1);
    let mut products: Vec<pasta_curves::Fq> = Vec::new();
    while products.len() < size
        invariant
            products@.len() <= size,
            scalar_nat(one) == 1,
            forall|i: int| 0 <= i < products@.len() ==> scalar_nat(#[trigger] products@[i]) == 1,
        decreases size - products@.len(),
    {
        products.push(one);
    }
    if m > 0 {
        proof {
            lemma2_to64();
            lemma_pow2_strictly_increases(0, m as nat);
        }
        products[0] = challenges[0].1;
        products[1] = challenges[0].0;
        proof {
            assert(chs.take(1).drop_last() =~= Seq::<(nat, nat)>::empty());
            lemma_small_mod(scalar_nat(challenges@[0].1), group_order());
            lemma_small_mod(scalar_nat(challenges@[0].0), group_order());
            assert(chs[0] == (scalar_nat(challenges@[0].0), scalar_nat(challenges@[0].1)));
            assert(chs.take(1).last() == chs[0]);
            assert(chal_prod(Seq::<(nat, nat)>::empty(), 0) == 1);
            assert(chal_prod(Seq::<(nat, nat)>::empty(), 1) == 1);
            assert(chal_prod(chs.take(1), 0) == (1 * chs[0].1) % group_order());
            assert(chal_prod(chs.take(1), 1) == (1 * chs[0].0) % group_order());
            assert(scalar_nat(products@[0]) == chal_prod(chs.take(1), 0));
            assert(scalar_nat(products@[1]) == chal_prod(chs.take(1), 1));
        }
        let mut j: usize = 1;
        while j < m
            invariant
                1 <= j <= m,
                m == challenges@.len(),
                chs == chal_view(challenges@),
                pow2(m as nat) == size,
                size <= usize::MAX,
                products@.len() == size,
                pow2(j as nat) <= size,
                forall|i: int|
                    0 <= i < pow2(j as nat) ==> scalar_nat(#[trigger] products@[i]) == chal_prod(
                        chs.take(j as int),
                        i,
                    ),
            decreases m - j,
        {
            proof {
                if ((j + 1) as nat) < (m as nat) {
                    lemma_pow2_strictly_increases((j + 1) as nat, m as nat);
                }
                lemma_pow2_unfold((j + 1) as nat);
            }
            let ghost prev = products@;
            let e = challenges[j].0;
            let inv_e = challenges[j].1;
            let mut k: usize = {
                let p = checked_pow2(j);
                match p {
                    Some(v) => v,
                    None => {
                        proof {
                            assert(false);
                        }
                        unreached()
                    }
                }
            };
            proof {
                lemma_pow2_strictly_increases(j as nat, (j + 1) as nat);
            }
            while k > 0
                invariant
                    k <= pow2(j as nat),
                    j < m,
                    m == challenges@.len(),
                    chs == chal_view(challenges@),
                    e == challenges@[j as int].0,
                    inv_e == challenges@[j as int].1,
                    products@.len() == size,
                    pow2((j + 1) as nat) == 2 * pow2(j as nat),
                    pow2((j + 1) as nat) <= size,
                    prev.len() == size,
                    forall|i: int| 0 <= i < 2 * k ==> #[trigger] products@[i] == prev[i],
                    forall|i: int|
                        0 <= i < pow2(j as nat) ==> scalar_nat(#[trigger] prev[i]) == chal_prod(
                            chs.take(j as int),
                            i,
                        ),
                    forall|i: int|
                        2 * k <= i < pow2((j + 1) as nat) ==> scalar_nat(#[trigger] products@[i])
                            == chal_prod(chs.take(j + 1), i),
                decreases k,
            {
                let s = 2 * k - 1;
                let base = products[s / 2];
                products[s] = fq_mul(&base, &e);
                products[s - 1] = fq_mul(&base, &inv_e);
                proof {
                    assert(s / 2 == k - 1);
                    assert(prev[k - 1] == base);
                    assert(chs.take(j + 1).drop_last() =~= chs.take(j as int));
                    assert(chs.take(j + 1).last() == chs[j as int]);
                    assert(chs[j as int].0 == scalar_nat(challenges@[j as int].0));
                    assert(scalar_nat(products@[s as int]) == chal_prod(chs.take(j + 1), s as int));
                    assert(scalar_nat(products@[s - 1]) == chal_prod(chs.take(j + 1), s - 1));
                }
                k -= 1;
            }
            j += 1;
        }
        proof {
            assert(chs.take(m as int) =~= chs);
        }
    } else {
        proof {
            lemma2_to64();
        }
    }
    products
}

} // verus!
