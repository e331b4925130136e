use vstd::prelude::*;
use crate::group_order;
use crate::scalars::{scalar_nat, svals, inv_mod, lemma_inv_mod_is, fq_add, fq_mul, fq_is_zero,
    fq_invert, fq_random};
use crate::points::{point_dlog, pvals, point_eq};
use crate::msm::{msm_nat, ip_nat, terms_view, lemma_terms_view_push, multiexp, inner_product, P};
use crate::folding::{mid_len, fold_seq, copy_vec, split_vector_in_half, fold_scalars, fold_points};
use crate::transcript::Transcript;
use crate::wip::{WipWitness, WipProof, WipError, Blinds, proof_view, srows, prows,
    pairs, row_pairs, num_rounds, dims_ok, commit_terms, ProverRound, prover_step, prover_rounds,
    prover_close, prove_spec};

verus! {

pub proof fn lemma_svals_take(s: Seq<pasta_curves::Fq>, k: int)
    requires
        0 <= k <= s.len(),
    ensures
        svals(s.take(k)) == svals(s).take(k),
{
    assert(svals(s.take(k)) =~= svals(s).take(k));
}

pub proof fn lemma_svals_skip(s: Seq<pasta_curves::Fq>, k: int)
    requires
        0 <= k <= s.len(),
    ensures
        svals(s.skip(k)) == svals(s).skip(k),
{
    assert(svals(s.skip(k)) =~= svals(s).skip(k));
}

pub proof fn lemma_pvals_take(s: Seq<pasta_curves::Ep>, k: int)
    requires
        0 <= k <= s.len(),
    ensures
        pvals(s.take(k)) == pvals(s).take(k),
{
    assert(pvals(s.take(k)) =~= pvals(s).take(k));
}

pub proof fn lemma_pvals_skip(s: Seq<pasta_curves::Ep>, k: int)
    requires
        0 <= k <= s.len(),
    ensures
        pvals(s.skip(k)) == pvals(s).skip(k),
{
    assert(pvals(s.skip(k)) =~= pvals(s).skip(k));
}

/// Splits every row of a matrix in half, the extra element of an odd row
/// going left.
#[verifier::loop_isolation(false)]
pub fn split_rows<T: Copy>(rows: &Vec<Vec<T>>) -> (r: (Vec<Vec<T>>, Vec<Vec<T>>))
    ensures
        r.0@.len() == rows@.len(),
        r.1@.len() == rows@.len(),
        forall|i: int|
            0 <= i < rows@.len() ==> (#[trigger] r.0@[i])@ == rows@[i]@.take(
                mid_len(rows@[i]@.len()) as int,
            ),
        forall|i: int|
            0 <= i < rows@.len() ==> (#[trigger] r.1@[i])@ == rows@[i]@.skip(
                mid_len(rows@[i]@.len()) as int,
            ),
{
    let mut left: Vec<Vec<T>> = Vec::new();
    let mut right: Vec<Vec<T>> = Vec::new();
    let mut i: usize = 0;
    while i < rows.len()
        invariant
            i <= rows@.len(),
            left@.len() == i,
            right@.len() == i,
            forall|d: int|
                0 <= d < i ==> (#[trigger] left@[d])@ == rows@[d]@.take(
                    mid_len(rows@[d]@.len()) as int,
                ),
            forall|d: int|
                0 <= d < i ==> (#[trigger] right@[d])@ == rows@[d]@.skip(
                    mid_len(rows@[d]@.len()) as int,
                ),
        decreases rows@.len() - i,
    {
        let (l, r) = split_vector_in_half(copy_vec(&rows[i]));
        left.push(l);
        right.push(r);
        i += 1;
    }
    (left, right)
}

/// The inner product of one vector against every row of a matrix.
#[verifier::loop_isolation(false)]
pub fn cross_products(x: &Vec<pasta_curves::Fq>, rows: &Vec<Vec<pasta_curves::Fq>>) -> (r: Vec<
    pasta_curves::Fq,
>)
    requires
        forall|i: int| 0 <= i < rows@.len() ==> (#[trigger] rows@[i])@.len() == x@.len(),
    ensures
        r@.len() == rows@.len(),
        forall|i: int|
            0 <= i < rows@.len() ==> scalar_nat(#[trigger] r@[i]) == ip_nat(
                svals(x@),
                svals(rows@[i]@),
            ),
{
    let mut out: Vec<pasta_curves::Fq> = Vec::new();
    let mut i: usize = 0;
    while i < rows.len()
        invariant
            i <= rows@.len(),
            out@.len() == i,
            forall|d: int|
                0 <= d < i ==> scalar_nat(#[trigger] out@[d]) == ip_nat(
                    svals(x@),
                    svals(rows@[d]@),
                ),
        decreases rows@.len() - i,
    {
        out.push(inner_product(x, &rows[i]));
        i += 1;
    }
    out
}

/// Folds the rows of two scalar matrices pairwise.
#[verifier::loop_isolation(false)]
pub fn fold_scalar_rows(
    x: &Vec<Vec<pasta_curves::Fq>>,
    y: &Vec<Vec<pasta_curves::Fq>>,
    c1: &pasta_curves::Fq,
    c2: &pasta_curves::Fq,
) -> (r: Vec<Vec<pasta_curves::Fq>>)
    requires
        x@.len() == y@.len(),
        forall|i: int| 0 <= i < x@.len() ==> (#[trigger] x@[i])@.len() == (#[trigger] y@[i])@.len(),
    ensures
        r@.len() == x@.len(),
        forall|i: int|
            0 <= i < x@.len() ==> svals((#[trigger] r@[i])@) == fold_seq(
                svals(x@[i]@),
                svals(y@[i]@),
                scalar_nat(*c1),
                scalar_nat(*c2),
            ),
{
    let mut out: Vec<Vec<pasta_curves::Fq>> = Vec::new();
    let mut i: usize = 0;
    while i < x.len()
        invariant
            i <= x@.len(),
            out@.len() == i,
            forall|d: int|
                0 <= d < i ==> svals((#[trigger] out@[d])@) == fold_seq(
                    svals(x@[d]@),
                    svals(y@[d]@),
                    scalar_nat(*c1),
                    scalar_nat(*c2),
                ),
        decreases x@.len() - i,
    {
        out.push(fold_scalars(&x[i], &y[i], c1, c2));
        i += 1;
    }
    out
}

/// Folds the rows of two point matrices pairwise.
#[verifier::loop_isolation(false)]
pub fn fold_point_rows(
    x: &Vec<Vec<pasta_curves::Ep>>,
    y: &Vec<Vec<pasta_curves::Ep>>,
    c1: &pasta_curves::Fq,
    c2: &pasta_curves::Fq,
) -> (r: Vec<Vec<pasta_curves::Ep>>)
    requires
        x@.len() == y@.len(),
        forall|i: int| 0 <= i < x@.len() ==> (#[trigger] x@[i])@.len() == (#[trigger] y@[i])@.len(),
    ensures
        r@.len() == x@.len(),
        forall|i: int|
            0 <= i < x@.len() ==> pvals((#[trigger] r@[i])@) == fold_seq(
                pvals(x@[i]@),
                pvals(y@[i]@),
                scalar_nat(*c1),
                scalar_nat(*c2),
            ),
{
    let mut out: Vec<Vec<pasta_curves::Ep>> = Vec::new();
    let mut i: usize = 0;
    while i < x.len()
        invariant
            i <= x@.len(),
            out@.len() == i,
            forall|d: int|
                0 <= d < i ==> pvals((#[trigger] out@[d])@) == fold_seq(
                    pvals(x@[d]@),
                    pvals(y@[d]@),
                    scalar_nat(*c1),
                    scalar_nat(*c2),
                ),
        decreases x@.len() - i,
    {
        out.push(fold_points(&x[i], &y[i], c1, c2));
        i += 1;
    }
    out
}

/// The term list of one cross commitment: one half of the witness against the
/// opposite generator half, the cross inner products against the per-row
/// generators, the blind against the blinding generator, and each weight-row
/// half against the opposite generator-row half.
#[verifier::loop_isolation(false)]
pub fn lr_terms(
    x: &Vec<pasta_curves::Fq>,
    gx: &Vec<pasta_curves::Ep>,
    c: &Vec<pasta_curves::Fq>,
    gg: &Vec<pasta_curves::Ep>,
    d: &pasta_curves::Fq,
    gh: &pasta_curves::Ep,
    brows: &Vec<Vec<pasta_curves::Fq>>,
    hrows: &Vec<Vec<pasta_curves::Ep>>,
) -> (out: Vec<(pasta_curves::Fq, pasta_curves::Ep)>)
    requires
        x@.len() == gx@.len(),
        c@.len() == gg@.len(),
        brows@.len() == hrows@.len(),
        forall|i: int|
            0 <= i < brows@.len() ==> (#[trigger] brows@[i])@.len() == (
            #[trigger] hrows@[i])@.len(),
    ensures
        terms_view(out@) == pairs(svals(x@), pvals(gx@)) + pairs(svals(c@), pvals(gg@)) + seq![
            (scalar_nat(*d), point_dlog(*gh)),
        ] + row_pairs(srows(brows@), prows(hrows@)),
{
    let mut out: Vec<(pasta_curves::Fq, pasta_curves::Ep)> = Vec::new();
    let mut i: usize = 0;
    while i < x.len()
        invariant
            i <= x@.len(),
            terms_view(out@) == pairs(svals(x@), pvals(gx@)).take(i as int),
        decreases x@.len() - i,
    {
        let ghost before = out@;
        let entry = (x[i], gx[i]);
        out.push(entry);
        proof {
            lemma_terms_view_push(before, entry);
            assert(terms_view(out@) =~= pairs(svals(x@), pvals(gx@)).take(i + 1));
        }
        i += 1;
    }
    let ghost part1 = pairs(svals(x@), pvals(gx@));
    proof {
        assert(part1.take(x@.len() as int) =~= part1);
    }
    let mut i: usize = 0;
    while i < c.len()
        invariant
            i <= c@.len(),
            terms_view(out@) == part1 + pairs(svals(c@), pvals(gg@)).take(i as int),
        decreases c@.len() - i,
    {
        let ghost before = out@;
        let entry = (c[i], gg[i]);
        out.push(entry);
        proof {
            lemma_terms_view_push(before, entry);
            assert(terms_view(out@) =~= part1 + pairs(svals(c@), pvals(gg@)).take(i + 1));
        }
        i += 1;
    }
    let ghost part2 = part1 + pairs(svals(c@), pvals(gg@));
    proof {
        assert(part1 + pairs(svals(c@), pvals(gg@)).take(c@.len() as int) =~= part2);
    }
    let ghost before = out@;
    let entry = (*d, *gh);
    out.push(entry);
    let ghost part3 = part2 + seq![(scalar_nat(*d), point_dlog(*gh))];
    proof {
        lemma_terms_view_push(before, entry);
        assert(terms_view(out@) =~= part3);
    }
    let mut row: usize = 0;
    while row < brows.len()
        invariant
            row <= brows@.len(),
            terms_view(out@) == part3 + row_pairs(
                srows(brows@).take(row as int),
                prows(hrows@).take(row as int),
            ),
        decreases brows@.len() - row,
    {
        let ghost part4 = part3 + row_pairs(
            srows(brows@).take(row as int),
            prows(hrows@).take(row as int),
        );
        let ghost rowterms = pairs(svals(brows@[row as int]@), pvals(hrows@[row as int]@));
        let cols = brows[row].len();
        let mut j: usize = 0;
        while j < cols
            invariant
                j <= cols,
                row < brows@.len(),
                cols == brows@[row as int]@.len(),
                cols == hrows@[row as int]@.len(),
                terms_view(out@) == part4 + rowterms.take(j as int),
            decreases cols - j,
        {
            let ghost before = out@;
            let entry = (brows[row][j], hrows[row][j]);
            out.push(entry);
            proof {
                lemma_terms_view_push(before, entry);
                assert(rowterms[j as int] == (
                    scalar_nat(brows@[row as int]@[j as int]),
                    point_dlog(hrows@[row as int]@[j as int]),
                ));
                assert(terms_view(out@) =~= part4 + rowterms.take(j + 1));
            }
            j += 1;
        }
        proof {
            assert(part4 + rowterms.take(cols as int) =~= part4 + rowterms);
            let sb = srows(brows@);
            let ph = prows(hrows@);
            assert(sb.take(row + 1).drop_last() =~= sb.take(row as int));
            assert(ph.take(row + 1).drop_last() =~= ph.take(row as int));
            assert(sb.take(row + 1).last() == sb[row as int]);
            assert(ph.take(row + 1).last() == ph[row as int]);
            assert(sb[row as int] == svals(brows@[row as int]@));
            assert(ph[row as int] == pvals(hrows@[row as int]@));
            assert(row_pairs(sb.take(row + 1), ph.take(row + 1)) == row_pairs(
                sb.take(row as int),
                ph.take(row as int),
            ) + rowterms);
            assert(terms_view(out@) == part3 + row_pairs(sb.take(row + 1), ph.take(row + 1)));
        }
        row += 1;
    }
    proof {
        let sb = srows(brows@);
        let ph = prows(hrows@);
        assert(sb.take(brows@.len() as int) =~= sb);
        assert(ph.take(brows@.len() as int) =~= ph);
    }
    out
}

/// The term list of the opening relation of a commitment.
#[verifier::loop_isolation(false)]
pub fn commitment_terms(
    a: &Vec<pasta_curves::Fq>,
    b: &Vec<Vec<pasta_curves::Fq>>,
    g: &Vec<pasta_curves::Ep>,
    h: &Vec<Vec<pasta_curves::Ep>>,
    gg: &Vec<pasta_curves::Ep>,
    gh: &pasta_curves::Ep,
    alpha: &pasta_curves::Fq,
) -> (out: Vec<(pasta_curves::Fq, pasta_curves::Ep)>)
    requires
        a@.len() == g@.len(),
        b@.len() == h@.len(),
        b@.len() == gg@.len(),
        forall|i: int| 0 <= i < b@.len() ==> (#[trigger] b@[i])@.len() == a@.len(),
        forall|i: int| 0 <= i < h@.len() ==> (#[trigger] h@[i])@.len() == a@.len(),
    ensures
        terms_view(out@) == commit_terms(
            svals(a@),
            srows(b@),
            pvals(g@),
            prows(h@),
            pvals(gg@),
            point_dlog(*gh),
            scalar_nat(*alpha),
        ),
{
    let ips = cross_products(a, b);
    let terms = lr_terms(a, g, &ips, gg, alpha, gh, b, h);
    proof {
        let ipspec = Seq::new(srows(b@).len(), |row: int| ip_nat(svals(a@), srows(b@)[row]));
        assert(svals(ips@) =~= ipspec);
        assert(pairs(svals(ips@), pvals(gg@)) == pairs(ipspec, pvals(gg@)));
        assert(terms_view(terms@) =~= commit_terms(
            svals(a@),
            srows(b@),
            pvals(g@),
            prows(h@),
            pvals(gg@),
            point_dlog(*gh),
            scalar_nat(*alpha),
        ));
    }
    terms
}

/// One folding round of the prover, in place: splits the working vectors,
/// commits to the cross terms, absorbs them, and folds by the squeezed
/// challenge.  Returns false, leaving the protocol aborted, exactly when the
/// challenge is zero.
#[verifier::loop_isolation(false)]
#[verifier::rlimit(100)]
fn prove_round<T: Transcript>(
    transcript: &mut T,
    a: &mut Vec<pasta_curves::Fq>,
    b: &mut Vec<Vec<pasta_curves::Fq>>,
    g_bold: &mut Vec<pasta_curves::Ep>,
    h_bold: &mut Vec<Vec<pasta_curves::Ep>>,
    alpha: &mut pasta_curves::Fq,
    l_vec: &mut Vec<pasta_curves::Ep>,
    r_vec: &mut Vec<pasta_curves::Ep>,
    dl: &pasta_curves::Fq,
    dr: &pasta_curves::Fq,
    generator_g: &Vec<pasta_curves::Ep>,
    generator_h: &pasta_curves::Ep,
) -> (ok: bool)
    requires
        old(a)@.len() == old(g_bold)@.len(),
        old(a)@.len() >= 2,
        old(a)@.len() % 2 == 0,
        old(b)@.len() == old(h_bold)@.len(),
        old(b)@.len() == generator_g@.len(),
        forall|i: int| 0 <= i < old(b)@.len() ==> (#[trigger] old(b)@[i])@.len() == old(a)@.len(),
        forall|i: int|
            0 <= i < old(h_bold)@.len() ==> (#[trigger] old(h_bold)@[i])@.len() == old(a)@.len(),
    ensures
        ({
            let st_prev = ProverRound {
                a: svals(old(a)@),
                b: srows(old(b)@),
                g: pvals(old(g_bold)@),
                h: prows(old(h_bold)@),
                alpha: scalar_nat(*old(alpha)),
                ts: old(transcript).state(),
                ls: pvals(old(l_vec)@),
                rs: pvals(old(r_vec)@),
            };
            let stepped = prover_step::<T>(
                st_prev,
                scalar_nat(*dl),
                scalar_nat(*dr),
                pvals(generator_g@),
                point_dlog(*generator_h),
            );
            &&& (ok <==> stepped is Some)
            &&& ok ==> stepped.unwrap() == (ProverRound {
                a: svals(final(a)@),
                b: srows(final(b)@),
                g: pvals(final(g_bold)@),
                h: prows(final(h_bold)@),
                alpha: scalar_nat(*final(alpha)),
                ts: final(transcript).state(),
                ls: pvals(final(l_vec)@),
                rs: pvals(final(r_vec)@),
            })
            &&& ok ==> final(a)@.len() == mid_len(old(a)@.len())
            &&& ok ==> final(g_bold)@.len() == final(a)@.len()
            &&& ok ==> final(b)@.len() == old(b)@.len()
            &&& ok ==> final(h_bold)@.len() == old(b)@.len()
            &&& ok ==> (forall|i: int|
                0 <= i < final(b)@.len() ==> (#[trigger] final(b)@[i])@.len() == final(a)@.len())
            &&& ok ==> (forall|i: int|
                0 <= i < final(h_bold)@.len() ==> (#[trigger] final(h_bold)@[i])@.len()
                    == final(a)@.len())
            &&& ok ==> final(l_vec)@.len() == old(l_vec)@.len() + 1
            &&& ok ==> final(r_vec)@.len() == old(r_vec)@.len() + 1
        }),
{
    let ghost st_prev = ProverRound {
        a: svals(a@),
        b: srows(b@),
        g: pvals(g_bold@),
        h: prows(h_bold@),
        alpha: scalar_nat(*alpha),
        ts: transcript.state(),
        ls: pvals(l_vec@),
        rs: pvals(r_vec@),
    };
    let ghost avec = a@;
    let ghost bvec = b@;
    let ghost gvec = g_bold@;
    let ghost hvec = h_bold@;
    let ghost ggv = pvals(generator_g@);
    let ghost ghv = point_dlog(*generator_h);
    let ghost k = b@.len();
    let ghost mid = mid_len(st_prev.a.len()) as int;
    let (a1, a2) = split_vector_in_half(copy_vec(a));
    let (g1, g2) = split_vector_in_half(copy_vec(g_bold));
    let (b1, b2) = split_rows(b);
    let (h1, h2) = split_rows(h_bold);
    proof {
        lemma_svals_take(avec, mid);
        lemma_svals_skip(avec, mid);
        lemma_pvals_take(gvec, mid);
        lemma_pvals_skip(gvec, mid);
        assert(svals(a1@) == st_prev.a.take(mid));
        assert(svals(a2@) == st_prev.a.skip(mid));
        assert(pvals(g1@) == st_prev.g.take(mid));
        assert(pvals(g2@) == st_prev.g.skip(mid));
        assert forall|i: int| 0 <= i < k implies svals((#[trigger] b1@[i])@) == st_prev.b.map(
            |d: int, r: Seq<nat>| r.take(mid),
        )[i] by {
            assert(st_prev.b[i] == svals(bvec[i]@));
            lemma_svals_take(bvec[i]@, mid);
            assert(b1@[i]@ == bvec[i]@.take(mid));
        }
        assert forall|i: int| 0 <= i < k implies svals((#[trigger] b2@[i])@) == st_prev.b.map(
            |d: int, r: Seq<nat>| r.skip(mid),
        )[i] by {
            assert(st_prev.b[i] == svals(bvec[i]@));
            lemma_svals_skip(bvec[i]@, mid);
            assert(b2@[i]@ == bvec[i]@.skip(mid));
        }
        assert forall|i: int| 0 <= i < k implies pvals((#[trigger] h1@[i])@) == st_prev.h.map(
            |d: int, r: Seq<nat>| r.take(mid),
        )[i] by {
            assert(st_prev.h[i] == pvals(hvec[i]@));
            lemma_pvals_take(hvec[i]@, mid);
            assert(h1@[i]@ == hvec[i]@.take(mid));
        }
        assert forall|i: int| 0 <= i < k implies pvals((#[trigger] h2@[i])@) == st_prev.h.map(
            |d: int, r: Seq<nat>| r.skip(mid),
        )[i] by {
            assert(st_prev.h[i] == pvals(hvec[i]@));
            lemma_pvals_skip(hvec[i]@, mid);
            assert(h2@[i]@ == hvec[i]@.skip(mid));
        }
    }
    let c_l = cross_products(&a1, &b2);
    let c_r = cross_products(&a2, &b1);
    let ghost b1v = st_prev.b.map(|d: int, r: Seq<nat>| r.take(mid));
    let ghost b2v = st_prev.b.map(|d: int, r: Seq<nat>| r.skip(mid));
    let ghost h1v = st_prev.h.map(|d: int, r: Seq<nat>| r.take(mid));
    let ghost h2v = st_prev.h.map(|d: int, r: Seq<nat>| r.skip(mid));
    let ghost clv = Seq::new(st_prev.b.len(), |r: int| ip_nat(st_prev.a.take(mid), b2v[r]));
    let ghost crv = Seq::new(st_prev.b.len(), |r: int| ip_nat(st_prev.a.skip(mid), b1v[r]));
    proof {
        assert(svals(c_l@) =~= clv);
        assert(svals(c_r@) =~= crv);
        assert(srows(b1@) =~= b1v);
        assert(srows(b2@) =~= b2v);
        assert(prows(h1@) =~= h1v);
        assert(prows(h2@) =~= h2v);
    }
    let l_terms = lr_terms(&a1, &g2, &c_l, generator_g, dl, generator_h, &b2, &h1);
    let l_point = multiexp(&P::Terms(l_terms));
    let r_terms = lr_terms(&a2, &g1, &c_r, generator_g, dr, generator_h, &b1, &h2);
    let r_point = multiexp(&P::Terms(r_terms));
    let ghost dlv = scalar_nat(*dl);
    let ghost drv = scalar_nat(*dr);
    let ghost lv = msm_nat(
        pairs(st_prev.a.take(mid), st_prev.g.skip(mid)) + pairs(clv, ggv) + seq![(dlv, ghv)]
            + row_pairs(b2v, h1v),
    );
    let ghost rvv = msm_nat(
        pairs(st_prev.a.skip(mid), st_prev.g.take(mid)) + pairs(crv, ggv) + seq![(drv, ghv)]
            + row_pairs(b1v, h2v),
    );
    proof {
        assert(point_dlog(l_point) == lv);
        assert(point_dlog(r_point) == rvv);
    }
    l_vec.push(l_point);
    r_vec.push(r_point);
    transcript.write_point(&l_point);
    transcript.write_point(&r_point);
    let e = transcript.squeeze_challenge();
    proof {
        assert(transcript.state() == T::after_squeeze(st_prev.ts.push(lv).push(rvv)));
        assert(scalar_nat(e) == T::challenge_at(st_prev.ts.push(lv).push(rvv)));
    }
    if fq_is_zero(&e) {
        proof {
            assert(prover_step::<T>(st_prev, dlv, drv, ggv, ghv) is None);
        }
        return false;
    }
    let inv_e = match fq_invert(&e) {
        Some(x) => x,
        None => {
            proof {
                assert(false);
            }
            unreached()
        },
    };
    proof {
        lemma_inv_mod_is(scalar_nat(e), scalar_nat(inv_e));
    }
    let e_sq = fq_mul(&e, &e);
    let inv_e_sq = fq_mul(&inv_e, &inv_e);
    *g_bold = fold_points(&g1, &g2, &inv_e, &e);
    *h_bold = fold_point_rows(&h1, &h2, &e, &inv_e);
    *a = fold_scalars(&a1, &a2, &e, &inv_e);
    *b = fold_scalar_rows(&b1, &b2, &inv_e, &e);
    *alpha = fq_add(&*alpha, &fq_add(&fq_mul(dl, &e_sq), &fq_mul(dr, &inv_e_sq)));
    proof {
        let ev = scalar_nat(e);
        let iev = inv_mod(ev);
        assert(scalar_nat(inv_e) == iev);
        let stepped = prover_step::<T>(st_prev, dlv, drv, ggv, ghv);
        assert(stepped is Some);
        let st_next = stepped.unwrap();
        assert(svals(a@) == st_next.a);
        assert(srows(b@) =~= st_next.b);
        assert(pvals(g_bold@) == st_next.g);
        assert(prows(h_bold@) =~= st_next.h);
        assert(scalar_nat(*alpha) == st_next.alpha);
        assert(pvals(l_vec@) =~= st_next.ls);
        assert(pvals(r_vec@) =~= st_next.rs);
        assert(transcript.state() == st_next.ts);
        assert forall|i: int| 0 <= i < b@.len() implies (#[trigger] b@[i])@.len() == a@.len() by {
            assert(srows(b@)[i] == svals(b@[i]@));
            assert(st_next.b[i].len() == mid_len(st_prev.a.len()));
        }
        assert forall|i: int|
            0 <= i < h_bold@.len() implies (#[trigger] h_bold@[i])@.len() == a@.len() by {
            assert(prows(h_bold@)[i] == pvals(h_bold@[i]@));
            assert(st_next.h[i].len() == mid_len(st_prev.a.len()));
        }
    }
    true
}

/// The closing step of the prover once a single element is left: commit to
/// the final blinds, absorb the two commitments, squeeze the closing
/// challenge, and answer.  `Err(ZeroChallenge)` exactly when that challenge
/// is zero.
#[verifier::loop_isolation(false)]
#[verifier::rlimit(100)]
fn prove_close_exec<T: Transcript>(
    transcript: &mut T,
    a: &Vec<pasta_curves::Fq>,
    b: &Vec<Vec<pasta_curves::Fq>>,
    g_bold: &Vec<pasta_curves::Ep>,
    h_bold: &Vec<Vec<pasta_curves::Ep>>,
    alpha: &pasta_curves::Fq,
    l_vec: Vec<pasta_curves::Ep>,
    r_vec: Vec<pasta_curves::Ep>,
    blinds: &Blinds,
    generator_g: &Vec<pasta_curves::Ep>,
    generator_h: &pasta_curves::Ep,
) -> (res: Result<WipProof, WipError>)
    requires
        a@.len() == 1,
        g_bold@.len() == 1,
        b@.len() == h_bold@.len(),
        b@.len() == generator_g@.len(),
        b@.len() == blinds.s@.len(),
        forall|i: int| 0 <= i < b@.len() ==> (#[trigger] b@[i])@.len() == 1,
        forall|i: int| 0 <= i < h_bold@.len() ==> (#[trigger] h_bold@[i])@.len() == 1,
    ensures
        ({
            let st_fin = ProverRound {
                a: svals(a@),
                b: srows(b@),
                g: pvals(g_bold@),
                h: prows(h_bold@),
                alpha: scalar_nat(*alpha),
                ts: old(transcript).state(),
                ls: pvals(l_vec@),
                rs: pvals(r_vec@),
            };
            let closed = prover_close::<T>(
                st_fin,
                scalar_nat(blinds.r),
                svals(blinds.s@),
                scalar_nat(blinds.delta),
                scalar_nat(blinds.tau),
                pvals(generator_g@),
                point_dlog(*generator_h),
            );
            match res {
                Ok(pr) => {
                    &&& closed is Some
                    &&& proof_view(pr) == closed.unwrap().0
                    &&& final(transcript).state() == closed.unwrap().1
                },
                Err(err) => {
                    &&& err == WipError::ZeroChallenge
                    &&& closed is None
                },
            }
        }),
{
    let ghost st_fin = ProverRound {
        a: svals(a@),
        b: srows(b@),
        g: pvals(g_bold@),
        h: prows(h_bold@),
        alpha: scalar_nat(*alpha),
        ts: transcript.state(),
        ls: pvals(l_vec@),
        rs: pvals(r_vec@),
    };
    let ghost ggv = pvals(generator_g@);
    let ghost ghv = point_dlog(*generator_h);
    let ghost rv = scalar_nat(blinds.r);
    let ghost sv = svals(blinds.s@);
    let ghost deltav = scalar_nat(blinds.delta);
    let ghost tauv = scalar_nat(blinds.tau);
    let k = b.len();
    let ghost hcol = Seq::new(k as nat, |r: int| st_fin.h[r][0]);
    let ghost gcoef = Seq::new(
        k as nat,
        |r: int| ((rv * st_fin.b[r][0]) % group_order() + (sv[r] * st_fin.a[0]) % group_order())
            % group_order(),
    );
    let mut a_terms: Vec<(pasta_curves::Fq, pasta_curves::Ep)> = Vec::new();
    a_terms.push((blinds.r, g_bold[0]));
    a_terms.push((blinds.delta, *generator_h));
    proof {
        assert(terms_view(a_terms@) =~= seq![(rv, st_fin.g[0]), (deltav, ghv)]);
    }
    let ghost heada = seq![(rv, st_fin.g[0]), (deltav, ghv)];
    let mut row: usize = 0;
    while row < k
        invariant
            row <= k,
            terms_view(a_terms@) == heada + pairs(sv, hcol).take(row as int),
        decreases k - row,
    {
        let ghost before = a_terms@;
        let entry = (blinds.s[row], h_bold[row][0]);
        a_terms.push(entry);
        proof {
            lemma_terms_view_push(before, entry);
            assert(sv[row as int] == scalar_nat(blinds.s@[row as int]));
            assert(st_fin.h[row as int] == pvals(h_bold@[row as int]@));
            assert(hcol[row as int] == point_dlog(h_bold@[row as int]@[0]));
            assert(terms_view(a_terms@) =~= heada + pairs(sv, hcol).take(row + 1));
        }
        row += 1;
    }
    let ghost heada2 = heada + pairs(sv, hcol);
    proof {
        assert(heada + pairs(sv, hcol).take(k as int) =~= heada2);
    }
    let mut row: usize = 0;
    while row < k
        invariant
            row <= k,
            terms_view(a_terms@) == heada2 + pairs(gcoef, ggv).take(row as int),
        decreases k - row,
    {
        let ghost before = a_terms@;
        let coef = fq_add(&fq_mul(&blinds.r, &b[row][0]), &fq_mul(&blinds.s[row], &a[0]));
        let entry = (coef, generator_g[row]);
        a_terms.push(entry);
        proof {
            lemma_terms_view_push(before, entry);
            assert(st_fin.b[row as int] == svals(b@[row as int]@));
            assert(st_fin.b[row as int][0] == scalar_nat(b@[row as int]@[0]));
            assert(st_fin.a[0] == scalar_nat(a@[0]));
            assert(sv[row as int] == scalar_nat(blinds.s@[row as int]));
            assert(scalar_nat(coef) == gcoef[row as int]);
            assert(ggv[row as int] == point_dlog(generator_g@[row as int]));
            assert(terms_view(a_terms@) =~= heada2 + pairs(gcoef, ggv).take(row + 1));
        }
        row += 1;
    }
    proof {
        assert(heada2 + pairs(gcoef, ggv).take(k as int) =~= heada2 + pairs(gcoef, ggv));
    }
    let a_point = multiexp(&P::Terms(a_terms));
    let ghost av_spec = msm_nat(heada + pairs(sv, hcol) + pairs(gcoef, ggv));
    proof {
        assert(heada2 + pairs(gcoef, ggv) =~= heada + pairs(sv, hcol) + pairs(gcoef, ggv));
        assert(point_dlog(a_point) == av_spec);
    }

    let ghost bcoef = Seq::new(k as nat, |r: int| (rv * sv[r]) % group_order());
    let mut b_terms: Vec<(pasta_curves::Fq, pasta_curves::Ep)> = Vec::new();
    b_terms.push((blinds.tau, *generator_h));
    proof {
        assert(terms_view(b_terms@) =~= seq![(tauv, ghv)]);
    }
    let ghost headb = seq![(tauv, ghv)];
    let mut row: usize = 0;
    while row < k
        invariant
            row <= k,
            terms_view(b_terms@) == headb + pairs(bcoef, ggv).take(row as int),
        decreases k - row,
    {
        let ghost before = b_terms@;
        let entry = (fq_mul(&blinds.r, &blinds.s[row]), generator_g[row]);
        b_terms.push(entry);
        proof {
            lemma_terms_view_push(before, entry);
            assert(sv[row as int] == scalar_nat(blinds.s@[row as int]));
            assert(bcoef[row as int] == (rv * sv[row as int]) % group_order());
            assert(ggv[row as int] == point_dlog(generator_g@[row as int]));
            assert(terms_view(b_terms@) =~= headb + pairs(bcoef, ggv).take(row + 1));
        }
        row += 1;
    }
    proof {
        assert(headb + pairs(bcoef, ggv).take(k as int) =~= headb + pairs(bcoef, ggv));
    }
    let b_point = multiexp(&P::Terms(b_terms));
    let ghost bv_spec = msm_nat(headb + pairs(bcoef, ggv));
    proof {
        assert(point_dlog(b_point) == bv_spec);
    }

    transcript.write_point(&a_point);
    transcript.write_point(&b_point);
    let e2 = transcript.squeeze_challenge();
    proof {
        assert(transcript.state() == T::after_squeeze(st_fin.ts.push(av_spec).push(bv_spec)));
        assert(scalar_nat(e2) == T::challenge_at(st_fin.ts.push(av_spec).push(bv_spec)));
    }
    if fq_is_zero(&e2) {
        proof {
            assert(prover_close::<T>(st_fin, rv, sv, deltav, tauv, ggv, ghv) is None);
        }
        return Err(WipError::ZeroChallenge);
    }
    let r_answer = fq_add(&blinds.r, &fq_mul(&a[0], &e2));
    let mut s_answer: Vec<pasta_curves::Fq> = Vec::new();
    let ghost e2v = scalar_nat(e2);
    let ghost sansv = Seq::new(
        k as nat,
        |r: int| (sv[r] + (st_fin.b[r][0] * e2v) % group_order()) % group_order(),
    );
    let mut row: usize = 0;
    while row < k
        invariant
            row <= k,
            s_answer@.len() == row,
            forall|d: int| 0 <= d < row ==> scalar_nat(#[trigger] s_answer@[d]) == sansv[d],
        decreases k - row,
    {
        let entry = fq_add(&blinds.s[row], &fq_mul(&b[row][0], &e2));
        s_answer.push(entry);
        proof {
            assert(sv[row as int] == scalar_nat(blinds.s@[row as int]));
            assert(st_fin.b[row as int] == svals(b@[row as int]@));
            assert(st_fin.b[row as int][0] == scalar_nat(b@[row as int]@[0]));
            assert(scalar_nat(entry) == sansv[row as int]);
        }
        row += 1;
    }
    let e2_sq = fq_mul(&e2, &e2);
    let delta_answer = fq_add(
        &fq_add(&blinds.tau, &fq_mul(&blinds.delta, &e2)),
        &fq_mul(&alpha, &e2_sq),
    );
    let pr = WipProof { l: l_vec, r: r_vec, a_point, b_point, r_answer, s_answer, delta_answer };
    proof {
        let closed = prover_close::<T>(st_fin, rv, sv, deltav, tauv, ggv, ghv);
        assert(closed is Some);
        let (pv, tsf) = closed.unwrap();
        assert(proof_view(pr).s_answer =~= pv.s_answer);
        assert(st_fin.a[0] == scalar_nat(a@[0]));
        assert(proof_view(pr).r_answer == pv.r_answer);
        assert(proof_view(pr).delta_answer == pv.delta_answer);
        assert(proof_view(pr) == pv);
        assert(transcript.state() == tsf);
    }
    Ok(pr)
}

/// How many folding rounds a vector of the given length takes.
pub fn count_rounds(n: usize) -> (r: usize)
    ensures
        r as nat == num_rounds(n as nat),
{
    let mut c = n;
    let mut r: usize = 0;
    while c > 1
        invariant
            c <= n,
            r <= n - c,
            r + num_rounds(c as nat) == num_rounds(n as nat),
        decreases c,
    {
        proof {
            assert(num_rounds(c as nat) == 1 + num_rounds(mid_len(c as nat)));
            assert(mid_len(c as nat) == (c / 2 + c % 2) as nat);
        }
        c = c / 2 + c % 2;
        r += 1;
    }
    r
}

/// All folding rounds, in place, until a single element is left.  Returns
/// false, leaving the protocol aborted, exactly when some round's challenge
/// is zero.
#[verifier::loop_isolation(false)]
#[verifier::rlimit(100)]
fn prove_fold_loop<T: Transcript>(
    transcript: &mut T,
    a: &mut Vec<pasta_curves::Fq>,
    b: &mut Vec<Vec<pasta_curves::Fq>>,
    g_bold: &mut Vec<pasta_curves::Ep>,
    h_bold: &mut Vec<Vec<pasta_curves::Ep>>,
    alpha: &mut pasta_curves::Fq,
    l_vec: &mut Vec<pasta_curves::Ep>,
    r_vec: &mut Vec<pasta_curves::Ep>,
    blinds: &Blinds,
    generator_g: &Vec<pasta_curves::Ep>,
    generator_h: &pasta_curves::Ep,
) -> (ok: bool)
    requires
        old(a)@.len() == old(g_bold)@.len(),
        old(a)@.len() >= 1,
        old(a)@.len() == vstd::arithmetic::power2::pow2(num_rounds(old(a)@.len())),
        old(b)@.len() == old(h_bold)@.len(),
        old(b)@.len() == generator_g@.len(),
        forall|i: int| 0 <= i < old(b)@.len() ==> (#[trigger] old(b)@[i])@.len() == old(a)@.len(),
        forall|i: int|
            0 <= i < old(h_bold)@.len() ==> (#[trigger] old(h_bold)@[i])@.len() == old(a)@.len(),
        old(l_vec)@.len() == 0,
        old(r_vec)@.len() == 0,
        blinds.d_l@.len() == num_rounds(old(a)@.len()),
        blinds.d_r@.len() == num_rounds(old(a)@.len()),
    ensures
        ({
            let st0 = ProverRound {
                a: svals(old(a)@),
                b: srows(old(b)@),
                g: pvals(old(g_bold)@),
                h: prows(old(h_bold)@),
                alpha: scalar_nat(*old(alpha)),
                ts: old(transcript).state(),
                ls: Seq::<nat>::empty(),
                rs: Seq::<nat>::empty(),
            };
            let rounds = prover_rounds::<T>(
                st0,
                svals(blinds.d_l@),
                svals(blinds.d_r@),
                pvals(generator_g@),
                point_dlog(*generator_h),
            );
            &&& (ok <==> rounds is Some)
            &&& ok ==> rounds.unwrap() == (ProverRound {
                a: svals(final(a)@),
                b: srows(final(b)@),
                g: pvals(final(g_bold)@),
                h: prows(final(h_bold)@),
                alpha: scalar_nat(*final(alpha)),
                ts: final(transcript).state(),
                ls: pvals(final(l_vec)@),
                rs: pvals(final(r_vec)@),
            })
            &&& ok ==> final(a)@.len() == 1
            &&& ok ==> final(g_bold)@.len() == 1
            &&& ok ==> final(b)@.len() == old(b)@.len()
            &&& ok ==> final(h_bold)@.len() == old(b)@.len()
            &&& ok ==> (forall|i: int|
                0 <= i < final(b)@.len() ==> (#[trigger] final(b)@[i])@.len() == 1)
            &&& ok ==> (forall|i: int|
                0 <= i < final(h_bold)@.len() ==> (#[trigger] final(h_bold)@[i])@.len() == 1)
        }),
{
    let ghost st0 = ProverRound {
        a: svals(a@),
        b: srows(b@),
        g: pvals(g_bold@),
        h: prows(h_bold@),
        alpha: scalar_nat(*alpha),
        ts: transcript.state(),
        ls: Seq::<nat>::empty(),
        rs: Seq::<nat>::empty(),
    };
    let ghost dls = svals(blinds.d_l@);
    let ghost drs = svals(blinds.d_r@);
    let ghost ggv = pvals(generator_g@);
    let ghost ghv = point_dlog(*generator_h);
    let ghost k = b@.len();
    let ghost n0 = a@.len();
    let rounds_total = blinds.d_l.len();
    let mut ridx: usize = 0;
    proof {
        assert(dls.skip(0) =~= dls);
        assert(drs.skip(0) =~= drs);
        assert(pvals(l_vec@) =~= Seq::<nat>::empty());
        assert(pvals(r_vec@) =~= Seq::<nat>::empty());
    }
    while g_bold.len() > 1
        invariant
            a@.len() == g_bold@.len(),
            a@.len() >= 1,
            a@.len() == vstd::arithmetic::power2::pow2(num_rounds(a@.len())),
            b@.len() == k,
            h_bold@.len() == k,
            forall|i: int| 0 <= i < k ==> (#[trigger] b@[i])@.len() == a@.len(),
            forall|i: int| 0 <= i < k ==> (#[trigger] h_bold@[i])@.len() == a@.len(),
            l_vec@.len() == ridx,
            r_vec@.len() == ridx,
            ridx <= rounds_total,
            rounds_total as nat == num_rounds(n0),
            ridx + num_rounds(a@.len()) == num_rounds(n0),
            prover_rounds::<T>(st0, dls, drs, ggv, ghv) == prover_rounds::<T>(
                ProverRound {
                    a: svals(a@),
                    b: srows(b@),
                    g: pvals(g_bold@),
                    h: prows(h_bold@),
                    alpha: scalar_nat(*alpha),
                    ts: transcript.state(),
                    ls: pvals(l_vec@),
                    rs: pvals(r_vec@),
                },
                dls.skip(ridx as int),
                drs.skip(ridx as int),
                ggv,
                ghv,
            ),
        decreases a@.len(),
    {
        let ghost st_prev = ProverRound {
            a: svals(a@),
            b: srows(b@),
            g: pvals(g_bold@),
            h: prows(h_bold@),
            alpha: scalar_nat(*alpha),
            ts: transcript.state(),
            ls: pvals(l_vec@),
            rs: pvals(r_vec@),
        };
        proof {
            let rr = num_rounds(a@.len());
            assert(rr >= 1);
            vstd::arithmetic::power2::lemma_pow2_unfold(rr);
            assert(a@.len() % 2 == 0);
            assert(ridx < num_rounds(n0));
        }
        let ok = prove_round(
            transcript,
            a,
            b,
            g_bold,
            h_bold,
            alpha,
            l_vec,
            r_vec,
            &blinds.d_l[ridx],
            &blinds.d_r[ridx],
            generator_g,
            generator_h,
        );
        proof {
            assert(dls[ridx as int] == scalar_nat(blinds.d_l@[ridx as int]));
            assert(drs[ridx as int] == scalar_nat(blinds.d_r@[ridx as int]));
            assert(dls.skip(ridx as int)[0] == dls[ridx as int]);
            assert(drs.skip(ridx as int)[0] == drs[ridx as int]);
        }
        if !ok {
            proof {
                assert(prover_rounds::<T>(st0, dls, drs, ggv, ghv) is None);
            }
            return false;
        }
        proof {
            let stepped = prover_step::<T>(
                st_prev,
                dls[ridx as int],
                drs[ridx as int],
                ggv,
                ghv,
            );
            assert(stepped is Some);
            assert(dls.skip(ridx as int).skip(1) =~= dls.skip(ridx + 1));
            assert(drs.skip(ridx as int).skip(1) =~= drs.skip(ridx + 1));
            assert(prover_rounds::<T>(st0, dls, drs, ggv, ghv) == prover_rounds::<T>(
                stepped.unwrap(),
                dls.skip(ridx + 1),
                drs.skip(ridx + 1),
                ggv,
                ghv,
            ));
            assert(num_rounds(st_prev.a.len()) == 1 + num_rounds(a@.len()));
            let rprev = num_rounds(st_prev.a.len());
            vstd::arithmetic::power2::lemma_pow2_unfold(rprev);
            assert(a@.len() == vstd::arithmetic::power2::pow2(num_rounds(a@.len())));
            assert(ridx < rounds_total);
        }
        ridx += 1;
    }
    proof {
        assert(a@.len() == 1);
    }
    true
}

/// Runs the whole folding protocol with the given blinds: splits, commits to
/// the cross terms, absorbs them, folds by the squeezed challenge, and
/// answers once a single element is left.  The proof handed back, and the
/// transcript left behind, are exactly the replay of `prove_spec` on the
/// views of the inputs, so a rerun with the same witness, generators, blinds
/// and starting transcript produces the same proof.
/// `Err(DimensionMismatch)` when the dimensions disagree (a power-of-two
/// witness length among them), `Err(CommitmentMismatch)` when an opaque
/// commitment does not open to the witness, and `Err(ZeroChallenge)` when a
/// squeezed challenge is zero.
#[verifier::loop_isolation(false)]
#[verifier::rlimit(100)]
pub fn prove_with_blinds<T: Transcript>(
    transcript: &mut T,
    witness: &WipWitness,
    generators_g: &Vec<pasta_curves::Ep>,
    generators_h: &Vec<Vec<pasta_curves::Ep>>,
    generator_g: &Vec<pasta_curves::Ep>,
    generator_h: &pasta_curves::Ep,
    p: &P,
    blinds: &Blinds,
) -> (res: Result<WipProof, WipError>)
    requires
        blinds.d_l@.len() == num_rounds(witness.a@.len()),
        blinds.d_r@.len() == num_rounds(witness.a@.len()),
        blinds.s@.len() == witness.b@.len(),
    ensures
        ({
            let av = svals(witness.a@);
            let bv = srows(witness.b@);
            let alphav = scalar_nat(witness.alpha);
            let gvv = pvals(generators_g@);
            let hvv = prows(generators_h@);
            let ggv = pvals(generator_g@);
            let ghv = point_dlog(*generator_h);
            let opens = match *p {
                P::Point(pt) => msm_nat(
                    commit_terms(av, bv, gvv, hvv, ggv, ghv, alphav),
                ) == point_dlog(pt),
                P::Terms(t) => true,
            };
            let out = prove_spec::<T>(
                av,
                bv,
                alphav,
                gvv,
                hvv,
                ggv,
                ghv,
                svals(blinds.d_l@),
                svals(blinds.d_r@),
                scalar_nat(blinds.r),
                svals(blinds.s@),
                scalar_nat(blinds.delta),
                scalar_nat(blinds.tau),
                old(transcript).state(),
            );
            match res {
                Ok(pr) => {
                    &&& dims_ok(av, bv, gvv, hvv, ggv)
                    &&& opens
                    &&& out is Some
                    &&& proof_view(pr) == out.unwrap().0
                    &&& final(transcript).state() == out.unwrap().1
                },
                Err(err) => {
                    &&& (err == WipError::DimensionMismatch <==> !dims_ok(av, bv, gvv, hvv, ggv))
                    &&& (err == WipError::CommitmentMismatch <==> dims_ok(av, bv, gvv, hvv, ggv)
                        && !opens)
                    &&& (err == WipError::ZeroChallenge <==> dims_ok(av, bv, gvv, hvv, ggv)
                        && opens && out is None)
                    &&& (err == WipError::DimensionMismatch || err == WipError::CommitmentMismatch
                        || err == WipError::ZeroChallenge)
                },
            }
        }),
{
    let ghost av = svals(witness.a@);
    let ghost bv = srows(witness.b@);
    let ghost alphav = scalar_nat(witness.alpha);
    let ghost gvv = pvals(generators_g@);
    let ghost hvv = prows(generators_h@);
    let ghost ggv = pvals(generator_g@);
    let ghost ghv = point_dlog(*generator_h);
    let ghost dls = svals(blinds.d_l@);
    let ghost drs = svals(blinds.d_r@);
    let ghost ts0 = transcript.state();

    let n0 = witness.a.len();
    let k = witness.b.len();
    if generators_g.len() != n0 || n0 == 0 || generators_h.len() != k || generator_g.len() != k {
        return Err(WipError::DimensionMismatch);
    }
    if !crate::products::is_power_of_two(n0) {
        return Err(WipError::DimensionMismatch);
    }
    let mut row: usize = 0;
    while row < k
        invariant
            row <= k,
            forall|i: int| 0 <= i < row ==> (#[trigger] bv[i]).len() == n0,
            forall|i: int| 0 <= i < row ==> (#[trigger] hvv[i]).len() == n0,
        decreases k - row,
    {
        proof {
            assert(bv[row as int] == svals(witness.b@[row as int]@));
            assert(hvv[row as int] == pvals(generators_h@[row as int]@));
        }
        if witness.b[row].len() != n0 || generators_h[row].len() != n0 {
            return Err(WipError::DimensionMismatch);
        }
        row += 1;
    }
    proof {
        assert(dims_ok(av, bv, gvv, hvv, ggv));
        assert forall|i: int| 0 <= i < k implies (#[trigger] witness.b@[i])@.len() == n0 by {
            assert(bv[i] == svals(witness.b@[i]@));
        }
        assert forall|i: int| 0 <= i < k implies (#[trigger] generators_h@[i])@.len() == n0 by {
            assert(hvv[i] == pvals(generators_h@[i]@));
        }
    }

    match p {
        P::Point(pt) => {
            let open_terms = commitment_terms(
                &witness.a,
                &witness.b,
                generators_g,
                generators_h,
                generator_g,
                generator_h,
                &witness.alpha,
            );
            let open_point = multiexp(&P::Terms(open_terms));
            if !point_eq(&open_point, pt) {
                return Err(WipError::CommitmentMismatch);
            }
        },
        P::Terms(t) => {},
    }

    let mut a = copy_vec(&witness.a);
    let mut b: Vec<Vec<pasta_curves::Fq>> = {
        let mut rowsv: Vec<Vec<pasta_curves::Fq>> = Vec::new();
        let mut i: usize = 0;
        while i < k
            invariant
                i <= k,
                rowsv@.len() == i,
                forall|d: int| 0 <= d < i ==> (#[trigger] rowsv@[d])@ == witness.b@[d]@,
            decreases k - i,
        {
            rowsv.push(copy_vec(&witness.b[i]));
            i += 1;
        }
        rowsv
    };
    let mut g_bold = copy_vec(generators_g);
    let mut h_bold: Vec<Vec<pasta_curves::Ep>> = {
        let mut rowsv: Vec<Vec<pasta_curves::Ep>> = Vec::new();
        let mut i: usize = 0;
        while i < k
            invariant
                i <= k,
                rowsv@.len() == i,
                forall|d: int| 0 <= d < i ==> (#[trigger] rowsv@[d])@ == generators_h@[d]@,
            decreases k - i,
        {
            rowsv.push(copy_vec(&generators_h[i]));
            i += 1;
        }
        rowsv
    };
    let mut alpha = witness.alpha;
    let mut l_vec: Vec<pasta_curves::Ep> = Vec::new();
    let mut r_vec: Vec<pasta_curves::Ep> = Vec::new();
    let ghost st0 = ProverRound {
        a: av,
        b: bv,
        g: gvv,
        h: hvv,
        alpha: alphav,
        ts: ts0,
        ls: Seq::<nat>::empty(),
        rs: Seq::<nat>::empty(),
    };
    proof {
        assert(srows(b@) =~= bv);
        assert(prows(h_bold@) =~= hvv);
        assert forall|i: int| 0 <= i < k implies (#[trigger] b@[i])@.len() == a@.len() by {
            assert(b@[i]@ == witness.b@[i]@);
        }
        assert forall|i: int| 0 <= i < k implies (#[trigger] h_bold@[i])@.len() == a@.len() by {
            assert(h_bold@[i]@ == generators_h@[i]@);
        }
    }
    let ok = prove_fold_loop(
        transcript,
        &mut a,
        &mut b,
        &mut g_bold,
        &mut h_bold,
        &mut alpha,
        &mut l_vec,
        &mut r_vec,
        blinds,
        generator_g,
        generator_h,
    );
    if !ok {
        return Err(WipError::ZeroChallenge);
    }
    let res = prove_close_exec(
        transcript,
        &a,
        &b,
        &g_bold,
        &h_bold,
        &alpha,
        l_vec,
        r_vec,
        blinds,
        generator_g,
        generator_h,
    );
    res
}

/// Produces a proof with fresh blinding scalars drawn from the operating
/// system's randomness: one pair per folding round and the closing blinds.
/// Which proof comes out depends on the draws; whatever they are, the result
/// is the exact replay of `prove_spec` on them, as `prove_with_blinds`
/// promises.
#[verifier::loop_isolation(false)]
pub fn prove<T: Transcript>(
    transcript: &mut T,
    witness: &WipWitness,
    generators_g: &Vec<pasta_curves::Ep>,
    generators_h: &Vec<Vec<pasta_curves::Ep>>,
    generator_g: &Vec<pasta_curves::Ep>,
    generator_h: &pasta_curves::Ep,
    p: &P,
) -> (res: Result<WipProof, WipError>)
    ensures
        ({
            let av = svals(witness.a@);
            let bv = srows(witness.b@);
            let alphav = scalar_nat(witness.alpha);
            let gvv = pvals(generators_g@);
            let hvv = prows(generators_h@);
            let ggv = pvals(generator_g@);
            let ghv = point_dlog(*generator_h);
            let opens = match *p {
                P::Point(pt) => msm_nat(
                    commit_terms(av, bv, gvv, hvv, ggv, ghv, alphav),
                ) == point_dlog(pt),
                P::Terms(t) => true,
            };
            match res {
                Ok(pr) => {
                    &&& dims_ok(av, bv, gvv, hvv, ggv)
                    &&& opens
                    &&& exists|dls: Seq<nat>, drs: Seq<nat>, rv: nat, sv: Seq<nat>, dv: nat, tv: nat|
                        {
                            let out = #[trigger] prove_spec::<T>(
                                av,
                                bv,
                                alphav,
                                gvv,
                                hvv,
                                ggv,
                                ghv,
                                dls,
                                drs,
                                rv,
                                sv,
                                dv,
                                tv,
                                old(transcript).state(),
                            );
                            &&& out is Some
                            &&& proof_view(pr) == out.unwrap().0
                            &&& final(transcript).state() == out.unwrap().1
                        }
                },
                Err(err) => {
                    &&& (err == WipError::DimensionMismatch <==> !dims_ok(av, bv, gvv, hvv, ggv))
                    &&& (err == WipError::CommitmentMismatch <==> dims_ok(av, bv, gvv, hvv, ggv)
                        && !opens)
                    &&& (err == WipError::DimensionMismatch || err == WipError::CommitmentMismatch
                        || err == WipError::ZeroChallenge)
                },
            }
        }),
{
    let rounds = count_rounds(witness.a.len());
    let k = witness.b.len();
    let mut d_l: Vec<pasta_curves::Fq> = Vec::new();
    while d_l.len() < rounds
        invariant
            d_l@.len() <= rounds,
        decreases rounds - d_l@.len(),
    {
        d_l.push(fq_random());
    }
    let mut d_r: Vec<pasta_curves::Fq> = Vec::new();
    while d_r.len() < rounds
        invariant
            d_r@.len() <= rounds,
        decreases rounds - d_r@.len(),
    {
        d_r.push(fq_random());
    }
    let mut s: Vec<pasta_curves::Fq> = Vec::new();
    while s.len() < k
        invariant
            s@.len() <= k,
        decreases k - s@.len(),
    {
        s.push(fq_random());
    }
    let blinds = Blinds {
        d_l,
        d_r,
        r: fq_random(),
        s,
        delta: fq_random(),
        tau: fq_random(),
    };
    let res = prove_with_blinds(
        transcript,
        witness,
        generators_g,
        generators_h,
        generator_g,
        generator_h,
        p,
        &blinds,
    );
    proof {
        if res is Ok {
            let out0 = prove_spec::<T>(
                svals(witness.a@),
                srows(witness.b@),
                scalar_nat(witness.alpha),
                pvals(generators_g@),
                prows(generators_h@),
                pvals(generator_g@),
                point_dlog(*generator_h),
                svals(blinds.d_l@),
                svals(blinds.d_r@),
                scalar_nat(blinds.r),
                svals(blinds.s@),
                scalar_nat(blinds.delta),
                scalar_nat(blinds.tau),
                old(transcript).state(),
            );
            assert(out0 is Some && proof_view(res.unwrap()) == out0.unwrap().0
                && transcript.state() == out0.unwrap().1);
        }
    }
    res
}

} // verus!
