use vstd::prelude::*;
use vstd::arithmetic::power2::pow2;
use vstd::arithmetic::power2::lemma2_to64;
use vstd::arithmetic::div_mod::{lemma_add_mod_noop, lemma_fundamental_div_mod,
    lemma_mod_multiples_vanish, lemma_mod_twice, lemma_mul_mod_noop_left, lemma_mul_mod_noop_right,
    lemma_small_mod};
use crate::group_order;
use crate::scalars::{scalar_nat, inv_mod, neg_mod, lemma_inv_mod_is, fq_from_u64, fq_mul, fq_neg,
    fq_is_zero, batch_invert};
use crate::points::{point_dlog, pvals, point_identity, point_eq};
use crate::msm::{msm_nat, msm_sum, lemma_msm_nat_is_sum, terms_view, multiexp, lemma_terms_view_push, lemma_terms_view_update, P};
use crate::products::{chal_prod, chal_view, checked_pow2, challenge_products};
use crate::transcript::Transcript;
use crate::wip::{WipProof, WipError, ProofView, proof_view, prows, pairs, row_pairs, commit_terms,
    prover_close, prove_spec, ProverRound};

verus! {

/// The terms a commitment target contributes to the verifier's accumulator:
/// an opaque point with coefficient one, or the term list itself.
pub open spec fn p_terms_view(p: P) -> Seq<(nat, nat)> {
    match p {
        P::Point(pt) => seq![(1nat, point_dlog(pt))],
        P::Terms(v) => terms_view(v@),
    }
}

/// The transcript history after the first `j` rounds of challenge derivation:
/// each round absorbs its `L` and `R` and squeezes once.
pub open spec fn round_ts<T: Transcript>(ls: Seq<nat>, rs: Seq<nat>, ts0: Seq<nat>, j: int) -> Seq<
    nat,
>
    decreases j,
{
    if j <= 0 {
        ts0
    } else {
        T::after_squeeze(round_ts::<T>(ls, rs, ts0, j - 1).push(ls[j - 1]).push(rs[j - 1]))
    }
}

/// The challenge of round `j`.
pub open spec fn round_chal<T: Transcript>(ls: Seq<nat>, rs: Seq<nat>, ts0: Seq<nat>, j: int) -> nat {
    T::challenge_at(round_ts::<T>(ls, rs, ts0, j).push(ls[j]).push(rs[j]))
}

/// The dimension invariants the verifier demands: as many `R` as `L`
/// commitments, a power-of-two generator count matching the round count, and
/// one answer, generator row and per-row generator per weight row, each row
/// as long as `g_bold`.
pub open spec fn verify_dims_ok(
    pf: ProofView,
    g: Seq<nat>,
    h: Seq<Seq<nat>>,
    gg: Seq<nat>,
) -> bool {
    &&& pf.ls.len() == pf.rs.len()
    &&& g.len() == pow2(pf.ls.len())
    &&& pf.s_answer.len() == h.len()
    &&& gg.len() == h.len()
    &&& forall|i: int| 0 <= i < h.len() ==> (#[trigger] h[i]).len() == g.len()
}

/// The squared-challenge terms of the first `j` rounds, in absorption order.
pub open spec fn lr_sq_terms(
    ls: Seq<nat>,
    rs: Seq<nat>,
    es: Seq<nat>,
    ies: Seq<nat>,
    j: int,
) -> Seq<(nat, nat)>
    decreases j,
{
    if j <= 0 {
        Seq::<(nat, nat)>::empty()
    } else {
        lr_sq_terms(ls, rs, es, ies, j - 1) + seq![
            ((es[j - 1] * es[j - 1]) % group_order(), ls[j - 1]),
            ((ies[j - 1] * ies[j - 1]) % group_order(), rs[j - 1]),
        ]
    }
}

/// The reconstruction terms of one `h_bold` row: the row's coefficients are
/// read from the opposite end of the product table.
pub open spec fn h_row_terms(hrow: Seq<nat>, se: nat, table: Seq<nat>) -> Seq<(nat, nat)> {
    Seq::new(hrow.len(), |j: int| ((se * table[table.len() - 1 - j]) % group_order(), hrow[j]))
}

/// The reconstruction terms of the first `row` rows of `h_bold`.
pub open spec fn h_terms(
    h: Seq<Seq<nat>>,
    s_answer: Seq<nat>,
    e: nat,
    table: Seq<nat>,
    row: int,
) -> Seq<(nat, nat)>
    decreases row,
{
    if row <= 0 {
        Seq::<(nat, nat)>::empty()
    } else {
        h_terms(h, s_answer, e, table, row - 1) + h_row_terms(
            h[row - 1],
            (s_answer[row - 1] * e) % group_order(),
            table,
        )
    }
}

/// What verification decides.
pub enum VerifyOutcome {
    BadDims,
    ZeroChallenge,
    Accept,
    Reject,
}

/// The whole verification computation as a function of the proof, the
/// generators, the commitment terms and the starting transcript history:
/// re-derive every challenge, reconstruct the folded commitment through the
/// challenge-product table, and accept exactly when the full accumulator
/// collapses to the group identity.
pub open spec fn verify_spec<T: Transcript>(
    pf: ProofView,
    g: Seq<nat>,
    h: Seq<Seq<nat>>,
    gg: Seq<nat>,
    gh: nat,
    p0: Seq<(nat, nat)>,
    ts0: Seq<nat>,
) -> VerifyOutcome {
    if !verify_dims_ok(pf, g, h, gg) {
        VerifyOutcome::BadDims
    } else {
        let m = pf.ls.len() as int;
        if exists|j: int| 0 <= j < m && #[trigger] round_chal::<T>(pf.ls, pf.rs, ts0, j) == 0 {
            VerifyOutcome::ZeroChallenge
        } else {
            let es = Seq::new(m as nat, |j: int| round_chal::<T>(pf.ls, pf.rs, ts0, j));
            let ies = Seq::new(m as nat, |j: int| inv_mod(round_chal::<T>(pf.ls, pf.rs, ts0, j)));
            let ts1 = round_ts::<T>(pf.ls, pf.rs, ts0, m).push(pf.a_point).push(pf.b_point);
            let e = T::challenge_at(ts1);
            if e == 0 {
                VerifyOutcome::ZeroChallenge
            } else {
                let table = Seq::new(pow2(m as nat), |i: int| chal_prod(pairs(es, ies), i));
                let base = p0 + lr_sq_terms(pf.ls, pf.rs, es, ies, m);
                let neg = neg_mod((e * e) % group_order());
                let scaled = base.map(
                    |i: int, t: (nat, nat)| (((t.0 * neg) % group_order()) as nat, t.1),
                );
                let re = (pf.r_answer * e) % group_order();
                let gterms = Seq::new(g.len(), |i: int| ((table[i] * re) % group_order(), g[i]));
                let hterms = h_terms(h, pf.s_answer, e, table, h.len() as int);
                let ggterms = pairs(
                    Seq::new(gg.len(), |row: int| (pf.r_answer * pf.s_answer[row]) % group_order()),
                    gg,
                );
                let tail = seq![(neg_mod(e), pf.a_point)] + ggterms + seq![
                    (pf.delta_answer, gh),
                    (neg_mod(1), pf.b_point),
                ];
                if msm_nat(scaled + gterms + hterms + tail) == 0 {
                    VerifyOutcome::Accept
                } else {
                    VerifyOutcome::Reject
                }
            }
        }
    }
}

/// Checks a proof against the generators and the commitment target: replays
/// the transcript, rebuilds the folded relation through the challenge-product
/// table, and accepts exactly when the accumulated multiexponentiation is the
/// group identity.  `Err(DimensionMismatch)` when the shape of the proof does
/// not fit the generators, `Err(ZeroChallenge)` when a squeezed challenge is
/// zero, and `Err(VerificationFailure)` when the final check fails.
#[verifier::loop_isolation(false)]
#[verifier::rlimit(100)]
pub fn verify<T: Transcript>(
    transcript: &mut T,
    proof: &WipProof,
    generators_g: &Vec<pasta_curves::Ep>,
    generators_h: &Vec<Vec<pasta_curves::Ep>>,
    generator_g: &Vec<pasta_curves::Ep>,
    generator_h: &pasta_curves::Ep,
    p: &P,
) -> (res: Result<(), WipError>)
    ensures
        ({
            let out = verify_spec::<T>(
                proof_view(*proof),
                pvals(generators_g@),
                prows(generators_h@),
                pvals(generator_g@),
                point_dlog(*generator_h),
                p_terms_view(*p),
                old(transcript).state(),
            );
            match res {
                Ok(u) => out is Accept,
                Err(err) => {
                    &&& (err == WipError::DimensionMismatch <==> out is BadDims)
                    &&& (err == WipError::ZeroChallenge <==> out is ZeroChallenge)
                    &&& (err == WipError::VerificationFailure <==> out is Reject)
                    &&& (err == WipError::DimensionMismatch || err == WipError::ZeroChallenge
                        || err == WipError::VerificationFailure)
                },
            }
        }),
{
    let ghost pf = proof_view(*proof);
    let ghost gv = pvals(generators_g@);
    let ghost hv = prows(generators_h@);
    let ghost ggv = pvals(generator_g@);
    let ghost ts0 = transcript.state();
    let m = proof.l.len();
    let n = generators_g.len();
    let k = generators_h.len();

    if proof.r.len() != m {
        return Err(WipError::DimensionMismatch);
    }
    let size_matches = match checked_pow2(m) {
        Some(sz) => sz == n,
        None => false,
    };
    if !size_matches {
        return Err(WipError::DimensionMismatch);
    }
    if proof.s_answer.len() != k || generator_g.len() != k {
        return Err(WipError::DimensionMismatch);
    }
    let mut row: usize = 0;
    while row < k
        invariant
            row <= k,
            forall|i: int| 0 <= i < row ==> (#[trigger] hv[i]).len() == n,
        decreases k - row,
    {
        proof {
            assert(hv[row as int] == pvals(generators_h@[row as int]@));
        }
        if generators_h[row].len() != n {
            return Err(WipError::DimensionMismatch);
        }
        row += 1;
    }
    proof {
        assert(verify_dims_ok(pf, gv, hv, ggv));
    }

    let mut terms: Vec<(pasta_curves::Fq, pasta_curves::Ep)> = match p {
        P::Point(pt) => {
            let mut v: Vec<(pasta_curves::Fq, pasta_curves::Ep)> = Vec::new();
            v.push((fq_from_u64(1), *pt));
            v
        },
        P::Terms(t) => crate::folding::copy_vec(t),
    };
    proof {
        assert(terms_view(terms@) =~= p_terms_view(*p));
    }
    let ghost p0 = p_terms_view(*p);

    let mut es: Vec<pasta_curves::Fq> = Vec::new();
    let mut j: usize = 0;
    while j < m
        invariant
            j <= m,
            transcript.state() == round_ts::<T>(pf.ls, pf.rs, ts0, j as int),
            es@.len() == j,
            forall|i: int|
                0 <= i < j ==> scalar_nat(#[trigger] es@[i]) == round_chal::<T>(
                    pf.ls,
                    pf.rs,
                    ts0,
                    i,
                ),
            forall|i: int| 0 <= i < j ==> scalar_nat(#[trigger] es@[i]) != 0,
            forall|i: int| 0 <= i < j ==> scalar_nat(#[trigger] es@[i]) < group_order(),
        decreases m - j,
    {
        transcript.write_point(&proof.l[j]);
        transcript.write_point(&proof.r[j]);
        let e = transcript.squeeze_challenge();
        proof {
            assert(pf.ls[j as int] == point_dlog(proof.l@[j as int]));
            assert(pf.rs[j as int] == point_dlog(proof.r@[j as int]));
            assert(scalar_nat(e) == round_chal::<T>(pf.ls, pf.rs, ts0, j as int));
            assert(transcript.state() == round_ts::<T>(pf.ls, pf.rs, ts0, j + 1));
        }
        if fq_is_zero(&e) {
            proof {
                assert(round_chal::<T>(pf.ls, pf.rs, ts0, j as int) == 0);
            }
            return Err(WipError::ZeroChallenge);
        }
        es.push(e);
        j += 1;
    }
    let ghost es_spec = Seq::new(m as nat, |d: int| round_chal::<T>(pf.ls, pf.rs, ts0, d));
    let ghost ies_spec = Seq::new(
        m as nat,
        |d: int| inv_mod(round_chal::<T>(pf.ls, pf.rs, ts0, d)),
    );
    proof {
        assert(forall|i: int| 0 <= i < m ==> #[trigger] es_spec[i] == scalar_nat(es@[i]));
        assert forall|i: int| 0 <= i < m implies !(#[trigger] round_chal::<T>(
            pf.ls,
            pf.rs,
            ts0,
            i,
        ) == 0) by {
            assert(scalar_nat(es@[i]) == round_chal::<T>(pf.ls, pf.rs, ts0, i));
            assert(scalar_nat(es@[i]) != 0);
        }
    }

    let inv_es = batch_invert(&es);
    proof {
        assert forall|i: int| 0 <= i < m implies scalar_nat(#[trigger] inv_es@[i]) == ies_spec[i]
            && scalar_nat(inv_es@[i]) < group_order() by {
            lemma_inv_mod_is(scalar_nat(es@[i]), scalar_nat(inv_es@[i]));
        }
    }

    let mut challenges: Vec<(pasta_curves::Fq, pasta_curves::Fq)> = Vec::new();
    proof {
        assert(terms_view(terms@) =~= p0 + lr_sq_terms(pf.ls, pf.rs, es_spec, ies_spec, 0));
    }
    let mut j: usize = 0;
    while j < m
        invariant
            j <= m,
            challenges@.len() == j,
            forall|i: int| 0 <= i < j ==> #[trigger] challenges@[i] == (es@[i], inv_es@[i]),
            terms_view(terms@) == p0 + lr_sq_terms(pf.ls, pf.rs, es_spec, ies_spec, j as int),
        decreases m - j,
    {
        challenges.push((es[j], inv_es[j]));
        let e_sq = fq_mul(&es[j], &es[j]);
        let ie_sq = fq_mul(&inv_es[j], &inv_es[j]);
        let ghost tvec0 = terms@;
        terms.push((e_sq, proof.l[j]));
        terms.push((ie_sq, proof.r[j]));
        proof {
            lemma_terms_view_push(tvec0, (e_sq, proof.l@[j as int]));
            lemma_terms_view_push(
                tvec0.push((e_sq, proof.l@[j as int])),
                (ie_sq, proof.r@[j as int]),
            );
            assert(pf.ls[j as int] == point_dlog(proof.l@[j as int]));
            assert(pf.rs[j as int] == point_dlog(proof.r@[j as int]));
            assert(scalar_nat(e_sq) == (es_spec[j as int] * es_spec[j as int]) % group_order());
            assert(scalar_nat(ie_sq) == (ies_spec[j as int] * ies_spec[j as int]) % group_order());
            assert(lr_sq_terms(pf.ls, pf.rs, es_spec, ies_spec, j + 1) == lr_sq_terms(
                pf.ls,
                pf.rs,
                es_spec,
                ies_spec,
                j as int,
            ) + seq![
                ((es_spec[j as int] * es_spec[j as int]) % group_order(), pf.ls[j as int]),
                ((ies_spec[j as int] * ies_spec[j as int]) % group_order(), pf.rs[j as int]),
            ]);
            assert(terms_view(terms@) =~= p0 + lr_sq_terms(
                pf.ls,
                pf.rs,
                es_spec,
                ies_spec,
                j + 1,
            ));
        }
        j += 1;
    }

    proof {
        assert(chal_view(challenges@) =~= pairs(es_spec, ies_spec));
    }
    let product_cache = challenge_products(&challenges);
    let ghost table = Seq::new(pow2(m as nat), |d: int| chal_prod(pairs(es_spec, ies_spec), d));
    proof {
        assert(forall|d: int|
            0 <= d < product_cache@.len() ==> scalar_nat(#[trigger] product_cache@[d]) == table[d]);
    }

    transcript.write_point(&proof.a_point);
    transcript.write_point(&proof.b_point);
    let e = transcript.squeeze_challenge();
    proof {
        assert(scalar_nat(e) == T::challenge_at(
            round_ts::<T>(pf.ls, pf.rs, ts0, m as int).push(pf.a_point).push(pf.b_point),
        ));
    }
    if fq_is_zero(&e) {
        return Err(WipError::ZeroChallenge);
    }
    let ghost ev = scalar_nat(e);

    let e_sq = fq_mul(&e, &e);
    let neg_e_sq = fq_neg(&e_sq);
    let ghost base = p0 + lr_sq_terms(pf.ls, pf.rs, es_spec, ies_spec, m as int);
    let ghost negv = neg_mod((ev * ev) % group_order());
    let ghost scaled = base.map(|d: int, t: (nat, nat)| (((t.0 * negv) % group_order()) as nat, t.1));
    let terms_len = terms.len();
    let mut i: usize = 0;
    while i < terms_len
        invariant
            i <= terms_len,
            terms@.len() == terms_len,
            terms_view(terms@) == scaled.take(i as int) + base.skip(i as int),
        decreases terms_len - i,
    {
        let ghost tv_before = terms_view(terms@);
        let ghost tvec_before = terms@;
        let t = terms[i];
        let scaled_entry = (fq_mul(&t.0, &neg_e_sq), t.1);
        terms[i] = scaled_entry;
        proof {
            lemma_terms_view_update(tvec_before, i as int, scaled_entry);
            assert(tv_before[i as int] == base[i as int]);
            assert(scaled[i as int] == (
                ((base[i as int].0 * negv) % group_order()) as nat,
                base[i as int].1,
            ));
            assert(terms_view(terms@) =~= scaled.take(i + 1) + base.skip(i + 1));
        }
        i += 1;
    }
    proof {
        assert(terms_view(terms@) =~= scaled);
    }

    let re = fq_mul(&proof.r_answer, &e);
    let ghost re_v = (pf.r_answer * ev) % group_order();
    let ghost gterms = Seq::new(gv.len(), |d: int| ((table[d] * re_v) % group_order(), gv[d]));
    let mut i: usize = 0;
    while i < n
        invariant
            i <= n,
            terms_view(terms@) == scaled + gterms.take(i as int),
        decreases n - i,
    {
        let ghost tvecg = terms@;
        let gentry = (fq_mul(&product_cache[i], &re), generators_g[i]);
        terms.push(gentry);
        proof {
            lemma_terms_view_push(tvecg, gentry);
            assert(gv[i as int] == point_dlog(generators_g@[i as int]));
            assert(gterms[i as int] == (
                (table[i as int] * re_v) % group_order(),
                gv[i as int],
            ));
            assert(terms_view(terms@) =~= scaled + gterms.take(i + 1));
        }
        i += 1;
    }
    proof {
        assert(scaled + gterms.take(n as int) =~= scaled + gterms);
    }

    let ghost head2 = scaled + gterms;
    let mut row: usize = 0;
    while row < k
        invariant
            row <= k,
            terms_view(terms@) == head2 + h_terms(hv, pf.s_answer, ev, table, row as int),
        decreases k - row,
    {
        let se = fq_mul(&proof.s_answer[row], &e);
        let ghost se_v = (pf.s_answer[row as int] * ev) % group_order();
        let ghost rowterms = h_row_terms(hv[row as int], se_v, table);
        let ghost head3 = head2 + h_terms(hv, pf.s_answer, ev, table, row as int);
        proof {
            assert(pf.s_answer[row as int] == scalar_nat(proof.s_answer@[row as int]));
            assert(hv[row as int] == pvals(generators_h@[row as int]@));
        }
        let cols = generators_h[row].len();
        let mut j: usize = 0;
        while j < cols
            invariant
                j <= cols,
                cols == n,
                row < k,
                scalar_nat(se) == se_v,
                terms_view(terms@) == head3 + rowterms.take(j as int),
            decreases cols - j,
        {
            let ghost tvech = terms@;
            let hentry = (fq_mul(&se, &product_cache[n - 1 - j]), generators_h[row][j]);
            terms.push(hentry);
            proof {
                lemma_terms_view_push(tvech, hentry);
                assert(hv[row as int][j as int] == point_dlog(generators_h@[row as int]@[j as int]));
                assert(table.len() == n);
                assert(rowterms[j as int] == (
                    (se_v * table[table.len() - 1 - j]) % group_order(),
                    hv[row as int][j as int],
                ));
                assert(terms_view(terms@) =~= head3 + rowterms.take(j + 1));
            }
            j += 1;
        }
        proof {
            assert(head3 + rowterms.take(cols as int) =~= head3 + rowterms);
            assert(head2 + h_terms(hv, pf.s_answer, ev, table, row + 1) == head3 + rowterms);
        }
        row += 1;
    }

    let ghost hterms = h_terms(hv, pf.s_answer, ev, table, k as int);
    let ghost ggterms = pairs(
        Seq::new(ggv.len(), |d: int| (pf.r_answer * pf.s_answer[d]) % group_order()),
        ggv,
    );
    let ghost tail = seq![(neg_mod(ev), pf.a_point)] + ggterms + seq![
        (pf.delta_answer, point_dlog(*generator_h)),
        (neg_mod(1), pf.b_point),
    ];

    let ghost tveca = terms@;
    let aentry = (fq_neg(&e), proof.a_point);
    terms.push(aentry);
    let ghost head4 = head2 + hterms + seq![(neg_mod(ev), pf.a_point)];
    proof {
        lemma_terms_view_push(tveca, aentry);
        assert(terms_view(terms@) =~= head4);
    }
    let mut row: usize = 0;
    while row < k
        invariant
            row <= k,
            terms_view(terms@) == head4 + ggterms.take(row as int),
        decreases k - row,
    {
        let ghost tvecgg = terms@;
        let ggentry = (fq_mul(&proof.r_answer, &proof.s_answer[row]), generator_g[row]);
        terms.push(ggentry);
        proof {
            lemma_terms_view_push(tvecgg, ggentry);
            assert(ggv[row as int] == point_dlog(generator_g@[row as int]));
            assert(pf.s_answer[row as int] == scalar_nat(proof.s_answer@[row as int]));
            assert(ggterms[row as int] == (
                (pf.r_answer * pf.s_answer[row as int]) % group_order(),
                ggv[row as int],
            ));
            assert(terms_view(terms@) =~= head4 + ggterms.take(row + 1));
        }
        row += 1;
    }
    let ghost tvec2 = terms@;
    terms.push((proof.delta_answer, *generator_h));
    proof {
        lemma_terms_view_push(tvec2, (proof.delta_answer, *generator_h));
    }
    let neg_one = {
        let one = fq_from_u64(1);
        fq_neg(&one)
    };
    let ghost tvec1 = terms@;
    terms.push((neg_one, proof.b_point));
    proof {
        lemma_terms_view_push(tvec1, (neg_one, proof.b_point));
        assert(ggterms.take(k as int) =~= ggterms);
        assert(terms_view(terms@) =~= head2 + hterms + tail);
        assert(scaled + gterms + hterms + tail =~= head2 + hterms + tail);
    }

    let acc = P::Terms(terms);
    let total = multiexp(&acc);
    let id = point_identity();
    proof {
        assert(point_dlog(total) == msm_nat(terms_view(acc->Terms_0@)));
        assert(point_dlog(total) == msm_nat(scaled + gterms + hterms + tail));
    }
    if point_eq(&total, &id) {
        Ok(())
    } else {
        Err(WipError::VerificationFailure)
    }
}


/// Completeness for the smallest instance of the argument: one generator, no
/// weight rows.  Whenever proving succeeds, an honest verifier that starts
/// from the same transcript history and the commitment computed from the
/// opening relation accepts the resulting proof.
pub proof fn lemma_completeness_base<T: Transcript>(
    a0: nat,
    alpha: nat,
    g0: nat,
    gh: nat,
    r: nat,
    delta: nat,
    tau: nat,
    ts0: Seq<nat>,
)
    requires
        prove_spec::<T>(
            seq![a0],
            Seq::<Seq<nat>>::empty(),
            alpha,
            seq![g0],
            Seq::<Seq<nat>>::empty(),
            Seq::<nat>::empty(),
            gh,
            Seq::<nat>::empty(),
            Seq::<nat>::empty(),
            r,
            Seq::<nat>::empty(),
            delta,
            tau,
            ts0,
        ) is Some,
    ensures
        ({
            let commit = msm_nat(
                commit_terms(
                    seq![a0],
                    Seq::<Seq<nat>>::empty(),
                    seq![g0],
                    Seq::<Seq<nat>>::empty(),
                    Seq::<nat>::empty(),
                    gh,
                    alpha,
                ),
            );
            let out = prove_spec::<T>(
                seq![a0],
                Seq::<Seq<nat>>::empty(),
                alpha,
                seq![g0],
                Seq::<Seq<nat>>::empty(),
                Seq::<nat>::empty(),
                gh,
                Seq::<nat>::empty(),
                Seq::<nat>::empty(),
                r,
                Seq::<nat>::empty(),
                delta,
                tau,
                ts0,
            );
            verify_spec::<T>(
                out.unwrap().0,
                seq![g0],
                Seq::<Seq<nat>>::empty(),
                Seq::<nat>::empty(),
                gh,
                seq![(1nat, commit)],
                ts0,
            ) is Accept
        }),
{
    let q = group_order() as int;
    let none_rows = Seq::<Seq<nat>>::empty();
    let none = Seq::<nat>::empty();
    let st0 = ProverRound {
        a: seq![a0],
        b: none_rows,
        g: seq![g0],
        h: none_rows,
        alpha: alpha,
        ts: ts0,
        ls: none,
        rs: none,
    };

    // The closing commitments of the prover.
    let hcol = Seq::new(0, |row: int| st0.h[row][0]);
    let gcoef = Seq::new(
        0,
        |row: int| ((r * st0.b[row][0]) % group_order() + (none[row] * st0.a[0]) % group_order())
            % group_order(),
    );
    let aseq = seq![(r, g0), (delta, gh)];
    assert(seq![(r, st0.g[0]), (delta, gh)] + pairs(none, hcol) + pairs(gcoef, none) =~= aseq);
    let av = msm_nat(aseq);
    lemma_msm_nat_is_sum(aseq);
    assert(aseq.drop_last() =~= seq![(r, g0)]);
    assert(seq![(r, g0)].drop_last() =~= Seq::<(nat, nat)>::empty());
    assert(msm_sum(Seq::<(nat, nat)>::empty()) == 0);
    assert(seq![(r, g0)].last() == (r, g0));
    assert(msm_sum(seq![(r, g0)]) == r * g0);
    assert(aseq.last() == (delta, gh));
    assert(msm_sum(aseq) == r * g0 + delta * gh);
    let bcoef = Seq::new(0, |row: int| (r * none[row]) % group_order());
    let bseq = seq![(tau, gh)];
    assert(seq![(tau, gh)] + pairs(bcoef, none) =~= bseq);
    let bv = msm_nat(bseq);
    lemma_msm_nat_is_sum(bseq);
    assert(bseq.drop_last() =~= Seq::<(nat, nat)>::empty());
    assert(bseq.last() == (tau, gh));
    assert(msm_sum(Seq::<(nat, nat)>::empty()) == 0);
    assert(msm_sum(bseq) == tau * gh);

    let closed = prover_close::<T>(st0, r, none, delta, tau, none, gh);
    let out = prove_spec::<T>(
        seq![a0],
        none_rows,
        alpha,
        seq![g0],
        none_rows,
        none,
        gh,
        none,
        none,
        r,
        none,
        delta,
        tau,
        ts0,
    );
    assert(out == closed);
    let e = T::challenge_at(ts0.push(av).push(bv));
    assert(e != 0);
    let pf = out.unwrap().0;
    assert(pf.ls == none);
    assert(pf.rs == none);
    assert(pf.a_point == av);
    assert(pf.b_point == bv);
    assert(pf.r_answer == (r + (a0 * e) % group_order()) % group_order());
    assert(pf.s_answer =~= none);
    assert(pf.delta_answer == ((tau + (delta * e) % group_order()) % group_order() + (alpha * ((e
        * e) % group_order())) % group_order()) % group_order());

    // The commitment computed from the opening relation.
    let cseq = seq![(a0, g0), (alpha, gh)];
    assert(pairs(seq![a0], seq![g0]) =~= seq![(a0, g0)]);
    assert(pairs(Seq::new(0, |row: int| crate::msm::ip_nat(seq![a0], none_rows[row])), none)
        =~= Seq::<(nat, nat)>::empty());
    assert(row_pairs(none_rows, none_rows) == Seq::<(nat, nat)>::empty());
    assert(commit_terms(seq![a0], none_rows, seq![g0], none_rows, none, gh, alpha) =~= cseq);
    let commit = msm_nat(commit_terms(seq![a0], none_rows, seq![g0], none_rows, none, gh, alpha));
    lemma_msm_nat_is_sum(cseq);
    assert(cseq.drop_last() =~= seq![(a0, g0)]);
    assert(seq![(a0, g0)].drop_last() =~= Seq::<(nat, nat)>::empty());
    assert(msm_sum(Seq::<(nat, nat)>::empty()) == 0);
    assert(seq![(a0, g0)].last() == (a0, g0));
    assert(msm_sum(seq![(a0, g0)]) == a0 * g0);
    assert(cseq.last() == (alpha, gh));
    assert(msm_sum(cseq) == a0 * g0 + alpha * gh);
    assert(commit as int == ((a0 * g0 + alpha * gh) as int) % q);

    // The verifier's view.
    let gv = seq![g0];
    let p0 = seq![(1nat, commit)];
    let pfv = pf;
    lemma2_to64();
    assert(verify_dims_ok(pfv, gv, none_rows, none));
    assert(!(exists|j: int| 0 <= j < 0 && #[trigger] round_chal::<T>(pfv.ls, pfv.rs, ts0, j) == 0));
    let es = Seq::new(0, |j: int| round_chal::<T>(pfv.ls, pfv.rs, ts0, j));
    let ies = Seq::new(0, |j: int| crate::scalars::inv_mod(round_chal::<T>(pfv.ls, pfv.rs, ts0, j)));
    assert(round_ts::<T>(pfv.ls, pfv.rs, ts0, 0) == ts0);
    let e2 = T::challenge_at(ts0.push(pf.a_point).push(pf.b_point));
    assert(e2 == e);

    let table = Seq::new(pow2(0), |i: int| chal_prod(pairs(es, ies), i));
    assert(pairs(es, ies) =~= Seq::<(nat, nat)>::empty());
    assert(table.len() == 1);
    assert(table[0] == 1);
    let base = p0 + lr_sq_terms(pfv.ls, pfv.rs, es, ies, 0);
    assert(base =~= p0);
    let negv = neg_mod((e * e) % group_order());
    let scaled = base.map(|i: int, t: (nat, nat)| (((t.0 * negv) % group_order()) as nat, t.1));
    let re = (pf.r_answer * e) % group_order();
    let gterms = Seq::new(1, |i: int| ((table[i] * re) % group_order(), gv[i]));
    let hterms = h_terms(none_rows, pfv.s_answer, e, table, 0);
    assert(hterms == Seq::<(nat, nat)>::empty());
    let ggterms = pairs(Seq::new(0, |row: int| (pf.r_answer * pf.s_answer[row]) % group_order()), none);
    assert(ggterms =~= Seq::<(nat, nat)>::empty());
    let tail = seq![(neg_mod(e), pf.a_point)] + ggterms + seq![
        (pf.delta_answer, gh),
        (neg_mod(1), pf.b_point),
    ];
    let full = scaled + gterms + hterms + tail;
    let fseq = seq![
        (((1nat * negv) % group_order()) as nat, commit),
        ((table[0] * re) % group_order(), g0),
        (neg_mod(e), av),
        (pf.delta_answer, gh),
        (neg_mod(1), bv),
    ];
    assert(full =~= fseq);
    lemma_msm_nat_is_sum(fseq);
    assert(fseq.drop_last() =~= fseq.take(4));
    assert(fseq.take(4).drop_last() =~= fseq.take(3));
    assert(fseq.take(3).drop_last() =~= fseq.take(2));
    assert(fseq.take(2).drop_last() =~= fseq.take(1));
    assert(fseq.take(1).drop_last() =~= Seq::<(nat, nat)>::empty());
    assert(fseq.take(5) =~= fseq);
    let s0 = ((1nat * negv) % group_order()) as int;
    let s1 = ((table[0] * re) % group_order()) as int;
    let sum = s0 * commit + s1 * g0 + neg_mod(e) * av + pf.delta_answer * gh + neg_mod(1) * bv;
    assert(msm_sum(Seq::<(nat, nat)>::empty()) == 0);
    assert(fseq.take(1).last() == fseq[0]);
    assert(msm_sum(fseq.take(1)) == fseq[0].0 * fseq[0].1);
    assert(fseq.take(2).last() == fseq[1]);
    assert(msm_sum(fseq.take(2)) == msm_sum(fseq.take(1)) + fseq[1].0 * fseq[1].1);
    assert(fseq.take(3).last() == fseq[2]);
    assert(msm_sum(fseq.take(3)) == msm_sum(fseq.take(2)) + fseq[2].0 * fseq[2].1);
    assert(fseq.take(4).last() == fseq[3]);
    assert(msm_sum(fseq.take(4)) == msm_sum(fseq.take(3)) + fseq[3].0 * fseq[3].1);
    assert(fseq.last() == fseq[4]);
    assert(msm_sum(fseq) == msm_sum(fseq.take(4)) + fseq[4].0 * fseq[4].1);
    assert(msm_sum(fseq) == sum);

    // Each factor is congruent to its unreduced form.
    let ei = e as int;
    let a0i = a0 as int;
    let g0i = g0 as int;
    let ghi = gh as int;
    let ri = r as int;
    let ali = alpha as int;
    let di = delta as int;
    let ti = tau as int;

    // s0 is congruent to -(e * e).
    assert(1nat * negv == negv);
    lemma_small_mod(negv, group_order());
    lemma_neg_mod_congruent((e * e) % group_order());
    lemma_fundamental_div_mod((ei * ei), q);
    assert(-(((e * e) % group_order()) as int) == q * ((ei * ei) / q) + (-(ei * ei)))
        by (nonlinear_arith)
        requires
            ei * ei == q * ((ei * ei) / q) + ((ei * ei) % q),
            ((e * e) % group_order()) as int == (ei * ei) % q,
    ;
    lemma_mod_multiples_vanish((ei * ei) / q, -(ei * ei), q);
    assert(s0 % q == (-(ei * ei)) % q);

    // s1 is congruent to (r + a0 * e) * e.
    assert(table[0] * re == 1nat * re);
    assert(1nat * re == re);
    lemma_small_mod(re, group_order());
    assert(s1 == re as int);
    lemma_mod_twice((pf.r_answer * e) as int, q);
    lemma_mul_congruent(pf.r_answer as int, (ri + a0i * ei), ei, q);
    assert(pf.r_answer as int % q == (ri + a0i * ei) % q) by {
        lemma_mod_twice(((r + (a0 * e) % group_order()) % group_order()) as int, q);
        lemma_add_congruent(ri, ri, ((a0 * e) % group_order()) as int, a0i * ei, q);
        lemma_mod_twice((a0i * ei), q);
    }
    assert(s1 % q == ((ri + a0i * ei) * ei) % q);

    // delta_answer is congruent to tau + delta * e + alpha * e * e.
    let dai = pf.delta_answer as int;
    assert(dai % q == (ti + di * ei + ali * (ei * ei)) % q) by {
        lemma_mod_twice(dai, q);
        let inner = ((tau + (delta * e) % group_order()) % group_order()) as int;
        let term2 = ((alpha * ((e * e) % group_order())) % group_order()) as int;
        lemma_mod_twice(inner, q);
        lemma_mod_twice(term2, q);
        lemma_add_congruent(ti, ti, ((delta * e) % group_order()) as int, di * ei, q);
        lemma_mod_twice(di * ei, q);
        assert(inner % q == (ti + di * ei) % q);
        lemma_mul_congruent_right(ali, (((e * e) % group_order()) as int), ei * ei, q);
        lemma_mod_twice(ei * ei, q);
        assert(term2 % q == (ali * (ei * ei)) % q);
        lemma_add_congruent(inner, ti + di * ei, term2, ali * (ei * ei), q);
    }

    // The unreduced total collapses to zero.
    let c_raw = a0i * g0i + ali * ghi;
    let av_raw = ri * g0i + di * ghi;
    let bv_raw = ti * ghi;
    lemma_mod_twice(c_raw, q);
    lemma_mod_twice(av_raw, q);
    lemma_mod_twice(bv_raw, q);
    lemma_neg_mod_congruent(e);
    lemma_neg_mod_congruent(1);
    let sum2 = (-(ei * ei)) * c_raw + ((ri + a0i * ei) * ei) * g0i + (-ei) * av_raw + (ti + di * ei
        + ali * (ei * ei)) * ghi + (-1int) * bv_raw;
    assert(sum % q == sum2 % q) by {
        lemma_mul_congruent(s0, -(ei * ei), commit as int, q);
        lemma_mul_congruent_right(-(ei * ei), commit as int, c_raw, q);
        lemma_mul_congruent(s1, (ri + a0i * ei) * ei, g0i, q);
        lemma_mul_congruent(neg_mod(e) as int, -ei, av as int, q);
        lemma_mul_congruent_right(-ei, av as int, av_raw, q);
        lemma_mul_congruent(dai, ti + di * ei + ali * (ei * ei), ghi, q);
        lemma_mul_congruent(neg_mod(1) as int, -1int, bv as int, q);
        lemma_mul_congruent_right(-1int, bv as int, bv_raw, q);
        lemma_add_congruent(
            s0 * (commit as int),
            (-(ei * ei)) * c_raw,
            s1 * g0i,
            ((ri + a0i * ei) * ei) * g0i,
            q,
        );
        lemma_add_congruent(
            s0 * (commit as int) + s1 * g0i,
            (-(ei * ei)) * c_raw + ((ri + a0i * ei) * ei) * g0i,
            (neg_mod(e) as int) * (av as int),
            (-ei) * av_raw,
            q,
        );
        lemma_add_congruent(
            s0 * (commit as int) + s1 * g0i + (neg_mod(e) as int) * (av as int),
            (-(ei * ei)) * c_raw + ((ri + a0i * ei) * ei) * g0i + (-ei) * av_raw,
            dai * ghi,
            (ti + di * ei + ali * (ei * ei)) * ghi,
            q,
        );
        lemma_add_congruent(
            s0 * (commit as int) + s1 * g0i + (neg_mod(e) as int) * (av as int) + dai * ghi,
            (-(ei * ei)) * c_raw + ((ri + a0i * ei) * ei) * g0i + (-ei) * av_raw + (ti + di * ei
                + ali * (ei * ei)) * ghi,
            (neg_mod(1) as int) * (bv as int),
            (-1int) * bv_raw,
            q,
        );
    }
    assert((-(ei * ei)) * (a0i * g0i) + ((ri + a0i * ei) * ei) * g0i + (-ei) * (ri * g0i) == 0)
        by (nonlinear_arith);
    assert((-(ei * ei)) * (ali * ghi) + (-ei) * (di * ghi) + (ti + di * ei + ali * (ei * ei)) * ghi
        + (-1int) * (ti * ghi) == 0) by (nonlinear_arith);
    vstd::arithmetic::mul::lemma_mul_is_distributive_add(-(ei * ei), a0i * g0i, ali * ghi);
    vstd::arithmetic::mul::lemma_mul_is_distributive_add(-ei, ri * g0i, di * ghi);
    assert(sum2 == 0);
    assert(msm_nat(fseq) == 0int % q);
    assert(msm_nat(full) == 0);
}

proof fn lemma_mul_congruent(x: int, x2: int, y: int, q: int)
    requires
        q > 0,
        x % q == x2 % q,
    ensures
        (x * y) % q == (x2 * y) % q,
{
    lemma_mul_mod_noop_left(x, y, q);
    lemma_mul_mod_noop_left(x2, y, q);
}

proof fn lemma_mul_congruent_right(x: int, y: int, y2: int, q: int)
    requires
        q > 0,
        y % q == y2 % q,
    ensures
        (x * y) % q == (x * y2) % q,
{
    lemma_mul_mod_noop_right(x, y, q);
    lemma_mul_mod_noop_right(x, y2, q);
}

proof fn lemma_add_congruent(a: int, a2: int, b: int, b2: int, q: int)
    requires
        q > 0,
        a % q == a2 % q,
        b % q == b2 % q,
    ensures
        (a + b) % q == (a2 + b2) % q,
{
    lemma_add_mod_noop(a, b, q);
    lemma_add_mod_noop(a2, b2, q);
}

/// The canonical additive inverse is congruent to the negation.
proof fn lemma_neg_mod_congruent(x: nat)
    ensures
        (neg_mod(x) as int) % (group_order() as int) == (-(x as int)) % (group_order() as int),
{
    let q = group_order() as int;
    let xi = x as int;
    let w = xi % q;
    lemma_fundamental_div_mod(xi, q);
    assert(xi == q * (xi / q) + w);
    assert(-xi == q * (-(xi / q)) + (-w)) by (nonlinear_arith)
        requires
            xi == q * (xi / q) + w,
    ;
    lemma_mod_multiples_vanish(-(xi / q), -w, q);
    assert((-xi) % q == (-w) % q);
    assert(q - w == q * 1 + (-w)) by (nonlinear_arith);
    lemma_mod_multiples_vanish(1, -w, q);
    assert((q - w) % q == (-w) % q);
    assert(neg_mod(x) as int == (q - w) % q);
    lemma_mod_twice(q - w, q);
}

} // verus!
