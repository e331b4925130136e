use vstd::prelude::*;
use crate::group_order;
use crate::scalars::{scalar_nat, svals};
use crate::points::{point_dlog, pvals};
use crate::msm::{msm_nat, ip_nat};
use crate::folding::{mid_len, fold_seq};

verus! {

/// What the prover knows: the committed vector `a`, the weight rows `b`, and
/// the blinding scalar `alpha`.
pub struct WipWitness {
    pub a: Vec<pasta_curves::Fq>,
    pub b: Vec<Vec<pasta_curves::Fq>>,
    pub alpha: pasta_curves::Fq,
}

/// The proof transcript: one (L, R) pair of commitments per folding round,
/// the closing commitments `a_point` and `b_point`, and the response scalars.
#[derive(Debug)]
pub struct WipProof {
    pub l: Vec<pasta_curves::Ep>,
    pub r: Vec<pasta_curves::Ep>,
    pub a_point: pasta_curves::Ep,
    pub b_point: pasta_curves::Ep,
    pub r_answer: pasta_curves::Fq,
    pub s_answer: Vec<pasta_curves::Fq>,
    pub delta_answer: pasta_curves::Fq,
}

/// The blinding scalars one proving run consumes: one (d_l, d_r) pair per
/// folding round, and the closing blinds `r`, `s` (one per weight row),
/// `delta` and `tau`.
pub struct Blinds {
    pub d_l: Vec<pasta_curves::Fq>,
    pub d_r: Vec<pasta_curves::Fq>,
    pub r: pasta_curves::Fq,
    pub s: Vec<pasta_curves::Fq>,
    pub delta: pasta_curves::Fq,
    pub tau: pasta_curves::Fq,
}

/// How proving or verification can fail.
#[derive(Clone, Copy, Debug, PartialEq, Eq, Structural)]
pub enum WipError {
    /// A squeezed challenge was the additive identity of the scalar field.
    ZeroChallenge,
    /// Witness and generator dimensions disagree.
    DimensionMismatch,
    /// The supplied commitment point does not open to the given witness.
    CommitmentMismatch,
    /// The final multiexponentiation is not the group identity.
    VerificationFailure,
}

/// The discrete logarithms of the points of a proof, with its scalar
/// representatives.
pub struct ProofView {
    pub ls: Seq<nat>,
    pub rs: Seq<nat>,
    pub a_point: nat,
    pub b_point: nat,
    pub r_answer: nat,
    pub s_answer: Seq<nat>,
    pub delta_answer: nat,
}

/// The view of a proof value.
pub open spec fn proof_view(p: WipProof) -> ProofView {
    ProofView {
        ls: pvals(p.l@),
        rs: pvals(p.r@),
        a_point: point_dlog(p.a_point),
        b_point: point_dlog(p.b_point),
        r_answer: scalar_nat(p.r_answer),
        s_answer: svals(p.s_answer@),
        delta_answer: scalar_nat(p.delta_answer),
    }
}

/// The representative rows of a matrix of scalars.
pub open spec fn srows(b: Seq<Vec<pasta_curves::Fq>>) -> Seq<Seq<nat>> {
    b.map(|i: int, v: Vec<pasta_curves::Fq>| svals(v@))
}

/// The discrete-logarithm rows of a matrix of points.
pub open spec fn prows(h: Seq<Vec<pasta_curves::Ep>>) -> Seq<Seq<nat>> {
    h.map(|i: int, v: Vec<pasta_curves::Ep>| pvals(v@))
}

/// Pairs up two equally long sequences into (scalar, point) terms.
pub open spec fn pairs(x: Seq<nat>, y: Seq<nat>) -> Seq<(nat, nat)> {
    Seq::new(x.len(), |i: int| (x[i], y[i]))
}

/// The terms of all rows of a matrix of scalars against a matrix of points,
/// row by row.
pub open spec fn row_pairs(b: Seq<Seq<nat>>, h: Seq<Seq<nat>>) -> Seq<(nat, nat)>
    decreases b.len(),
{
    if b.len() == 0 {
        Seq::<(nat, nat)>::empty()
    } else {
        row_pairs(b.drop_last(), h.drop_last()) + pairs(b.last(), h.last())
    }
}

/// How many folding rounds a vector of length `n` takes: one per halving
/// until a single element is left.
pub open spec fn num_rounds(n: nat) -> nat
    decreases n,
{
    if n <= 1 {
        0
    } else {
        1 + num_rounds(mid_len(n))
    }
}

/// The dimension invariants the protocol demands at entry: `a` matches
/// `g_bold`, its length is a power of two (so the halving rounds and the
/// verifier's batched reconstruction agree), and every weight row, generator
/// row and per-row generator count agrees.
pub open spec fn dims_ok(
    a: Seq<nat>,
    b: Seq<Seq<nat>>,
    g: Seq<nat>,
    h: Seq<Seq<nat>>,
    gg: Seq<nat>,
) -> bool {
    &&& a.len() == g.len()
    &&& a.len() >= 1
    &&& a.len() == vstd::arithmetic::power2::pow2(num_rounds(a.len()))
    &&& b.len() == h.len()
    &&& b.len() == gg.len()
    &&& forall|i: int| 0 <= i < b.len() ==> (#[trigger] b[i]).len() == a.len()
    &&& forall|i: int| 0 <= i < h.len() ==> (#[trigger] h[i]).len() == a.len()
}

/// The terms whose multiexponentiation a valid commitment equals: the witness
/// vector against `g_bold`, each weight row against its `h_bold` row, each
/// row's inner product against its `generator_g` entry, and the blinding
/// scalar against `generator_h`.
pub open spec fn commit_terms(
    a: Seq<nat>,
    b: Seq<Seq<nat>>,
    g: Seq<nat>,
    h: Seq<Seq<nat>>,
    gg: Seq<nat>,
    gh: nat,
    alpha: nat,
) -> Seq<(nat, nat)> {
    pairs(a, g) + pairs(Seq::new(b.len(), |row: int| ip_nat(a, b[row])), gg) + seq![(alpha, gh)]
        + row_pairs(b, h)
}

/// The working state of the prover between folding rounds.
pub struct ProverRound {
    pub a: Seq<nat>,
    pub b: Seq<Seq<nat>>,
    pub g: Seq<nat>,
    pub h: Seq<Seq<nat>>,
    pub alpha: nat,
    pub ts: Seq<nat>,
    pub ls: Seq<nat>,
    pub rs: Seq<nat>,
}

/// One folding round of the prover, driven by the blinds `dl`, `dr`: split
/// everything in half, commit to the cross terms as `L` and `R`, absorb them,
/// squeeze the challenge, and fold.  `None` when the challenge is zero.
pub open spec fn prover_step<T: crate::transcript::Transcript>(
    st: ProverRound,
    dl: nat,
    dr: nat,
    gg: Seq<nat>,
    gh: nat,
) -> Option<ProverRound> {
    let mid = mid_len(st.a.len()) as int;
    let a1 = st.a.take(mid);
    let a2 = st.a.skip(mid);
    let b1 = st.b.map(|i: int, r: Seq<nat>| r.take(mid));
    let b2 = st.b.map(|i: int, r: Seq<nat>| r.skip(mid));
    let g1 = st.g.take(mid);
    let g2 = st.g.skip(mid);
    let h1 = st.h.map(|i: int, r: Seq<nat>| r.take(mid));
    let h2 = st.h.map(|i: int, r: Seq<nat>| r.skip(mid));
    let cl = Seq::new(st.b.len(), |row: int| ip_nat(a1, b2[row]));
    let cr = Seq::new(st.b.len(), |row: int| ip_nat(a2, b1[row]));
    let lv = msm_nat(pairs(a1, g2) + pairs(cl, gg) + seq![(dl, gh)] + row_pairs(b2, h1));
    let rv = msm_nat(pairs(a2, g1) + pairs(cr, gg) + seq![(dr, gh)] + row_pairs(b1, h2));
    let ts1 = st.ts.push(lv).push(rv);
    let e = T::challenge_at(ts1);
    if e == 0 {
        None
    } else {
        let ie = crate::scalars::inv_mod(e);
        let e_sq = (e * e) % group_order();
        let ie_sq = (ie * ie) % group_order();
        Some(
            ProverRound {
                a: fold_seq(a1, a2, e, ie),
                b: Seq::new(st.b.len(), |row: int| fold_seq(b1[row], b2[row], ie, e)),
                g: fold_seq(g1, g2, ie, e),
                h: Seq::new(st.h.len(), |row: int| fold_seq(h1[row], h2[row], e, ie)),
                alpha: (st.alpha + (((dl * e_sq) % group_order() + (dr * ie_sq) % group_order())
                    % group_order())) % group_order(),
                ts: T::after_squeeze(ts1),
                ls: st.ls.push(lv),
                rs: st.rs.push(rv),
            },
        )
    }
}

/// All folding rounds of the prover, consuming one (d_l, d_r) pair per round,
/// until a single element is left.  `None` when any round's challenge is zero.
pub open spec fn prover_rounds<T: crate::transcript::Transcript>(
    st: ProverRound,
    dls: Seq<nat>,
    drs: Seq<nat>,
    gg: Seq<nat>,
    gh: nat,
) -> Option<ProverRound>
    decreases st.a.len(),
{
    if st.a.len() <= 1 {
        Some(st)
    } else {
        match prover_step::<T>(st, dls[0], drs[0], gg, gh) {
            None => None,
            Some(st2) => prover_rounds::<T>(st2, dls.skip(1), drs.skip(1), gg, gh),
        }
    }
}

/// The closing step of the prover once a single element is left: commit to
/// the final blinds as `a_point` and `b_point`, absorb them, squeeze the
/// closing challenge, and answer.  `None` when the challenge is zero.
pub open spec fn prover_close<T: crate::transcript::Transcript>(
    st: ProverRound,
    r: nat,
    s: Seq<nat>,
    delta: nat,
    tau: nat,
    gg: Seq<nat>,
    gh: nat,
) -> Option<(ProofView, Seq<nat>)> {
    let k = s.len();
    let hcol = Seq::new(k, |row: int| st.h[row][0]);
    let gcoef = Seq::new(
        k,
        |row: int| ((r * st.b[row][0]) % group_order() + (s[row] * st.a[0]) % group_order())
            % group_order(),
    );
    let av = msm_nat(seq![(r, st.g[0]), (delta, gh)] + pairs(s, hcol) + pairs(gcoef, gg));
    let bv = msm_nat(
        seq![(tau, gh)] + pairs(Seq::new(k, |row: int| (r * s[row]) % group_order()), gg),
    );
    let ts1 = st.ts.push(av).push(bv);
    let e = T::challenge_at(ts1);
    if e == 0 {
        None
    } else {
        let e_sq = (e * e) % group_order();
        Some(
            (
                ProofView {
                    ls: st.ls,
                    rs: st.rs,
                    a_point: av,
                    b_point: bv,
                    r_answer: (r + (st.a[0] * e) % group_order()) % group_order(),
                    s_answer: Seq::new(
                        k,
                        |row: int| (s[row] + (st.b[row][0] * e) % group_order()) % group_order(),
                    ),
                    delta_answer: ((tau + (delta * e) % group_order()) % group_order() + (st.alpha
                        * e_sq) % group_order()) % group_order(),
                },
                T::after_squeeze(ts1),
            ),
        )
    }
}

/// The whole proving computation as a function of the witness, the
/// generators, the blinds and the starting transcript history: the folding
/// rounds followed by the closing step.  `None` when any squeezed challenge
/// is zero.
pub open spec fn prove_spec<T: crate::transcript::Transcript>(
    a: Seq<nat>,
    b: Seq<Seq<nat>>,
    alpha: nat,
    g: Seq<nat>,
    h: Seq<Seq<nat>>,
    gg: Seq<nat>,
    gh: nat,
    dls: Seq<nat>,
    drs: Seq<nat>,
    r: nat,
    s: Seq<nat>,
    delta: nat,
    tau: nat,
    ts0: Seq<nat>,
) -> Option<(ProofView, Seq<nat>)> {
    let st0 = ProverRound {
        a,
        b,
        g,
        h,
        alpha,
        ts: ts0,
        ls: Seq::<nat>::empty(),
        rs: Seq::<nat>::empty(),
    };
    match prover_rounds::<T>(st0, dls, drs, gg, gh) {
        None => None,
        Some(st) => prover_close::<T>(st, r, s, delta, tau, gg, gh),
    }
}

} // verus!
