use pasta_curves::{Ep, Fq};
use group::Group;
use wip_argument::msm::{inner_product, P};
use wip_argument::transcript::{Blake2bTranscript, ScriptedTranscript, Transcript};
use wip_argument::wip::{Blinds, WipError, WipProof, WipWitness};
use wip_argument::prover::{count_rounds, prove, prove_with_blinds};
use wip_argument::verification::verify;

fn fq(x: u64) -> Fq {
    Fq::from(x)
}

fn random_point() -> Ep {
    Ep::random(rand::rngs::OsRng)
}

struct Setup {
    witness: WipWitness,
    gens_g: Vec<Ep>,
    gens_h: Vec<Vec<Ep>>,
    gen_g: Vec<Ep>,
    gen_h: Ep,
    commit: Ep,
}

/// Witness a = [2,3,2,2], one weight row b = [1,2,1,1], alpha = 5, random
/// generators of size 4, with the commitment computed from the opening
/// relation directly.
fn scenario() -> Setup {
    let a = vec![fq(2), fq(3), fq(2), fq(2)];
    let b = vec![vec![fq(1), fq(2), fq(1), fq(1)]];
    let alpha = fq(5);
    let gens_g: Vec<Ep> = (0..4).map(|_| random_point()).collect();
    let gens_h: Vec<Vec<Ep>> = vec![(0..4).map(|_| random_point()).collect()];
    let gen_g = vec![random_point()];
    let gen_h = random_point();
    let ip = inner_product(&a, &b[0]);
    let mut commit = Ep::identity();
    for i in 0..4 {
        commit += gens_g[i] * a[i];
    }
    for j in 0..4 {
        commit += gens_h[0][j] * b[0][j];
    }
    commit += gen_g[0] * ip;
    commit += gen_h * alpha;
    Setup { witness: WipWitness { a, b, alpha }, gens_g, gens_h, gen_g, gen_h, commit }
}

fn fixed_blinds(rounds: usize, k: usize) -> Blinds {
    Blinds {
        d_l: (0..rounds).map(|i| fq(101 + i as u64)).collect(),
        d_r: (0..rounds).map(|i| fq(201 + i as u64)).collect(),
        r: fq(31),
        s: (0..k).map(|i| fq(41 + i as u64)).collect(),
        delta: fq(51),
        tau: fq(61),
    }
}

fn prove_scenario(s: &Setup) -> WipProof {
    let mut t = Blake2bTranscript::new();
    prove(
        &mut t,
        &s.witness,
        &s.gens_g,
        &s.gens_h,
        &s.gen_g,
        &s.gen_h,
        &P::Point(s.commit),
    )
    .unwrap()
}

fn verify_scenario(s: &Setup, proof: &WipProof) -> Result<(), WipError> {
    let mut t = Blake2bTranscript::new();
    verify(
        &mut t,
        proof,
        &s.gens_g,
        &s.gens_h,
        &s.gen_g,
        &s.gen_h,
        &P::Point(s.commit),
    )
}

#[test]
fn end_to_end_accepts() {
    let s = scenario();
    let proof = prove_scenario(&s);
    assert_eq!(proof.l.len(), 2);
    assert_eq!(proof.r.len(), 2);
    assert_eq!(verify_scenario(&s, &proof), Ok(()));
}

#[test]
fn end_to_end_accepts_with_term_list_commitment() {
    let s = scenario();
    let mut t = Blake2bTranscript::new();
    let proof = prove(
        &mut t,
        &s.witness,
        &s.gens_g,
        &s.gens_h,
        &s.gen_g,
        &s.gen_h,
        &P::Terms(vec![(fq(1), s.commit)]),
    )
    .unwrap();
    let mut t2 = Blake2bTranscript::new();
    let res = verify(
        &mut t2,
        &proof,
        &s.gens_g,
        &s.gens_h,
        &s.gen_g,
        &s.gen_h,
        &P::Terms(vec![(fq(1), s.commit)]),
    );
    assert_eq!(res, Ok(()));
}

#[test]
fn multi_row_end_to_end_accepts() {
    let a = vec![fq(2), fq(3), fq(2), fq(2)];
    let b = vec![
        vec![fq(1), fq(0), fq(0), fq(0)],
        vec![fq(0), fq(1), fq(0), fq(0)],
        vec![fq(0), fq(0), fq(1), fq(0)],
        vec![fq(0), fq(0), fq(0), fq(1)],
    ];
    let alpha = fq(5);
    let gens_g: Vec<Ep> = (0..4).map(|_| random_point()).collect();
    let gens_h: Vec<Vec<Ep>> = (0..4).map(|_| (0..4).map(|_| random_point()).collect()).collect();
    let gen_g: Vec<Ep> = (0..4).map(|_| random_point()).collect();
    let gen_h = random_point();
    let mut commit = Ep::identity();
    for i in 0..4 {
        commit += gens_g[i] * a[i];
    }
    for r in 0..4 {
        for j in 0..4 {
            commit += gens_h[r][j] * b[r][j];
        }
        commit += gen_g[r] * inner_product(&a, &b[r]);
    }
    commit += gen_h * alpha;
    let witness = WipWitness { a, b, alpha };
    let mut t = Blake2bTranscript::new();
    let proof = prove(&mut t, &witness, &gens_g, &gens_h, &gen_g, &gen_h, &P::Point(commit))
        .unwrap();
    let mut t2 = Blake2bTranscript::new();
    let res = verify(&mut t2, &proof, &gens_g, &gens_h, &gen_g, &gen_h, &P::Point(commit));
    assert_eq!(res, Ok(()));
}

#[test]
fn perturbing_r_answer_rejects() {
    let s = scenario();
    let mut proof = prove_scenario(&s);
    proof.r_answer += fq(1);
    assert_eq!(verify_scenario(&s, &proof), Err(WipError::VerificationFailure));
}

#[test]
fn perturbing_s_answer_rejects() {
    let s = scenario();
    let mut proof = prove_scenario(&s);
    proof.s_answer[0] += fq(1);
    assert_eq!(verify_scenario(&s, &proof), Err(WipError::VerificationFailure));
}

#[test]
fn perturbing_delta_answer_rejects() {
    let s = scenario();
    let mut proof = prove_scenario(&s);
    proof.delta_answer += fq(1);
    assert_eq!(verify_scenario(&s, &proof), Err(WipError::VerificationFailure));
}

#[test]
fn perturbing_l_rejects() {
    let s = scenario();
    let mut proof = prove_scenario(&s);
    proof.l[0] = proof.l[0] + random_point();
    assert_eq!(verify_scenario(&s, &proof), Err(WipError::VerificationFailure));
}

#[test]
fn perturbing_r_commitment_rejects() {
    let s = scenario();
    let mut proof = prove_scenario(&s);
    proof.r[1] = proof.r[1] + random_point();
    assert_eq!(verify_scenario(&s, &proof), Err(WipError::VerificationFailure));
}

#[test]
fn perturbing_a_commitment_rejects() {
    let s = scenario();
    let mut proof = prove_scenario(&s);
    proof.a_point = proof.a_point + random_point();
    assert_eq!(verify_scenario(&s, &proof), Err(WipError::VerificationFailure));
}

#[test]
fn perturbing_b_commitment_rejects() {
    let s = scenario();
    let mut proof = prove_scenario(&s);
    proof.b_point = proof.b_point + random_point();
    assert_eq!(verify_scenario(&s, &proof), Err(WipError::VerificationFailure));
}

#[test]
fn flipping_generator_sign_rejects() {
    let s = scenario();
    let proof = prove_scenario(&s);
    let mut bad_gens = s.gens_g.clone();
    bad_gens[2] = -s.gens_g[2];
    let mut t = Blake2bTranscript::new();
    let res = verify(
        &mut t,
        &proof,
        &bad_gens,
        &s.gens_h,
        &s.gen_g,
        &s.gen_h,
        &P::Point(s.commit),
    );
    assert_eq!(res, Err(WipError::VerificationFailure));
}

#[test]
fn deterministic_with_fixed_blinds_and_transcript() {
    let s = scenario();
    let blinds = fixed_blinds(count_rounds(4), 1);
    let mut t1 = Blake2bTranscript::new();
    let p1 = prove_with_blinds(
        &mut t1,
        &s.witness,
        &s.gens_g,
        &s.gens_h,
        &s.gen_g,
        &s.gen_h,
        &P::Point(s.commit),
        &blinds,
    )
    .unwrap();
    let mut t2 = Blake2bTranscript::new();
    let p2 = prove_with_blinds(
        &mut t2,
        &s.witness,
        &s.gens_g,
        &s.gens_h,
        &s.gen_g,
        &s.gen_h,
        &P::Point(s.commit),
        &blinds,
    )
    .unwrap();
    assert_eq!(p1.l, p2.l);
    assert_eq!(p1.r, p2.r);
    assert_eq!(p1.a_point, p2.a_point);
    assert_eq!(p1.b_point, p2.b_point);
    assert_eq!(p1.r_answer, p2.r_answer);
    assert_eq!(p1.s_answer, p2.s_answer);
    assert_eq!(p1.delta_answer, p2.delta_answer);
    assert_eq!(verify_scenario(&s, &p1), Ok(()));
}

#[test]
fn deterministic_proof_verifies_with_scripted_transcript() {
    let s = scenario();
    let blinds = fixed_blinds(count_rounds(4), 1);
    let script = vec![9u64, 13, 17];
    let mut t1 = ScriptedTranscript::new(&script);
    let p1 = prove_with_blinds(
        &mut t1,
        &s.witness,
        &s.gens_g,
        &s.gens_h,
        &s.gen_g,
        &s.gen_h,
        &P::Point(s.commit),
        &blinds,
    )
    .unwrap();
    let mut t2 = ScriptedTranscript::new(&script);
    let res = verify(
        &mut t2,
        &p1,
        &s.gens_g,
        &s.gens_h,
        &s.gen_g,
        &s.gen_h,
        &P::Point(s.commit),
    );
    assert_eq!(res, Ok(()));
}

#[test]
fn zero_challenge_fails_proving_first_round() {
    let s = scenario();
    let blinds = fixed_blinds(count_rounds(4), 1);
    let mut t = ScriptedTranscript::new(&vec![0u64]);
    let res = prove_with_blinds(
        &mut t,
        &s.witness,
        &s.gens_g,
        &s.gens_h,
        &s.gen_g,
        &s.gen_h,
        &P::Point(s.commit),
        &blinds,
    );
    assert_eq!(res.unwrap_err(), WipError::ZeroChallenge);
}

#[test]
fn zero_challenge_fails_proving_second_round() {
    let s = scenario();
    let blinds = fixed_blinds(count_rounds(4), 1);
    let mut t = ScriptedTranscript::new(&vec![5u64, 0]);
    let res = prove_with_blinds(
        &mut t,
        &s.witness,
        &s.gens_g,
        &s.gens_h,
        &s.gen_g,
        &s.gen_h,
        &P::Point(s.commit),
        &blinds,
    );
    assert_eq!(res.unwrap_err(), WipError::ZeroChallenge);
}

#[test]
fn zero_challenge_fails_proving_closing_round() {
    let s = scenario();
    let blinds = fixed_blinds(count_rounds(4), 1);
    let mut t = ScriptedTranscript::new(&vec![5u64, 7, 0]);
    let res = prove_with_blinds(
        &mut t,
        &s.witness,
        &s.gens_g,
        &s.gens_h,
        &s.gen_g,
        &s.gen_h,
        &P::Point(s.commit),
        &blinds,
    );
    assert_eq!(res.unwrap_err(), WipError::ZeroChallenge);
}

#[test]
fn zero_challenge_fails_verification() {
    let s = scenario();
    let proof = prove_scenario(&s);
    let mut t = ScriptedTranscript::new(&vec![0u64]);
    let res = verify(
        &mut t,
        &proof,
        &s.gens_g,
        &s.gens_h,
        &s.gen_g,
        &s.gen_h,
        &P::Point(s.commit),
    );
    assert_eq!(res, Err(WipError::ZeroChallenge));
}

#[test]
fn exhausted_script_squeezes_zero() {
    let mut t = ScriptedTranscript::new(&vec![]);
    let c = t.squeeze_challenge();
    assert_eq!(c, fq(0));
}

#[test]
fn dimension_mismatch_on_short_generators() {
    let s = scenario();
    let mut t = Blake2bTranscript::new();
    let short: Vec<Ep> = s.gens_g[0..3].to_vec();
    let res = prove(
        &mut t,
        &s.witness,
        &short,
        &s.gens_h,
        &s.gen_g,
        &s.gen_h,
        &P::Point(s.commit),
    );
    assert_eq!(res.unwrap_err(), WipError::DimensionMismatch);
}

#[test]
fn dimension_mismatch_on_non_power_of_two_witness() {
    let a = vec![fq(2), fq(3), fq(2)];
    let b = vec![vec![fq(1), fq(2), fq(1)]];
    let witness = WipWitness { a, b, alpha: fq(5) };
    let gens_g: Vec<Ep> = (0..3).map(|_| random_point()).collect();
    let gens_h: Vec<Vec<Ep>> = vec![(0..3).map(|_| random_point()).collect()];
    let gen_g = vec![random_point()];
    let gen_h = random_point();
    let mut t = Blake2bTranscript::new();
    let res = prove(
        &mut t,
        &witness,
        &gens_g,
        &gens_h,
        &gen_g,
        &gen_h,
        &P::Terms(vec![]),
    );
    assert_eq!(res.unwrap_err(), WipError::DimensionMismatch);
}

#[test]
fn dimension_mismatch_on_proof_shape() {
    let s = scenario();
    let mut proof = prove_scenario(&s);
    proof.l.pop();
    let res = verify_scenario(&s, &proof);
    assert_eq!(res, Err(WipError::DimensionMismatch));
}

#[test]
fn commitment_mismatch_is_reported() {
    let s = scenario();
    let mut t = Blake2bTranscript::new();
    let res = prove(
        &mut t,
        &s.witness,
        &s.gens_g,
        &s.gens_h,
        &s.gen_g,
        &s.gen_h,
        &P::Point(s.commit + random_point()),
    );
    assert_eq!(res.unwrap_err(), WipError::CommitmentMismatch);
}

#[test]
fn blake2b_transcript_is_deterministic() {
    let p = random_point();
    let q = random_point();
    let mut t1 = Blake2bTranscript::new();
    t1.write_point(&p);
    t1.write_point(&q);
    let c1 = t1.squeeze_challenge();
    let mut t2 = Blake2bTranscript::new();
    t2.write_point(&p);
    t2.write_point(&q);
    let c2 = t2.squeeze_challenge();
    assert_eq!(c1, c2);
    let mut t3 = Blake2bTranscript::new();
    t3.write_point(&q);
    t3.write_point(&p);
    let c3 = t3.squeeze_challenge();
    assert_ne!(c1, c3);
}

#[test]
fn scripted_transcript_replays_its_tape() {
    let mut t = ScriptedTranscript::new(&vec![3u64, 8]);
    t.write_point(&random_point());
    assert_eq!(t.squeeze_challenge(), fq(3));
    t.write_point(&random_point());
    assert_eq!(t.squeeze_challenge(), fq(8));
    assert_eq!(t.squeeze_challenge(), fq(0));
}
