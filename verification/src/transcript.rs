use vstd::prelude::*;
use crate::group_order;
use crate::scalars::{scalar_nat, svals, fq_from_u64};
use crate::points::{point_dlog, pvals};

verus! {

/// The hash-based transcript of halo2_proofs over the Pallas curve, writing
/// its proof stream to an in-memory buffer.  Verus refuses a declaration of
/// `Blake2bWrite` itself (its generics are bounded by outside traits), so the
/// value is held opaquely in a struct of this crate.
#[verifier::external_body]
pub struct NativeTranscript {
    inner: halo2_proofs::transcript::Blake2bWrite<
        Vec<u8>,
        pasta_curves::EpAffine,
        halo2_proofs::transcript::Challenge255<pasta_curves::EpAffine>,
    >,
}

/// The absorbed history of a native transcript, as the sequence of discrete
/// logarithms of the points written into it, with squeezes folded in by
/// `blake2b_squeezed`.
pub uninterp spec fn blake2b_state(t: NativeTranscript) -> Seq<nat>;

/// The challenge that a native transcript squeezes out of a given history.
pub uninterp spec fn blake2b_challenge(s: Seq<nat>) -> nat;

/// The history of a native transcript after a squeeze.
pub uninterp spec fn blake2b_squeezed(s: Seq<nat>) -> Seq<nat>;

/// Relies on halo2_proofs' `Blake2bWrite::init`: a fresh transcript over an
/// empty buffer always starts from the same fixed hash state.
#[verifier::external_body]
fn blake2b_init() -> (r: NativeTranscript)
    ensures
        blake2b_state(r) == Seq::<nat>::empty(),
{
    NativeTranscript { inner: halo2_proofs::transcript::Blake2bWrite::init(vec![]) }
}

/// Relies on halo2_proofs' `TranscriptWrite::write_point`, which absorbs the
/// affine coordinates of the point: the new hash state is a function of the
/// old one and the point alone.  The identity has no affine coordinates and
/// is refused by `write_point`, which then leaves the hash state where the
/// absorbed point prefix put it; it is absorbed as the zero scalar through
/// `Transcript::common_scalar` instead, which keeps the state a function of
/// the old state and the point.
#[verifier::external_body]
fn blake2b_write_point(t: &mut NativeTranscript, p: &pasta_curves::Ep)
    ensures
        blake2b_state(*final(t)) == blake2b_state(*old(t)).push(point_dlog(*p)),
{
    let affine: pasta_curves::EpAffine = group::Curve::to_affine(p);
    let written = halo2_proofs::transcript::TranscriptWrite::write_point(&mut t.inner, affine);
    if written.is_err() {
        let _ = halo2_proofs::transcript::Transcript::common_scalar(
            &mut t.inner,
            <pasta_curves::Fq as ff::Field>::ZERO,
        );
    }
}

/// Relies on halo2_proofs' `Transcript::squeeze_challenge_scalar`: the
/// challenge is a Blake2b hash of everything absorbed so far, so it is a
/// function of the transcript state alone, and the squeeze advances the state
/// as a function of the old state alone.
#[verifier::external_body]
fn blake2b_squeeze(t: &mut NativeTranscript) -> (r: pasta_curves::Fq)
    ensures
        scalar_nat(r) == blake2b_challenge(blake2b_state(*old(t))),
        scalar_nat(r) < group_order(),
        blake2b_state(*final(t)) == blake2b_squeezed(blake2b_state(*old(t))),
{
    let c: halo2_proofs::transcript::ChallengeScalar<pasta_curves::EpAffine, ()> =
        halo2_proofs::transcript::Transcript::squeeze_challenge_scalar(&mut t.inner);
    *c
}

/// A Fiat-Shamir oracle: absorbs points in order, emits challenge scalars.
/// The history is modelled as the sequence of discrete logarithms written, and
/// every challenge is a function of the history at the time of the squeeze, so
/// that identical call sequences yield identical challenges.
pub trait Transcript: Sized {
    /// The absorbed history.
    spec fn state(&self) -> Seq<nat>;

    /// The challenge squeezed out of a given history.
    spec fn challenge_at(s: Seq<nat>) -> nat;

    /// The history after a squeeze.
    spec fn after_squeeze(s: Seq<nat>) -> Seq<nat>;

    /// Absorbs one point.
    fn write_point(&mut self, p: &pasta_curves::Ep)
        ensures
            final(self).state() == old(self).state().push(point_dlog(*p)),
    ;

    /// Derives one challenge scalar from everything absorbed so far.
    fn squeeze_challenge(&mut self) -> (r: pasta_curves::Fq)
        ensures
            scalar_nat(r) == Self::challenge_at(old(self).state()),
            scalar_nat(r) < group_order(),
            final(self).state() == Self::after_squeeze(old(self).state()),
    ;
}

/// The transcript used in production: halo2_proofs' Blake2b write transcript.
pub struct Blake2bTranscript {
    inner: NativeTranscript,
}

impl Blake2bTranscript {
    /// A fresh transcript with an empty history.
    pub fn new() -> (r: Self)
        ensures
            r.state() == Seq::<nat>::empty(),
    {
        Blake2bTranscript { inner: blake2b_init() }
    }
}

impl Transcript for Blake2bTranscript {
    closed spec fn state(&self) -> Seq<nat> {
        blake2b_state(self.inner)
    }

    open spec fn challenge_at(s: Seq<nat>) -> nat {
        blake2b_challenge(s)
    }

    open spec fn after_squeeze(s: Seq<nat>) -> Seq<nat> {
        blake2b_squeezed(s)
    }

    fn write_point(&mut self, p: &pasta_curves::Ep) {
        blake2b_write_point(&mut self.inner, p);
    }

    fn squeeze_challenge(&mut self) -> (r: pasta_curves::Fq) {
        blake2b_squeeze(&mut self.inner)
    }
}

/// A transcript double with a scripted challenge tape: the k-th squeeze hands
/// out the k-th scripted value, and zero once the tape is exhausted.  It makes
/// challenge derivation fully explicit for deterministic runs.
pub struct ScriptedTranscript {
    script: Vec<pasta_curves::Fq>,
    pos: usize,
    writes: Vec<pasta_curves::Ep>,
}

impl ScriptedTranscript {
    /// A scripted transcript whose squeezes hand out the given values in
    /// order, embedded into the scalar field.
    pub fn new(values: &Vec<u64>) -> (r: Self)
        ensures
            r.state() == ScriptedTranscript::tape_state(values@, 0, Seq::<nat>::empty()),
    {
        let mut script: Vec<pasta_curves::Fq> = Vec::new();
        let mut i: usize = 0;
        while i < values.len()
            invariant
                i <= values@.len(),
                script@.len() == i,
                forall|j: int| 0 <= j < i ==> scalar_nat(#[trigger] script@[j]) == values@[j] as nat,
            decreases values@.len() - i,
        {
            let s = fq_from_u64(values[i]);
            script.push(s);
            i += 1;
        }
        let r = ScriptedTranscript { script, pos: 0, writes: Vec::new() };
        proof {
            assert(r.state() =~= ScriptedTranscript::tape_state(values@, 0, Seq::<nat>::empty()));
        }
        r
    }

    /// The history of a scripted transcript holding the given tape, squeeze
    /// count and absorbed points.
    pub open spec fn tape_state(values: Seq<u64>, pos: nat, writes: Seq<nat>) -> Seq<nat> {
        seq![pos, values.len()] + values.map(|k: int, x: u64| x as nat) + writes
    }
}

impl Transcript for ScriptedTranscript {
    closed spec fn state(&self) -> Seq<nat> {
        seq![self.pos as nat, self.script@.len()] + svals(self.script@) + pvals(self.writes@)
    }

    open spec fn challenge_at(s: Seq<nat>) -> nat {
        if s.len() >= 2 && s[0] < s[1] && 2 + s[0] < s.len() {
            s[2 + s[0] as int] % group_order()
        } else {
            0
        }
    }

    open spec fn after_squeeze(s: Seq<nat>) -> Seq<nat> {
        if s.len() >= 2 && s[0] < s[1] {
            s.update(0, s[0] + 1)
        } else {
            s
        }
    }

    fn write_point(&mut self, p: &pasta_curves::Ep) {
        self.writes.push(*p);
        proof {
            assert(self.state() =~= old(self).state().push(point_dlog(*p)));
        }
    }

    fn squeeze_challenge(&mut self) -> (r: pasta_curves::Fq) {
        if self.pos < self.script.len() {
            let tape = self.script[self.pos];
            let one = fq_from_u64(1);
            let r = crate::scalars::fq_mul(&tape, &one);
            self.pos = self.pos + 1;
            proof {
                assert(self.state() =~= Self::after_squeeze(old(self).state()));
            }
            r
        } else {
            let r = fq_from_u64(0);
            proof {
                assert(self.state() =~= Self::after_squeeze(old(self).state()));
            }
            r
        }
    }
}

} // verus!
