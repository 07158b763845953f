//! The capability contracts of a structured polynomial commitment: which types
//! go together for one backend, how a group of polynomials is committed to as
//! one object, and how it is opened jointly at one point and checked.
use crate::transcript::ProofTranscript;
use vstd::prelude::*;

verus! {

/// Why an opening was refused.
#[derive(PartialEq, Eq, Structural, Clone, Copy, Debug)]
pub enum ProofVerifyError {
    /// The opening point does not fit the shape of the committed group.
    ShapeMismatch,
    /// The claimed values, the commitment, the point and the proof disagree.
    VerificationFailed,
    /// Bytes that do not encode a value of the expected shape.
    MalformedEncoding,
}

/// Binds the field, setup, commitment and proof types of one backend.
pub trait CommitmentScheme: Sized {
    type Field;
    type Generators;
    type Commitment;
    type Proof;
    type BatchedProof;

    /// The setup is usable.
    spec fn valid_generators(gens: &Self::Generators) -> bool;

    /// `self` can be committed to under `gens`.
    spec fn can_commit(&self, gens: &Self::Generators) -> bool;

    /// `c` is the commitment to `self` under `gens`.
    spec fn is_commitment(&self, gens: &Self::Generators, c: &Self::Commitment) -> bool;

    /// Commits to the data this descriptor is specialised for.
    fn commit(&self, gens: Self::Generators) -> (r: Self::Commitment)
        requires
            Self::valid_generators(&gens),
            self.can_commit(&gens),
        ensures
            self.is_commitment(&gens, &r),
    ;
}

/// A collection of related polynomials that is committed to as one object.
pub trait StructuredCommitment<C: CommitmentScheme>: Sized {
    /// The batched commitment to these polynomials.
    type Commitment;

    /// Every polynomial of the group has the same number of variables.
    spec fn wf(&self) -> bool;

    /// The setup is large enough for the group.
    spec fn fits(&self, generators: &C::Generators) -> bool;

    /// `c` is the commitment to the group under `generators`.
    spec fn is_commitment(&self, generators: &C::Generators, c: &Self::Commitment) -> bool;

    /// Commits to the group.
    fn commit(&self, generators: &C::Generators) -> (r: Self::Commitment)
        requires
            self.wf(),
            C::valid_generators(generators),
            self.fits(generators),
        ensures
            self.is_commitment(generators, &r),
    ;
}

/// The claimed evaluations of a structured group at one point, and the way
/// they are proved and checked.
pub trait StructuredOpeningProof<F, C: CommitmentScheme, Polynomials: StructuredCommitment<C>>:
    Sized {
    /// Public data from which the verifier derives some openings itself.
    type Preprocessing;

    /// The evidence that the claimed openings are right.
    type Proof;

    /// Every coordinate of `point` is a field element.
    spec fn valid_point(point: Seq<F>) -> bool;

    /// `point` has as many coordinates as the group has variables.
    spec fn shape_ok(polynomials: &Polynomials, point: Seq<F>) -> bool;

    /// `o` holds the evaluations of the group at `point`, in the group's order.
    spec fn is_opening(polynomials: &Polynomials, point: Seq<F>, o: &Self) -> bool;

    /// `openings` is of the shape that the prover can prove for the group.
    spec fn provable(polynomials: &Polynomials, point: Seq<F>, openings: &Self) -> bool;

    /// `p` is the proof for `openings` from a session in state `t`.
    spec fn is_proof(
        polynomials: &Polynomials,
        point: Seq<F>,
        openings: &Self,
        t: ProofTranscript,
        p: &Self::Proof,
    ) -> bool;

    /// The session state after both parties have absorbed the opening.
    spec fn transcript_after(point: Seq<F>, openings: &Self, t: ProofTranscript) -> ProofTranscript;

    /// Public data the verifier can use.
    spec fn valid_preprocessing(preprocessing: &Self::Preprocessing) -> bool;

    /// `after` is `before` with every opening filled in that the verifier can
    /// derive from `preprocessing` at `point`.
    spec fn filled(before: &Self, preprocessing: &Self::Preprocessing, point: Seq<F>, after: &Self) -> bool;

    /// The shapes of `self`, `proof` and `commitment` fit a point with the
    /// coordinates of `point`.
    spec fn fits_point(
        &self,
        proof: &Self::Proof,
        commitment: &Polynomials::Commitment,
        point: Seq<F>,
    ) -> bool;

    /// The verifier accepts `self` with `proof` against `commitment`.
    spec fn accepts(
        &self,
        generators: &C::Generators,
        proof: &Self::Proof,
        commitment: &Polynomials::Commitment,
        point: Seq<F>,
        t: ProofTranscript,
    ) -> bool;

    /// Evaluates each polynomial of the group at `opening_point`; a point of
    /// the wrong length is refused before any evaluation.
    fn open(polynomials: &Polynomials, opening_point: &[F]) -> (r: Result<Self, ProofVerifyError>)
        requires
            polynomials.wf(),
            Self::valid_point(opening_point@),
        ensures
            match r {
                Ok(o) => Self::shape_ok(polynomials, opening_point@) && Self::is_opening(
                    polynomials,
                    opening_point@,
                    &o,
                ),
                Err(e) => !Self::shape_ok(polynomials, opening_point@) && e
                    == ProofVerifyError::ShapeMismatch,
            },
    ;

    /// Proves that the group, evaluated at `opening_point`, gives `openings`.
    fn prove_openings(
        polynomials: &Polynomials,
        opening_point: &[F],
        openings: &Self,
        transcript: &mut ProofTranscript,
    ) -> (r: Self::Proof)
        requires
            polynomials.wf(),
            Self::valid_point(opening_point@),
            Self::shape_ok(polynomials, opening_point@),
            Self::provable(polynomials, opening_point@, openings),
            old(transcript).wf(),
        ensures
            Self::is_proof(polynomials, opening_point@, openings, *old(transcript), &r),
            *final(transcript) == Self::transcript_after(opening_point@, openings, *old(transcript)),
    ;

    /// Replaces the openings that the verifier can compute by itself with its
    /// own values. Every backend writes this hook, even one that derives
    /// nothing: a body shared by all backends could not be proved against a
    /// `filled` that each backend defines for itself, so the trait has none.
    fn compute_verifier_openings(
        &mut self,
        preprocessing: &Self::Preprocessing,
        opening_point: &[F],
    )
        requires
            Self::valid_preprocessing(preprocessing),
            Self::valid_point(opening_point@),
        ensures
            Self::filled(old(self), preprocessing, opening_point@, final(self)),
    ;

    /// Checks the opening against `commitment` at `opening_point`; shapes that
    /// do not fit the point are refused before anything is absorbed.
    fn verify_openings(
        &self,
        generators: &C::Generators,
        opening_proof: &Self::Proof,
        commitment: &Polynomials::Commitment,
        opening_point: &[F],
        transcript: &mut ProofTranscript,
    ) -> (r: Result<(), ProofVerifyError>)
        requires
            C::valid_generators(generators),
            Self::valid_point(opening_point@),
            old(transcript).wf(),
        ensures
            r is Ok <==> self.accepts(
                generators,
                opening_proof,
                commitment,
                opening_point@,
                *old(transcript),
            ),
            r == Err::<(), ProofVerifyError>(ProofVerifyError::ShapeMismatch) <==> !self.fits_point(
                opening_proof,
                commitment,
                opening_point@,
            ),
            r is Err ==> r == Err::<(), ProofVerifyError>(ProofVerifyError::ShapeMismatch) || r
                == Err::<(), ProofVerifyError>(ProofVerifyError::VerificationFailed),
            r == Err::<(), ProofVerifyError>(ProofVerifyError::ShapeMismatch) ==> *final(transcript)
                == *old(transcript),
            r is Ok ==> *final(transcript) == Self::transcript_after(
                opening_point@,
                self,
                *old(transcript),
            ),
    ;
}

} // verus!
