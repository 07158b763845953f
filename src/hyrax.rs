//! A backend for the structured contracts: the tables of a group are laid
//! side by side and committed to as one vector under shared generators, so the
//! commitment is one field element whatever the size of the group. The proof
//! is the laid-out vector itself: the verifier checks it against the
//! commitment and evaluates each table's slice at the point. The proof is as
//! long as the group's tables; a folding argument would make it short.
use crate::field::{all_fe, all_reduced, fmod, ints, lemma_fmod_range};
use crate::layout::{
    all_len, all_tables_fe, chunk, copy_slice, int_tables, lay_out, lemma_chunk, lemma_side_by_side,
    side_by_side,
};
use crate::pedersen::{commit_vector, lin, PedersenGenerators};
use crate::poly::{evaluate, ml_eval, pow2, table_len_matches};
use crate::structured::{CommitmentScheme, ProofVerifyError, StructuredCommitment, StructuredOpeningProof};
use crate::transcript::{absorb_seq, ProofTranscript};
use vstd::prelude::*;

verus! {

/// The backend descriptor, holding the group it commits to by itself.
pub struct HyraxConfig {
    pub group: StructuredPolynomials,
}

/// The commitment to one table under `g`.
pub open spec fn commitment_of(g: &PedersenGenerators, t: Seq<int>) -> int {
    fmod(lin(g.view_ints(), t))
}

impl CommitmentScheme for HyraxConfig {
    type Field = u64;
    type Generators = PedersenGenerators;
    type Commitment = GroupCommitment;
    type Proof = BatchedOpeningProof;
    type BatchedProof = BatchedOpeningProof;

    open spec fn valid_generators(gens: &PedersenGenerators) -> bool {
        gens.wf()
    }

    open spec fn can_commit(&self, gens: &PedersenGenerators) -> bool {
        self.group.group_wf() && self.group.group_fits(gens)
    }

    open spec fn is_commitment(&self, gens: &PedersenGenerators, c: &GroupCommitment) -> bool {
        self.group.committed_by(gens, c)
    }

    fn commit(&self, gens: PedersenGenerators) -> (r: GroupCommitment) {
        self.group.commit_group(&gens)
    }
}

/// A group of multilinear polynomials over the same variables, each given by
/// its table of evaluations on the hypercube.
pub struct StructuredPolynomials {
    pub num_vars: usize,
    pub polys: Vec<Vec<u64>>,
}

impl StructuredPolynomials {
    /// The tables read as integers.
    pub open spec fn tables(&self) -> Seq<Seq<int>> {
        int_tables(self.polys@)
    }
}

/// The commitment to a whole group: one field element.
pub struct GroupCommitment {
    pub commitment: u64,
}

impl StructuredPolynomials {
    /// Every table has `2^num_vars` field elements.
    pub open spec fn group_wf(&self) -> bool {
        &&& pow2(self.num_vars as nat) <= usize::MAX
        &&& forall|k: int|
            0 <= k < self.polys@.len() ==> (#[trigger] self.polys@[k])@.len() == pow2(
                self.num_vars as nat,
            ) && all_fe(self.polys@[k]@)
    }

    /// The setup has a generator for every entry of the laid-out tables.
    pub open spec fn group_fits(&self, generators: &PedersenGenerators) -> bool {
        self.polys@.len() * pow2(self.num_vars as nat) <= generators.generators@.len()
    }

    /// `c` commits to the tables of the group laid side by side.
    pub open spec fn committed_by(&self, generators: &PedersenGenerators, c: &GroupCommitment) -> bool {
        c.commitment == commitment_of(generators, ints(side_by_side(self.polys@)))
    }

    /// Commits to the tables of the group laid side by side.
    pub fn commit_group(&self, generators: &PedersenGenerators) -> (r: GroupCommitment)
        requires
            self.group_wf(),
            generators.wf(),
            self.group_fits(generators),
        ensures
            self.committed_by(generators, &r),
    {
        let flat = lay_out(&self.polys);
        proof {
            lemma_side_by_side(self.polys@, pow2(self.num_vars as nat));
        }
        GroupCommitment { commitment: commit_vector(generators, &flat) }
    }
}

impl StructuredCommitment<HyraxConfig> for StructuredPolynomials {
    type Commitment = GroupCommitment;

    open spec fn wf(&self) -> bool {
        self.group_wf()
    }

    open spec fn fits(&self, generators: &PedersenGenerators) -> bool {
        self.group_fits(generators)
    }

    open spec fn is_commitment(&self, generators: &PedersenGenerators, c: &GroupCommitment) -> bool {
        self.committed_by(generators, c)
    }

    fn commit(&self, generators: &PedersenGenerators) -> (r: GroupCommitment) {
        self.commit_group(generators)
    }
}

/// The claimed evaluations of a group at one point, in the group's order. Where
/// the verifier derived a value itself, it stands in `values` and the prover's
/// claim at that position is kept in `prover_claims`.
pub struct BatchedOpenings {
    pub values: Vec<u64>,
    pub prover_claims: Vec<Option<u64>>,
}

/// The tables of the group laid side by side.
pub struct BatchedOpeningProof {
    pub tables: Vec<u64>,
}

/// Tables of the group that are public, by position in the group, and the
/// number of variables of the group.
pub struct OpeningPreprocessing {
    pub num_vars: usize,
    pub public: Vec<Option<Vec<u64>>>,
}

/// The session state after `point` and then `values` are absorbed into a
/// session in state `t`.
pub open spec fn absorbed(point: Seq<u64>, values: Seq<u64>, t: ProofTranscript) -> int {
    absorb_seq(absorb_seq(t.state as int, ints(point)), ints(values))
}

/// What the verifier derives for position `k` from `pre` at `point`, if anything.
pub open spec fn derived(pre: &OpeningPreprocessing, k: int, point: Seq<u64>) -> Option<u64> {
    if point.len() == pre.num_vars && 0 <= k < pre.public@.len() {
        match pre.public@[k] {
            Some(t) => if t@.len() == pow2(point.len()) {
                Some(fmod(ml_eval(ints(t@), ints(point))) as u64)
            } else {
                None
            },
            None => None,
        }
    } else {
        None
    }
}

/// Every claim that the verifier replaced agrees with its own value.
pub open spec fn claims_agree(o: &BatchedOpenings) -> bool {
    &&& o.prover_claims@.len() == o.values@.len()
    &&& forall|k: int|
        0 <= k < o.values@.len() ==> match #[trigger] o.prover_claims@[k] {
            Some(v) => v == o.values@[k],
            None => true,
        }
}

/// `o` holds the evaluations of `polys` at `point` and nothing derived yet.
pub open spec fn opening_of(polys: &StructuredPolynomials, point: Seq<u64>, o: &BatchedOpenings) -> bool {
    &&& o.values@.len() == polys.polys@.len()
    &&& forall|k: int|
        0 <= k < o.values@.len() ==> (#[trigger] o.values@[k]) == fmod(
            ml_eval(polys.tables()[k], ints(point)),
        )
    &&& o.prover_claims@.len() == o.values@.len()
    &&& forall|k: int| 0 <= k < o.values@.len() ==> (#[trigger] o.prover_claims@[k]) is None
}

/// `p` is the proof for the group: its tables laid side by side.
pub open spec fn proof_of(polys: &StructuredPolynomials, p: &BatchedOpeningProof) -> bool {
    p.tables@ == side_by_side(polys.polys@)
}

/// The claim that the prover's opening held at position `k` before `o` was
/// last filled, if the verifier replaced it.
pub open spec fn earlier_claim(o: &BatchedOpenings, k: int) -> Option<u64> {
    if k < o.prover_claims@.len() {
        o.prover_claims@[k]
    } else {
        None
    }
}

/// The prover's own claim at position `k` of `o`.
pub open spec fn original_claim(o: &BatchedOpenings, k: int) -> u64 {
    match earlier_claim(o, k) {
        Some(c) => c,
        None => o.values@[k],
    }
}

/// `after` is `before` with every derivable value replaced by the verifier's
/// own; the prover's claim at each replaced position is kept aside. A point
/// that does not fit the preprocessing changes nothing.
pub open spec fn filled_from(
    before: &BatchedOpenings,
    pre: &OpeningPreprocessing,
    point: Seq<u64>,
    after: &BatchedOpenings,
) -> bool {
    if point.len() != pre.num_vars {
        after.values@ == before.values@ && after.prover_claims@ == before.prover_claims@
    } else {
        &&& after.values@.len() == before.values@.len()
        &&& after.prover_claims@.len() == before.values@.len()
        &&& forall|k: int|
            0 <= k < before.values@.len() ==> (#[trigger] after.values@[k]) == match derived(
                pre,
                k,
                point,
            ) {
                Some(v) => v,
                None => before.values@[k],
            }
        &&& forall|k: int|
            0 <= k < before.values@.len() ==> (#[trigger] after.prover_claims@[k]) == match derived(
                pre,
                k,
                point,
            ) {
                Some(v) => Some(original_claim(before, k)),
                None => earlier_claim(before, k),
            }
    }
}

/// The proof holds one table per claimed value, each with one entry per
/// vertex of the point's hypercube.
pub open spec fn shape_fits(o: &BatchedOpenings, p: &BatchedOpeningProof, point: Seq<u64>) -> bool {
    p.tables@.len() == o.values@.len() * pow2(point.len())
}

/// The verifier's check of `o` with `p` against `c` at `point`.
pub open spec fn accepted(
    o: &BatchedOpenings,
    gens: &PedersenGenerators,
    p: &BatchedOpeningProof,
    c: &GroupCommitment,
    point: Seq<u64>,
) -> bool {
    let vals = o.values@;
    let tables = p.tables@;
    let n = pow2(point.len());
    &&& shape_fits(o, p, point)
    &&& claims_agree(o)
    &&& all_fe(vals)
    &&& tables.len() <= gens.generators@.len()
    &&& all_fe(tables)
    &&& c.commitment == commitment_of(gens, ints(tables))
    &&& forall|k: int|
        0 <= k < vals.len() ==> (#[trigger] vals[k]) == fmod(
            ml_eval(ints(chunk(tables, k, n)), ints(point)),
        )
}

/// Checks that every derived value agrees with the claimed one.
fn check_claims(o: &BatchedOpenings) -> (r: bool)
    ensures
        r == claims_agree(o),
{
    if o.prover_claims.len() != o.values.len() {
        return false;
    }
    let mut k: usize = 0;
    while k < o.values.len()
        invariant
            o.prover_claims@.len() == o.values@.len(),
            k <= o.values@.len(),
            forall|j: int|
                0 <= j < k ==> match #[trigger] o.prover_claims@[j] {
                    Some(v) => v == o.values@[j],
                    None => true,
                },
        decreases o.values@.len() - k,
    {
        match o.prover_claims[k] {
            Some(v) => {
                if v != o.values[k] {
                    return false;
                }
            },
            None => {},
        }
        k = k + 1;
    }
    true
}

impl StructuredOpeningProof<u64, HyraxConfig, StructuredPolynomials> for BatchedOpenings {
    type Preprocessing = OpeningPreprocessing;
    type Proof = BatchedOpeningProof;

    open spec fn valid_point(point: Seq<u64>) -> bool {
        all_fe(point)
    }

    open spec fn shape_ok(polynomials: &StructuredPolynomials, point: Seq<u64>) -> bool {
        point.len() == polynomials.num_vars
    }

    open spec fn is_opening(polynomials: &StructuredPolynomials, point: Seq<u64>, o: &Self) -> bool {
        opening_of(polynomials, point, o)
    }

    open spec fn provable(polynomials: &StructuredPolynomials, point: Seq<u64>, openings: &Self) -> bool {
        all_fe(openings.values@)
    }

    open spec fn is_proof(
        polynomials: &StructuredPolynomials,
        point: Seq<u64>,
        openings: &Self,
        t: ProofTranscript,
        p: &BatchedOpeningProof,
    ) -> bool {
        proof_of(polynomials, p)
    }

    open spec fn transcript_after(point: Seq<u64>, openings: &Self, t: ProofTranscript) -> ProofTranscript {
        ProofTranscript { state: absorbed(point, openings.values@, t) as u64 }
    }

    open spec fn valid_preprocessing(preprocessing: &OpeningPreprocessing) -> bool {
        forall|k: int|
            0 <= k < preprocessing.public@.len() ==> match #[trigger] preprocessing.public@[k] {
                Some(t) => all_fe(t@),
                None => true,
            }
    }

    open spec fn filled(
        before: &Self,
        preprocessing: &OpeningPreprocessing,
        point: Seq<u64>,
        after: &Self,
    ) -> bool {
        filled_from(before, preprocessing, point, after)
    }

    open spec fn fits_point(
        &self,
        proof: &BatchedOpeningProof,
        commitment: &GroupCommitment,
        point: Seq<u64>,
    ) -> bool {
        shape_fits(self, proof, point)
    }

    open spec fn accepts(
        &self,
        generators: &PedersenGenerators,
        proof: &BatchedOpeningProof,
        commitment: &GroupCommitment,
        point: Seq<u64>,
        t: ProofTranscript,
    ) -> bool {
        accepted(self, generators, proof, commitment, point)
    }

    fn open(polynomials: &StructuredPolynomials, opening_point: &[u64]) -> (r: Result<
        Self,
        ProofVerifyError,
    >) {
        if opening_point.len() != polynomials.num_vars {
            return Err(ProofVerifyError::ShapeMismatch);
        }
        let mut values: Vec<u64> = Vec::new();
        let mut prover_claims: Vec<Option<u64>> = Vec::new();
        let mut k: usize = 0;
        while k < polynomials.polys.len()
            invariant
                polynomials.wf(),
                all_fe(opening_point@),
                opening_point@.len() == polynomials.num_vars,
                k <= polynomials.polys@.len(),
                values@.len() == k,
                prover_claims@.len() == k,
                forall|j: int|
                    0 <= j < k ==> (#[trigger] values@[j]) == fmod(
                        ml_eval(polynomials.tables()[j], ints(opening_point@)),
                    ),
                forall|j: int| 0 <= j < k ==> (#[trigger] prover_claims@[j]) is None,
            decreases polynomials.polys@.len() - k,
        {
            let v = evaluate(&polynomials.polys[k], opening_point);
            values.push(v);
            prover_claims.push(None);
            k = k + 1;
        }
        Ok(BatchedOpenings { values, prover_claims })
    }

    fn prove_openings(
        polynomials: &StructuredPolynomials,
        opening_point: &[u64],
        openings: &Self,
        transcript: &mut ProofTranscript,
    ) -> (r: BatchedOpeningProof) {
        transcript.append_scalars(opening_point);
        transcript.append_scalars(openings.values.as_slice());
        BatchedOpeningProof { tables: lay_out(&polynomials.polys) }
    }

    fn compute_verifier_openings(
        &mut self,
        preprocessing: &OpeningPreprocessing,
        opening_point: &[u64],
    ) {
        if opening_point.len() != preprocessing.num_vars {
            return;
        }
        let ghost before = *self;
        let n = self.values.len();
        let mut values: Vec<u64> = Vec::new();
        let mut claims: Vec<Option<u64>> = Vec::new();
        let mut k: usize = 0;
        while k < n
            invariant
                n == before.values@.len(),
                *self == before,
                all_fe(opening_point@),
                opening_point@.len() == preprocessing.num_vars,
                Self::valid_preprocessing(preprocessing),
                k <= n,
                values@.len() == k,
                claims@.len() == k,
                forall|j: int|
                    0 <= j < k ==> (#[trigger] values@[j]) == match derived(
                        preprocessing,
                        j,
                        opening_point@,
                    ) {
                        Some(v) => v,
                        None => before.values@[j],
                    },
                forall|j: int|
                    0 <= j < k ==> (#[trigger] claims@[j]) == match derived(
                        preprocessing,
                        j,
                        opening_point@,
                    ) {
                        Some(v) => Some(original_claim(&before, j)),
                        None => earlier_claim(&before, j),
                    },
            decreases n - k,
        {
            let mut d: Option<u64> = None;
            if k < preprocessing.public.len() {
                match &preprocessing.public[k] {
                    Some(t) => {
                        assert(all_fe(t@));
                        if table_len_matches(t.len(), opening_point.len()) {
                            d = Some(evaluate(t, opening_point));
                        }
                    },
                    None => {},
                }
            }
            let earlier = if k < self.prover_claims.len() {
                self.prover_claims[k]
            } else {
                None
            };
            match d {
                Some(x) => {
                    values.push(x);
                    let claim = match earlier {
                        Some(c) => c,
                        None => self.values[k],
                    };
                    claims.push(Some(claim));
                },
                None => {
                    values.push(self.values[k]);
                    claims.push(earlier);
                },
            }
            k = k + 1;
        }
        self.values = values;
        self.prover_claims = claims;
    }

    fn verify_openings(
        &self,
        generators: &PedersenGenerators,
        opening_proof: &BatchedOpeningProof,
        commitment: &GroupCommitment,
        opening_point: &[u64],
        transcript: &mut ProofTranscript,
    ) -> (r: Result<(), ProofVerifyError>) {
        let table = &opening_proof.tables;
        let m = self.values.len();
        let len = table.len();
        let ghost pn = pow2(opening_point@.len());
        let mut n: usize = 0;
        if m == 0 {
            if len != 0 {
                return Err(ProofVerifyError::ShapeMismatch);
            }
        } else {
            proof {
                vstd::arithmetic::div_mod::lemma_fundamental_div_mod(len as int, m as int);
                if len == m * pn {
                    vstd::arithmetic::div_mod::lemma_fundamental_div_mod_converse(
                        len as int,
                        m as int,
                        pn as int,
                        0,
                    );
                }
            }
            if len % m != 0 || !table_len_matches(len / m, opening_point.len()) {
                return Err(ProofVerifyError::ShapeMismatch);
            }
            n = len / m;
        }
        assert(len == m * pn);
        assert(shape_fits(self, opening_proof, opening_point@));
        if !check_claims(self) || !all_reduced(self.values.as_slice()) {
            return Err(ProofVerifyError::VerificationFailed);
        }
        transcript.append_scalars(opening_point);
        transcript.append_scalars(self.values.as_slice());
        if len > generators.generators.len() || !all_reduced(table.as_slice()) {
            return Err(ProofVerifyError::VerificationFailed);
        }
        if commit_vector(generators, table) != commitment.commitment {
            return Err(ProofVerifyError::VerificationFailed);
        }
        let mut k: usize = 0;
        while k < m
            invariant
                m == self.values@.len(),
                shape_fits(self, opening_proof, opening_point@),
                table@ == opening_proof.tables@,
                len == table@.len(),
                len == m * pn,
                m > 0 ==> n == pn,
                all_fe(table@),
                all_fe(opening_point@),
                pn == pow2(opening_point@.len()),
                k <= m,
                forall|j: int|
                    0 <= j < k ==> (#[trigger] self.values@[j]) == fmod(
                        ml_eval(ints(chunk(table@, j, pn)), ints(opening_point@)),
                    ),
            decreases m - k,
        {
            assert(k * n + n <= m * n) by (nonlinear_arith)
                requires
                    k < m,
            ;
            let slice = copy_slice(table, k * n, n);
            assert(slice@ == chunk(table@, k as int, pn));
            let v = evaluate(&slice, opening_point);
            if v != self.values[k] {
                return Err(ProofVerifyError::VerificationFailed);
            }
            k = k + 1;
        }
        Ok(())
    }
}

/// An honest opening proves: the proof that the prover builds for the true
/// evaluations of a group is accepted against the commitment to the group.
pub proof fn lemma_round_trip(
    polys: &StructuredPolynomials,
    gens: &PedersenGenerators,
    point: Seq<u64>,
    c: &GroupCommitment,
    o: &BatchedOpenings,
    p: &BatchedOpeningProof,
)
    requires
        polys.wf(),
        gens.wf(),
        polys.fits(gens),
        all_fe(point),
        point.len() == polys.num_vars,
        polys.is_commitment(gens, c),
        opening_of(polys, point, o),
        proof_of(polys, p),
    ensures
        accepted(o, gens, p, c, point),
{
    let n = pow2(point.len());
    let ts = polys.polys@;
    assert(all_len(ts, n));
    assert(all_tables_fe(ts));
    lemma_side_by_side(ts, n);
    assert forall|k: int| 0 <= k < o.values@.len() implies (#[trigger] o.values@[k]) == fmod(
        ml_eval(ints(chunk(p.tables@, k, n)), ints(point)),
    ) by {
        lemma_chunk(ts, n, k);
        assert(polys.tables()[k] == ints(ts[k]@));
    }
    assert forall|k: int| 0 <= k < o.values@.len() implies crate::field::is_fe(
        #[trigger] o.values@[k],
    ) by {
        lemma_fmod_range(ml_eval(polys.tables()[k], ints(point)));
    }
}

/// Committing is deterministic: two commitments to the same group under the
/// same generators are equal.
pub proof fn lemma_commit_deterministic(
    polys: &StructuredPolynomials,
    gens: &PedersenGenerators,
    c1: &GroupCommitment,
    c2: &GroupCommitment,
)
    requires
        polys.is_commitment(gens, c1),
        polys.is_commitment(gens, c2),
    ensures
        c1.commitment == c2.commitment,
{
}

/// Filling in the openings that public tables determine keeps an honest
/// opening accepted, when those tables are the group's own: the derived values
/// are the claimed ones.
pub proof fn lemma_verifier_openings_keep_honest(
    polys: &StructuredPolynomials,
    gens: &PedersenGenerators,
    point: Seq<u64>,
    c: &GroupCommitment,
    o: &BatchedOpenings,
    p: &BatchedOpeningProof,
    pre: &OpeningPreprocessing,
    o2: &BatchedOpenings,
)
    requires
        polys.wf(),
        gens.wf(),
        polys.fits(gens),
        all_fe(point),
        point.len() == polys.num_vars,
        polys.is_commitment(gens, c),
        opening_of(polys, point, o),
        proof_of(polys, p),
        forall|k: int|
            0 <= k < pre.public@.len() ==> match #[trigger] pre.public@[k] {
                Some(tab) => k < polys.polys@.len() && tab@ == polys.polys@[k]@,
                None => true,
            },
        filled_from(o, pre, point, o2),
    ensures
        o2.values@ == o.values@,
        accepted(o2, gens, p, c, point),
{
    lemma_round_trip(polys, gens, point, c, o, p);
    assert forall|k: int| 0 <= k < o.values@.len() && derived(pre, k, point) is Some implies derived(
        pre,
        k,
        point,
    )->Some_0 == o.values@[k] by {
        match pre.public@[k] {
            Some(tab) => {
                assert(ints(tab@) == polys.tables()[k]);
                lemma_fmod_range(ml_eval(polys.tables()[k], ints(point)));
            },
            None => {},
        }
    }
    if point.len() == pre.num_vars {
        assert(o2.values@ =~= o.values@);
        assert forall|k: int| 0 <= k < o2.values@.len() implies match #[trigger] o2.prover_claims@[k] {
            Some(v) => v == o2.values@[k],
            None => true,
        } by {
            assert(earlier_claim(o, k) is None);
        }
    }
}

/// A verifier that derived an opening rejects every proof whose claim for that
/// position disagrees with it.
pub proof fn lemma_verifier_openings_reject_mismatch(
    gens: &PedersenGenerators,
    point: Seq<u64>,
    c: &GroupCommitment,
    o: &BatchedOpenings,
    p: &BatchedOpeningProof,
    pre: &OpeningPreprocessing,
    o2: &BatchedOpenings,
    k: int,
)
    requires
        filled_from(o, pre, point, o2),
        0 <= k < o.values@.len(),
        derived(pre, k, point) is Some,
        original_claim(o, k) != derived(pre, k, point)->Some_0,
    ensures
        o2.values@[k] == derived(pre, k, point)->Some_0,
        !accepted(o2, gens, p, c, point),
{
    assert(o2.prover_claims@[k] == Some(original_claim(o, k)));
}

/// The values after filling do not depend on what the prover claimed at the
/// derivable positions.
pub proof fn lemma_filled_values_ignore_claims(
    pre: &OpeningPreprocessing,
    point: Seq<u64>,
    o1: &BatchedOpenings,
    o2: &BatchedOpenings,
    a1: &BatchedOpenings,
    a2: &BatchedOpenings,
)
    requires
        point.len() == pre.num_vars,
        o1.values@.len() == o2.values@.len(),
        forall|k: int|
            0 <= k < o1.values@.len() && derived(pre, k, point) is None ==> #[trigger] o1.values@[k]
                == o2.values@[k],
        filled_from(o1, pre, point, a1),
        filled_from(o2, pre, point, a2),
    ensures
        a1.values@ == a2.values@,
{
    assert(a1.values@ =~= a2.values@);
}

} // verus!
