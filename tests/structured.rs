use structured_poly::field::{fe_add, fe_mul, fe_sub, MODULUS};
use structured_poly::hyrax::{
    BatchedOpeningProof, BatchedOpenings, GroupCommitment, HyraxConfig, OpeningPreprocessing,
    StructuredPolynomials,
};
use structured_poly::pedersen::{commit_vector, PedersenGenerators};
use structured_poly::poly::{evaluate, table_len_matches};
use structured_poly::structured::{
    CommitmentScheme, ProofVerifyError, StructuredCommitment, StructuredOpeningProof,
};
use structured_poly::transcript::ProofTranscript;

fn group() -> StructuredPolynomials {
    StructuredPolynomials {
        num_vars: 3,
        polys: vec![
            vec![1, 2, 3, 4, 5, 6, 7, 8],
            vec![0, 0, 0, 0, 0, 0, 0, 1],
            vec![9, 8, 7, 6, 5, 4, 3, 2],
            vec![11, 0, 13, 0, 17, 0, 19, 0],
        ],
    }
}

fn gens() -> PedersenGenerators {
    let mut g = vec![3, 5, 7, 11, 13, 17, 19, 23];
    for i in 0..24u64 {
        g.push(29 + 2 * i);
    }
    PedersenGenerators::new(g)
}

struct Session {
    commitment: GroupCommitment,
    openings: BatchedOpenings,
    proof: BatchedOpeningProof,
}

fn prove(point: &[u64]) -> Session {
    let polys = group();
    let commitment = polys.commit(&gens());
    let openings = BatchedOpenings::open(&polys, point).unwrap();
    let mut transcript = ProofTranscript::new(42);
    let proof = BatchedOpenings::prove_openings(&polys, point, &openings, &mut transcript);
    Session { commitment, openings, proof }
}

fn verify(s: &Session, point: &[u64]) -> Result<(), ProofVerifyError> {
    let mut transcript = ProofTranscript::new(42);
    s.openings.verify_openings(&gens(), &s.proof, &s.commitment, point, &mut transcript)
}

#[test]
fn four_polys_three_vars_verify() {
    let point = [5u64, 77, 1000];
    let s = prove(&point);
    assert_eq!(s.openings.values.len(), 4);
    assert_eq!(verify(&s, &point), Ok(()));
    assert_eq!(verify(&s, &[5, 77, 1001]), Err(ProofVerifyError::VerificationFailed));
}

#[test]
fn open_evaluates_each_polynomial() {
    let s = prove(&[0, 1, 1]);
    // index 0b011 of every table
    assert_eq!(s.openings.values, vec![4, 0, 6, 0]);
    let s = prove(&[1, 1, 1]);
    assert_eq!(s.openings.values, vec![8, 1, 2, 0]);
}

#[test]
fn open_refuses_wrong_point_length() {
    let polys = group();
    let r = BatchedOpenings::open(&polys, &[1, 2]);
    assert!(matches!(r, Err(ProofVerifyError::ShapeMismatch)));
    let r = BatchedOpenings::open(&polys, &[1, 2, 3, 4]);
    assert!(matches!(r, Err(ProofVerifyError::ShapeMismatch)));
}

#[test]
fn commit_is_deterministic() {
    let a = group().commit(&gens());
    let b = group().commit(&gens());
    assert_eq!(a.commitment, b.commitment);
    let single = StructuredPolynomials { num_vars: 3, polys: vec![group().polys[0].clone()] };
    let c = single.commit(&gens());
    assert_eq!(c.commitment, 3 + 10 + 21 + 44 + 65 + 102 + 133 + 184);
}

#[test]
fn commitment_size_does_not_depend_on_group_size() {
    let one = StructuredPolynomials { num_vars: 3, polys: vec![group().polys[0].clone()] };
    assert_eq!(one.commit(&gens()).to_bytes().len(), 8);
    assert_eq!(group().commit(&gens()).to_bytes().len(), 8);
}

#[test]
fn commitment_lays_tables_side_by_side() {
    let g = PedersenGenerators::new(vec![1, 10, 100, 1000]);
    let polys = StructuredPolynomials { num_vars: 1, polys: vec![vec![1, 2], vec![3, 4]] };
    assert_eq!(polys.commit(&g).commitment, 1 + 20 + 300 + 4000);
}

#[test]
fn tampered_claim_is_rejected() {
    let point = [5u64, 77, 1000];
    let mut s = prove(&point);
    s.openings.values[2] = fe_add(s.openings.values[2], 1);
    assert_eq!(verify(&s, &point), Err(ProofVerifyError::VerificationFailed));
}

#[test]
fn tampered_proof_is_rejected() {
    let point = [5u64, 77, 1000];
    let mut s = prove(&point);
    s.proof.tables[3] = fe_add(s.proof.tables[3], 1);
    assert_eq!(verify(&s, &point), Err(ProofVerifyError::VerificationFailed));
    let mut s = prove(&point);
    s.proof.tables.pop();
    assert_eq!(verify(&s, &point), Err(ProofVerifyError::ShapeMismatch));
}

#[test]
fn tampered_commitment_is_rejected() {
    let point = [5u64, 77, 1000];
    let mut s = prove(&point);
    s.commitment.commitment = fe_add(s.commitment.commitment, 1);
    assert_eq!(verify(&s, &point), Err(ProofVerifyError::VerificationFailed));
}

#[test]
fn verifier_openings_keep_honest_proof() {
    let point = [5u64, 77, 1000];
    let mut s = prove(&point);
    let honest = s.openings.values.clone();
    let pre = OpeningPreprocessing { num_vars: 3, public: vec![Some(group().polys[0].clone()), None] };
    s.openings.compute_verifier_openings(&pre, &point);
    assert_eq!(s.openings.values, honest);
    assert_eq!(s.openings.prover_claims.len(), 4);
    assert_eq!(s.openings.prover_claims[0], Some(honest[0]));
    assert_eq!(s.openings.prover_claims[1], None);
    assert_eq!(verify(&s, &point), Ok(()));
}

#[test]
fn verifier_openings_reject_wrong_claim() {
    let point = [5u64, 77, 1000];
    let polys = group();
    let mut openings = BatchedOpenings::open(&polys, &point).unwrap();
    openings.values[0] = fe_add(openings.values[0], 1);
    let mut transcript = ProofTranscript::new(42);
    let proof = BatchedOpenings::prove_openings(&polys, &point, &openings, &mut transcript);
    let commitment = polys.commit(&gens());
    let wrong = openings.values[0];
    let pre = OpeningPreprocessing { num_vars: 3, public: vec![Some(polys.polys[0].clone())] };
    openings.compute_verifier_openings(&pre, &point);
    assert_eq!(openings.values[0], evaluate(&polys.polys[0], &point));
    assert_ne!(openings.values[0], wrong);
    assert_eq!(openings.prover_claims[0], Some(wrong));
    let mut transcript = ProofTranscript::new(42);
    let r = openings.verify_openings(&gens(), &proof, &commitment, &point, &mut transcript);
    assert_eq!(r, Err(ProofVerifyError::VerificationFailed));
}

#[test]
fn verifier_openings_replace_whatever_was_claimed() {
    let point = [5u64, 77, 1000];
    let polys = group();
    let pre = OpeningPreprocessing { num_vars: 3, public: vec![None, Some(polys.polys[1].clone())] };
    let mut a = BatchedOpenings::open(&polys, &point).unwrap();
    let mut b = BatchedOpenings::open(&polys, &point).unwrap();
    b.values[1] = 99;
    a.compute_verifier_openings(&pre, &point);
    b.compute_verifier_openings(&pre, &point);
    assert_eq!(a.values, b.values);
}

#[test]
fn verifier_openings_ignore_point_of_wrong_length() {
    let polys = group();
    let pre = OpeningPreprocessing { num_vars: 3, public: vec![Some(polys.polys[0].clone())] };
    let mut o = BatchedOpenings::open(&polys, &[1, 2, 3]).unwrap();
    o.values[0] = 5;
    o.compute_verifier_openings(&pre, &[1, 2]);
    assert_eq!(o.values[0], 5);
    assert_eq!(o.prover_claims, vec![None, None, None, None]);
}

#[test]
fn verify_refuses_point_of_wrong_length() {
    let point = [5u64, 77, 1000];
    let s = prove(&point);
    let mut t = ProofTranscript::new(42);
    let r = s.openings.verify_openings(&gens(), &s.proof, &s.commitment, &[5, 77], &mut t);
    assert_eq!(r, Err(ProofVerifyError::ShapeMismatch));
    assert_eq!(t, ProofTranscript::new(42));
}

#[test]
fn empty_group_opens_and_verifies() {
    let polys = StructuredPolynomials { num_vars: 2, polys: vec![] };
    let point = [3u64, 4];
    let c = polys.commit(&gens());
    let o = BatchedOpenings::open(&polys, &point).unwrap();
    let mut t = ProofTranscript::new(1);
    let p = BatchedOpenings::prove_openings(&polys, &point, &o, &mut t);
    assert_eq!(p.tables, Vec::<u64>::new());
    let mut t = ProofTranscript::new(1);
    assert_eq!(o.verify_openings(&gens(), &p, &c, &point, &mut t), Ok(()));
}

#[test]
fn prover_and_verifier_transcripts_agree() {
    let point = [5u64, 77, 1000];
    let polys = group();
    let openings = BatchedOpenings::open(&polys, &point).unwrap();
    let mut tp = ProofTranscript::new(42);
    let proof = BatchedOpenings::prove_openings(&polys, &point, &openings, &mut tp);
    let mut tv = ProofTranscript::new(42);
    let r = openings.verify_openings(&gens(), &proof, &polys.commit(&gens()), &point, &mut tv);
    assert_eq!(r, Ok(()));
    assert_eq!(tp, tv);
}

#[test]
fn evaluate_exact_values() {
    let t = vec![1u64, 2, 3, 4];
    assert_eq!(evaluate(&t, &[0, 0]), 1);
    assert_eq!(evaluate(&t, &[1, 0]), 3);
    assert_eq!(evaluate(&t, &[1, 1]), 4);
    assert_eq!(evaluate(&t, &[2, 3]), 8);
    assert_eq!(evaluate(&vec![7u64], &[]), 7);
}

#[test]
fn field_operations_wrap() {
    assert_eq!(fe_sub(0, 1), MODULUS - 1);
    assert_eq!(fe_add(MODULUS - 1, 2), 1);
    assert_eq!(fe_mul(MODULUS - 1, MODULUS - 1), 1);
}

#[test]
fn commit_vector_weighted_sum() {
    let g = PedersenGenerators::new(vec![2, 3, 100]);
    assert_eq!(commit_vector(&g, &vec![5, 7]), 31);
    assert_eq!(commit_vector(&g, &vec![]), 0);
}

#[test]
fn table_length_check() {
    assert!(table_len_matches(8, 3));
    assert!(table_len_matches(1, 0));
    assert!(!table_len_matches(6, 3));
    assert!(!table_len_matches(8, 64));
}

#[test]
fn transcript_depends_on_order() {
    let mut a = ProofTranscript::new(1);
    a.append_scalar(2);
    a.append_scalar(3);
    let mut b = ProofTranscript::new(1);
    b.append_scalar(3);
    b.append_scalar(2);
    assert_ne!(a.challenge_scalar(), b.challenge_scalar());
}

#[test]
fn descriptor_commits_its_table() {
    let c = HyraxConfig { group: StructuredPolynomials { num_vars: 1, polys: vec![vec![5, 7], vec![1, 1]] } };
    let r = c.commit(PedersenGenerators::new(vec![2, 3, 10, 100]));
    assert_eq!(r.commitment, 10 + 21 + 10 + 100);
}
