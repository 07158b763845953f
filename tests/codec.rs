use structured_poly::codec::{decode_elements, encode_elements};
use structured_poly::field::MODULUS;
use structured_poly::hyrax::{BatchedOpeningProof, BatchedOpenings, GroupCommitment, StructuredPolynomials};
use structured_poly::pedersen::PedersenGenerators;
use structured_poly::structured::{ProofVerifyError, StructuredCommitment, StructuredOpeningProof};
use structured_poly::transcript::ProofTranscript;

fn group() -> StructuredPolynomials {
    StructuredPolynomials {
        num_vars: 2,
        polys: vec![vec![1, 2, 3, 4], vec![10, 20, 30, 40], vec![0, 5, 0, 5]],
    }
}

fn gens() -> PedersenGenerators {
    PedersenGenerators::new(vec![3, 5, 7, 11, 13, 17, 19, 23, 29, 31, 37, 41])
}

#[test]
fn encoding_is_little_endian_with_count() {
    let b = encode_elements(&vec![1, 0x0102]);
    assert_eq!(
        b,
        vec![2, 0, 0, 0, 0, 0, 0, 0, 1, 0, 0, 0, 0, 0, 0, 0, 2, 1, 0, 0, 0, 0, 0, 0]
    );
    assert_eq!(encode_elements(&vec![]), vec![0u8; 8]);
}

#[test]
fn decoding_round_trips() {
    let v = vec![7u64, MODULUS - 1, 0, 123456];
    assert_eq!(decode_elements(&encode_elements(&v)), Ok(v));
}

#[test]
fn decoding_refuses_truncated_input() {
    let b = encode_elements(&vec![7u64, 8]);
    assert_eq!(decode_elements(&b[..b.len() - 1]), Err(ProofVerifyError::MalformedEncoding));
    assert_eq!(decode_elements(&b[..5]), Err(ProofVerifyError::MalformedEncoding));
    assert_eq!(decode_elements(&[]), Err(ProofVerifyError::MalformedEncoding));
}

#[test]
fn decoding_refuses_trailing_bytes() {
    let mut b = encode_elements(&vec![7u64]);
    b.push(0);
    assert_eq!(decode_elements(&b), Err(ProofVerifyError::MalformedEncoding));
}

#[test]
fn decoding_refuses_unreduced_element() {
    let mut b = encode_elements(&vec![1u64]);
    b[8..16].copy_from_slice(&MODULUS.to_le_bytes());
    assert_eq!(decode_elements(&b), Err(ProofVerifyError::MalformedEncoding));
}

#[test]
fn commitment_bytes_are_eight() {
    let c = GroupCommitment { commitment: 0x0102 };
    assert_eq!(c.to_bytes(), vec![2, 1, 0, 0, 0, 0, 0, 0]);
    assert_eq!(GroupCommitment::from_bytes(&c.to_bytes()).unwrap().commitment, 0x0102);
    assert_eq!(GroupCommitment::from_bytes(&[2, 1, 0]).err(), Some(ProofVerifyError::MalformedEncoding));
    assert_eq!(
        GroupCommitment::from_bytes(&MODULUS.to_le_bytes()).err(),
        Some(ProofVerifyError::MalformedEncoding)
    );
}

#[test]
fn encoded_session_verifies_after_transfer() {
    let point = [9u64, 1234];
    let polys = group();
    let c = polys.commit(&gens());
    let o = BatchedOpenings::open(&polys, &point).unwrap();
    let mut t = ProofTranscript::new(5);
    let p = BatchedOpenings::prove_openings(&polys, &point, &o, &mut t);
    let c2 = GroupCommitment::from_bytes(&c.to_bytes()).unwrap();
    let o2 = BatchedOpenings::from_bytes(&o.to_bytes()).unwrap();
    let p2 = BatchedOpeningProof::from_bytes(&p.to_bytes()).unwrap();
    assert_eq!(o2.prover_claims, vec![None, None, None]);
    let mut t = ProofTranscript::new(5);
    assert_eq!(o2.verify_openings(&gens(), &p2, &c2, &point, &mut t), Ok(()));
}

fn flipped(b: &[u8], i: usize) -> Vec<u8> {
    let mut f = b.to_vec();
    f[i] ^= 0xff;
    f
}

#[test]
fn flipping_any_byte_is_caught() {
    let point = [9u64, 1234];
    let polys = group();
    let c = polys.commit(&gens());
    let o = BatchedOpenings::open(&polys, &point).unwrap();
    let mut t = ProofTranscript::new(5);
    let p = BatchedOpenings::prove_openings(&polys, &point, &o, &mut t);
    let (cb, ob, pb) = (c.to_bytes(), o.to_bytes(), p.to_bytes());
    let check = |cb: &[u8], ob: &[u8], pb: &[u8]| -> bool {
        match (
            GroupCommitment::from_bytes(cb),
            BatchedOpenings::from_bytes(ob),
            BatchedOpeningProof::from_bytes(pb),
        ) {
            (Ok(c), Ok(o), Ok(p)) => {
                let mut t = ProofTranscript::new(5);
                o.verify_openings(&gens(), &p, &c, &point, &mut t).is_ok()
            },
            _ => false,
        }
    };
    assert!(check(&cb, &ob, &pb));
    for i in 0..cb.len() {
        assert!(!check(&flipped(&cb, i), &ob, &pb), "commitment byte {}", i);
    }
    for i in 0..ob.len() {
        assert!(!check(&cb, &flipped(&ob, i), &pb), "claim byte {}", i);
    }
    for i in 0..pb.len() {
        assert!(!check(&cb, &ob, &flipped(&pb, i)), "proof byte {}", i);
    }
}
