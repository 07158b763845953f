//! The canonical byte encoding of commitments, claimed values and proofs: a
//! commitment is the eight little-endian bytes of its element; a sequence is
//! the number of elements, then each element, eight bytes apiece.
//! Decoding refuses truncated input, trailing bytes and unreduced elements.
use crate::field::{all_fe, is_fe, MODULUS};
use crate::hyrax::{BatchedOpeningProof, BatchedOpenings, GroupCommitment};
use crate::structured::ProofVerifyError;
use ark_serialize::{CanonicalDeserialize, CanonicalSerialize};
use vstd::arithmetic::div_mod::lemma_fundamental_div_mod_converse;
use vstd::prelude::*;

verus! {

#[verifier::external_type_specification]
#[verifier::external_body]
pub struct ExSerializationError(ark_serialize::SerializationError);

/// The eight little-endian bytes of `v`.
pub open spec fn le_bytes(v: u64) -> Seq<u8> {
    seq![
        v as u8,
        (v >> 8u64) as u8,
        (v >> 16u64) as u8,
        (v >> 24u64) as u8,
        (v >> 32u64) as u8,
        (v >> 40u64) as u8,
        (v >> 48u64) as u8,
        (v >> 56u64) as u8,
    ]
}

/// The `u64` whose little-endian bytes are the first eight of `b`.
pub open spec fn from_le(b: Seq<u8>) -> u64 {
    (b[0] as u64) | ((b[1] as u64) << 8u64) | ((b[2] as u64) << 16u64) | ((b[3] as u64) << 24u64)
        | ((b[4] as u64) << 32u64) | ((b[5] as u64) << 40u64) | ((b[6] as u64) << 48u64) | ((
    b[7] as u64) << 56u64)
}

/// The encoding of the elements `s`.
pub open spec fn encoding(s: Seq<u64>) -> Seq<u8> {
    Seq::new(
        (8 + 8 * s.len()) as nat,
        |j: int|
            if j < 8 {
                le_bytes(s.len() as u64)[j]
            } else {
                le_bytes(s[(j - 8) / 8])[(j - 8) % 8]
            },
    )
}

/// The elements that `b` encodes, if it is a well-formed encoding.
pub open spec fn decoded(b: Seq<u8>) -> Option<Seq<u64>> {
    if b.len() < 8 {
        None
    } else {
        let n = from_le(b.subrange(0, 8));
        if b.len() != 8 + 8 * n {
            None
        } else {
            let s = Seq::new(n as nat, |i: int| from_le(b.subrange(8 + 8 * i, 16 + 8 * i)));
            if all_fe(s) {
                Some(s)
            } else {
                None
            }
        }
    }
}

/// Relies on ark_serialize's `CanonicalSerialize` for `u64`, which writes the
/// value's `to_le_bytes`, and on its `Write` for `Vec<u8>`, which appends and
/// never fails.
#[verifier::external_body]
fn write_u64(v: u64, out: &mut Vec<u8>)
    ensures
        final(out)@ == old(out)@ + le_bytes(v),
{
    let _ = v.serialize_compressed(&mut *out);
}

/// Relies on ark_serialize's `CanonicalDeserialize` for `u64`, which reads
/// eight bytes with `read_exact` and takes them as little-endian; reading from
/// a byte slice that holds fewer fails.
#[verifier::external_body]
fn read_u64(b: &[u8], pos: usize) -> (r: Result<u64, ark_serialize::SerializationError>)
    requires
        pos <= b@.len(),
    ensures
        pos + 8 <= b@.len() ==> r is Ok && r->Ok_0 == from_le(b@.subrange(pos as int, pos + 8)),
        pos + 8 > b@.len() ==> r is Err,
{
    u64::deserialize_compressed(&b[pos..])
}

/// Reading back the bytes of a value gives the value.
pub proof fn lemma_from_le_bytes(v: u64)
    ensures
        from_le(le_bytes(v)) == v,
{
    assert(((v as u8) as u64) | ((((v >> 8u64) as u8) as u64) << 8u64) | ((((v >> 16u64) as u8)
        as u64) << 16u64) | ((((v >> 24u64) as u8) as u64) << 24u64) | ((((v >> 32u64) as u8)
        as u64) << 32u64) | ((((v >> 40u64) as u8) as u64) << 40u64) | ((((v >> 48u64) as u8)
        as u64) << 48u64) | ((((v >> 56u64) as u8) as u64) << 56u64) == v) by (bit_vector);
}

/// Decoding an encoding gives back the elements.
pub proof fn lemma_decode_encode(s: Seq<u64>)
    requires
        all_fe(s),
        s.len() <= u64::MAX,
    ensures
        decoded(encoding(s)) == Some(s),
{
    let b = encoding(s);
    assert(b.subrange(0, 8) =~= le_bytes(s.len() as u64));
    lemma_from_le_bytes(s.len() as u64);
    let n = from_le(b.subrange(0, 8));
    assert(n == s.len());
    let d = Seq::new(n as nat, |i: int| from_le(b.subrange(8 + 8 * i, 16 + 8 * i)));
    assert forall|i: int| 0 <= i < s.len() implies #[trigger] d[i] == s[i] by {
        assert forall|t: int| 0 <= t < 8 implies b[8 + 8 * i + t] == le_bytes(s[i])[t] by {
            lemma_fundamental_div_mod_converse(8 * i + t, 8, i, t);
        }
        assert(b.subrange(8 + 8 * i, 16 + 8 * i) =~= le_bytes(s[i]));
        lemma_from_le_bytes(s[i]);
    }
    assert(d =~= s);
}

/// Encodes the elements `v`.
pub fn encode_elements(v: &Vec<u64>) -> (r: Vec<u8>)
    ensures
        r@ == encoding(v@),
{
    let mut out: Vec<u8> = Vec::new();
    write_u64(v.len() as u64, &mut out);
    let mut i: usize = 0;
    while i < v.len()
        invariant
            i <= v@.len(),
            out@.len() == 8 + 8 * i,
            forall|j: int| 0 <= j < out@.len() ==> #[trigger] out@[j] == encoding(v@)[j],
        decreases v@.len() - i,
    {
        let ghost before = out@;
        write_u64(v[i as usize], &mut out);
        proof {
            assert forall|j: int| 0 <= j < out@.len() implies #[trigger] out@[j] == encoding(
                v@,
            )[j] by {
                if j >= before.len() {
                    let t = j - before.len();
                    lemma_fundamental_div_mod_converse(8 * i + t, 8, i as int, t);
                    assert(j - 8 == 8 * i + t);
                }
            }
        }
        i = i + 1;
    }
    assert(out@ =~= encoding(v@));
    out
}

/// Decodes elements, refusing anything that is not an encoding of field
/// elements.
pub fn decode_elements(b: &[u8]) -> (r: Result<Vec<u64>, ProofVerifyError>)
    ensures
        match decoded(b@) {
            Some(s) => r is Ok && r->Ok_0@ == s,
            None => r == Err::<Vec<u64>, ProofVerifyError>(ProofVerifyError::MalformedEncoding),
        },
{
    let n = match read_u64(b, 0) {
        Ok(n) => n,
        Err(_) => {
            return Err(ProofVerifyError::MalformedEncoding);
        },
    };
    let blen = b.len();
    let rest = blen - 8;
    if rest % 8 != 0 || (rest / 8) as u64 != n {
        return Err(ProofVerifyError::MalformedEncoding);
    }
    let count = rest / 8;
    let ghost s = Seq::new(n as nat, |i: int| from_le(b@.subrange(8 + 8 * i, 16 + 8 * i)));
    let mut out: Vec<u64> = Vec::new();
    let mut i: usize = 0;
    while i < count
        invariant
            count == n,
            blen == b@.len(),
            blen == 8 + 8 * count,
            s == Seq::new(n as nat, |i: int| from_le(b@.subrange(8 + 8 * i, 16 + 8 * i))),
            i <= count,
            out@ == s.take(i as int),
            all_fe(out@),
        decreases count - i,
    {
        assert(8 + 8 * i + 8 <= blen);
        let x = match read_u64(b, 8 + 8 * i) {
            Ok(x) => x,
            Err(_) => {
                return Err(ProofVerifyError::MalformedEncoding);
            },
        };
        assert(x == s[i as int]);
        if x >= MODULUS {
            assert(!is_fe(s[i as int]));
            return Err(ProofVerifyError::MalformedEncoding);
        }
        out.push(x);
        assert(out@ =~= s.take(i + 1));
        i = i + 1;
    }
    assert(out@ =~= s);
    Ok(out)
}

/// The commitment that `b` encodes, if it is eight bytes of a field element.
pub open spec fn decoded_commitment(b: Seq<u8>) -> Option<u64> {
    if b.len() == 8 && is_fe(from_le(b)) {
        Some(from_le(b))
    } else {
        None
    }
}

impl GroupCommitment {
    /// The canonical bytes of the commitment: always eight.
    pub fn to_bytes(&self) -> (r: Vec<u8>)
        ensures
            r@ == le_bytes(self.commitment),
    {
        let mut out: Vec<u8> = Vec::new();
        write_u64(self.commitment, &mut out);
        assert(out@ =~= le_bytes(self.commitment));
        out
    }

    /// Reads a commitment back from its canonical bytes.
    pub fn from_bytes(b: &[u8]) -> (r: Result<GroupCommitment, ProofVerifyError>)
        ensures
            match decoded_commitment(b@) {
                Some(c) => r is Ok && r->Ok_0.commitment == c,
                None => r is Err && r->Err_0 == ProofVerifyError::MalformedEncoding,
            },
    {
        if b.len() != 8 {
            return Err(ProofVerifyError::MalformedEncoding);
        }
        assert(b@.subrange(0, 8) =~= b@);
        match read_u64(b, 0) {
            Ok(c) => {
                if c >= MODULUS {
                    Err(ProofVerifyError::MalformedEncoding)
                } else {
                    Ok(GroupCommitment { commitment: c })
                }
            },
            Err(_) => Err(ProofVerifyError::MalformedEncoding),
        }
    }
}

impl BatchedOpeningProof {
    /// The canonical bytes of the proof.
    pub fn to_bytes(&self) -> (r: Vec<u8>)
        ensures
            r@ == encoding(self.tables@),
    {
        encode_elements(&self.tables)
    }

    /// Reads a proof back from its canonical bytes.
    pub fn from_bytes(b: &[u8]) -> (r: Result<BatchedOpeningProof, ProofVerifyError>)
        ensures
            match decoded(b@) {
                Some(s) => r is Ok && r->Ok_0.tables@ == s,
                None => r is Err && r->Err_0 == ProofVerifyError::MalformedEncoding,
            },
    {
        match decode_elements(b) {
            Ok(tables) => Ok(BatchedOpeningProof { tables }),
            Err(e) => Err(e),
        }
    }
}

impl BatchedOpenings {
    /// The canonical bytes of the claimed values.
    pub fn to_bytes(&self) -> (r: Vec<u8>)
        ensures
            r@ == encoding(self.values@),
    {
        encode_elements(&self.values)
    }

    /// Reads claimed values back from their canonical bytes, with nothing
    /// replaced by the verifier yet.
    pub fn from_bytes(b: &[u8]) -> (r: Result<BatchedOpenings, ProofVerifyError>)
        ensures
            match decoded(b@) {
                Some(s) => r is Ok && r->Ok_0.values@ == s && r->Ok_0.prover_claims@ == Seq::new(
                    s.len(),
                    |k: int| None::<u64>,
                ),
                None => r is Err && r->Err_0 == ProofVerifyError::MalformedEncoding,
            },
    {
        match decode_elements(b) {
            Ok(values) => {
                let mut prover_claims: Vec<Option<u64>> = Vec::new();
                let mut k: usize = 0;
                while k < values.len()
                    invariant
                        k <= values@.len(),
                        prover_claims@ == Seq::new(k as nat, |j: int| None::<u64>),
                    decreases values@.len() - k,
                {
                    prover_claims.push(None);
                    assert(prover_claims@ =~= Seq::new((k + 1) as nat, |j: int| None::<u64>));
                    k = k + 1;
                }
                Ok(BatchedOpenings { values, prover_claims })
            },
            Err(e) => Err(e),
        }
    }
}

} // verus!
