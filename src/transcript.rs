//! A Fiat-Shamir transcript over the scalar field. Every absorbed element is
//! mixed into a running state, and a challenge is squeezed out of that state;
//! the state is a function of everything absorbed so far, in order. The mixing
//! is algebraic; a cryptographic sponge can take its place without changing
//! the interface.
use crate::field::{all_fe, fe_add, fe_mul, fmod, is_fe};
use vstd::prelude::*;

verus! {

/// The multiplier by which the state is mixed on every step.
pub const MIX: u64 = 1000003;

/// The constant mixed in when a challenge is squeezed.
pub const SQUEEZE: u64 = 7919;

/// The running state of one proof session.
#[derive(PartialEq, Eq, Structural, Clone, Copy, Debug)]
pub struct ProofTranscript {
    pub state: u64,
}

/// The state after absorbing `v` into `s`.
pub open spec fn absorb_one(s: int, v: int) -> int {
    fmod(s * MIX + v + 1)
}

/// The state after absorbing the elements of `vs` into `s`, first to last.
pub open spec fn absorb_seq(s: int, vs: Seq<int>) -> int
    decreases vs.len(),
{
    if vs.len() == 0 {
        s
    } else {
        absorb_one(absorb_seq(s, vs.drop_last()), vs.last())
    }
}

/// The challenge squeezed out of state `s`; it is also the next state.
pub open spec fn squeeze(s: int) -> int {
    fmod(s * MIX + SQUEEZE)
}

impl ProofTranscript {
    pub open spec fn wf(&self) -> bool {
        is_fe(self.state)
    }

    /// Starts a session from a seed that both parties share.
    pub fn new(seed: u64) -> (r: Self)
        ensures
            r.wf(),
            r.state == fmod(seed as int),
    {
        ProofTranscript { state: seed % crate::field::MODULUS }
    }

    /// Absorbs one field element.
    pub fn append_scalar(&mut self, v: u64)
        requires
            old(self).wf(),
            is_fe(v),
        ensures
            final(self).wf(),
            final(self).state == absorb_one(old(self).state as int, v as int),
    {
        let m = fe_mul(self.state, MIX);
        let a = fe_add(m, v);
        proof {
            crate::field::lemma_fmod_range(self.state * MIX);
            crate::field::lemma_congr_lin(self.state * MIX, v as int, m as int, v as int, 1);
            crate::field::lemma_fmod_range(m + v);
            crate::field::lemma_congr_lin(a as int, 1, self.state * MIX + v, 1, 1);
        }
        self.state = fe_add(a, 1);
    }

    /// Absorbs field elements, first to last.
    pub fn append_scalars(&mut self, vs: &[u64])
        requires
            old(self).wf(),
            all_fe(vs@),
        ensures
            final(self).wf(),
            final(self).state == absorb_seq(old(self).state as int, crate::field::ints(vs@)),
    {
        let ghost s0 = self.state as int;
        let mut i: usize = 0;
        while i < vs.len()
            invariant
                self.wf(),
                all_fe(vs@),
                i <= vs@.len(),
                self.state == absorb_seq(s0, crate::field::ints(vs@).take(i as int)),
            decreases vs@.len() - i,
        {
            proof {
                assert(crate::field::ints(vs@).take(i + 1).drop_last() =~= crate::field::ints(
                    vs@,
                ).take(i as int));
            }
            self.append_scalar(vs[i]);
            i = i + 1;
        }
        assert(crate::field::ints(vs@).take(vs@.len() as int) =~= crate::field::ints(vs@));
    }

    /// Squeezes a challenge out of the state.
    pub fn challenge_scalar(&mut self) -> (r: u64)
        requires
            old(self).wf(),
        ensures
            final(self).wf(),
            is_fe(r),
            r == squeeze(old(self).state as int),
            final(self).state == r,
    {
        let m = fe_mul(self.state, MIX);
        proof {
            crate::field::lemma_fmod_range(self.state * MIX);
            crate::field::lemma_congr_lin(m as int, 1, self.state * MIX, 1, SQUEEZE as int);
        }
        let c = fe_add(m, SQUEEZE);
        self.state = c;
        c
    }
}

} // verus!
