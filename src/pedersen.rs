//! A linear vector commitment in the shape of a Pedersen commitment: a table is
//! committed to as the sum of its entries weighted by the generators. The
//! group here is the additive group of the scalar field: the commitment is
//! linear and deterministic, but binding needs a group with hard discrete
//! logarithms in its place.
use crate::field::{all_fe, fe_mul_add, fmod, ints, is_fe, lemma_congr_lin, lemma_fmod_range};
use vstd::prelude::*;

verus! {

/// The public setup: one generator per table entry that can be committed to.
pub struct PedersenGenerators {
    pub generators: Vec<u64>,
}

impl PedersenGenerators {
    /// The generators are field elements.
    pub open spec fn wf(&self) -> bool {
        all_fe(self.generators@)
    }

    /// The generators read as integers.
    pub open spec fn view_ints(&self) -> Seq<int> {
        ints(self.generators@)
    }

    /// Builds the setup from its generators.
    pub fn new(generators: Vec<u64>) -> (r: Self)
        requires
            all_fe(generators@),
        ensures
            r.wf(),
            r.generators@ == generators@,
    {
        PedersenGenerators { generators }
    }
}

/// `sum of g[i] * e[i]` over the indices of `e`.
pub open spec fn lin(g: Seq<int>, e: Seq<int>) -> int
    decreases e.len(),
{
    if e.len() == 0 {
        0
    } else {
        lin(g, e.drop_last()) + g[e.len() - 1] * e.last()
    }
}

/// Commits to the table `evals`: the weighted sum of its entries, reduced.
pub fn commit_vector(gens: &PedersenGenerators, evals: &Vec<u64>) -> (r: u64)
    requires
        gens.wf(),
        all_fe(evals@),
        evals@.len() <= gens.generators@.len(),
    ensures
        is_fe(r),
        r == fmod(lin(gens.view_ints(), ints(evals@))),
{
    let mut acc: u64 = 0;
    let mut i: usize = 0;
    while i < evals.len()
        invariant
            gens.wf(),
            all_fe(evals@),
            evals@.len() <= gens.generators@.len(),
            i <= evals@.len(),
            is_fe(acc),
            acc == fmod(lin(gens.view_ints(), ints(evals@).take(i as int))),
        decreases evals@.len() - i,
    {
        let g = gens.generators[i];
        let e = evals[i];
        let ghost s = lin(gens.view_ints(), ints(evals@).take(i as int));
        let next = fe_mul_add(acc, e, g);
        proof {
            let t = ints(evals@).take(i + 1);
            assert(t.drop_last() =~= ints(evals@).take(i as int));
            lemma_fmod_range(s);
            lemma_congr_lin(acc as int, g as int, s, g as int, e as int);
            assert(e * g == g * e) by (nonlinear_arith);
        }
        acc = next;
        i = i + 1;
    }
    assert(ints(evals@).take(evals@.len() as int) =~= ints(evals@));
    acc
}

} // verus!
