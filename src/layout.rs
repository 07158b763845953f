//! The tables of a group laid side by side in one vector, and the slices that
//! give each table back.
use crate::field::{all_fe, ints};
use vstd::prelude::*;

verus! {

/// The tables of `ts`, first to last, in one sequence.
pub open spec fn side_by_side(ts: Seq<Vec<u64>>) -> Seq<u64>
    decreases ts.len(),
{
    if ts.len() == 0 {
        Seq::empty()
    } else {
        side_by_side(ts.drop_last()) + ts.last()@
    }
}

/// Every table in `ts` has length `n`.
pub open spec fn all_len(ts: Seq<Vec<u64>>, n: nat) -> bool {
    forall|k: int| 0 <= k < ts.len() ==> (#[trigger] ts[k])@.len() == n
}

/// Every table in `ts` holds field elements.
pub open spec fn all_tables_fe(ts: Seq<Vec<u64>>) -> bool {
    forall|k: int| 0 <= k < ts.len() ==> all_fe((#[trigger] ts[k])@)
}

/// The tables of `ts` read as integers.
pub open spec fn int_tables(ts: Seq<Vec<u64>>) -> Seq<Seq<int>> {
    ts.map_values(|t: Vec<u64>| ints(t@))
}

/// Slice `k` of length `n` of `p`.
pub open spec fn chunk(p: Seq<u64>, k: int, n: nat) -> Seq<u64> {
    p.subrange(k * n, k * n + n)
}

pub proof fn lemma_side_by_side(ts: Seq<Vec<u64>>, n: nat)
    requires
        all_len(ts, n),
    ensures
        side_by_side(ts).len() == ts.len() * n,
        all_tables_fe(ts) ==> all_fe(side_by_side(ts)),
    decreases ts.len(),
{
    if ts.len() > 0 {
        let pre = ts.drop_last();
        assert(all_len(pre, n));
        lemma_side_by_side(pre, n);
        let m = ts.len() as int;
        assert((m - 1) * n + n == m * n) by (nonlinear_arith);
        if all_tables_fe(ts) {
            assert(all_tables_fe(pre));
            assert(all_fe(ts[m - 1]@));
            let s = side_by_side(ts);
            assert forall|j: int| 0 <= j < s.len() implies crate::field::is_fe(#[trigger] s[j]) by {
                if j >= side_by_side(pre).len() {
                    assert(s[j] == ts[m - 1]@[j - side_by_side(pre).len()]);
                }
            }
        }
    }
}

/// Slice `k` of the tables laid side by side is table `k`.
pub proof fn lemma_chunk(ts: Seq<Vec<u64>>, n: nat, k: int)
    requires
        all_len(ts, n),
        0 <= k < ts.len(),
    ensures
        k * n + n <= ts.len() * n,
        chunk(side_by_side(ts), k, n) == ts[k]@,
    decreases ts.len(),
{
    let m = ts.len() as int;
    let pre = ts.drop_last();
    assert(all_len(pre, n));
    lemma_side_by_side(pre, n);
    lemma_side_by_side(ts, n);
    let s = side_by_side(ts);
    if k < m - 1 {
        lemma_chunk(pre, n, k);
        assert(k * n + n <= (m - 1) * n) by (nonlinear_arith)
            requires
                0 <= k < m - 1,
        ;
        assert(chunk(s, k, n) =~= chunk(side_by_side(pre), k, n));
    } else {
        assert(k * n == (m - 1) * n);
        assert(chunk(s, k, n) =~= ts[k]@);
    }
    assert((m - 1) * n + n == m * n) by (nonlinear_arith);
}

/// Lays the tables side by side.
pub fn lay_out(tables: &Vec<Vec<u64>>) -> (r: Vec<u64>)
    ensures
        r@ == side_by_side(tables@),
{
    let mut out: Vec<u64> = Vec::new();
    let mut k: usize = 0;
    while k < tables.len()
        invariant
            k <= tables@.len(),
            out@ == side_by_side(tables@.take(k as int)),
        decreases tables@.len() - k,
    {
        let t = &tables[k];
        let mut i: usize = 0;
        while i < t.len()
            invariant
                i <= t@.len(),
                out@ == side_by_side(tables@.take(k as int)) + t@.take(i as int),
            decreases t@.len() - i,
        {
            out.push(t[i]);
            assert(t@.take(i + 1) =~= t@.take(i as int).push(t@[i as int]));
            assert(out@ =~= side_by_side(tables@.take(k as int)) + t@.take(i + 1));
            i = i + 1;
        }
        assert(tables@.take(k + 1).drop_last() =~= tables@.take(k as int));
        assert(t@.take(t@.len() as int) =~= t@);
        k = k + 1;
    }
    assert(tables@.take(tables@.len() as int) =~= tables@);
    out
}

/// Copies `n` entries of `p` from `start` on.
pub fn copy_slice(p: &Vec<u64>, start: usize, n: usize) -> (r: Vec<u64>)
    requires
        start + n <= p@.len(),
    ensures
        r@ == p@.subrange(start as int, start + n),
{
    let plen = p.len();
    let mut out: Vec<u64> = Vec::new();
    let mut i: usize = 0;
    while i < n
        invariant
            plen == p@.len(),
            start + n <= p@.len(),
            i <= n,
            out@ == p@.subrange(start as int, start + i),
        decreases n - i,
    {
        out.push(p[start + i]);
        assert(out@ =~= p@.subrange(start as int, start + i + 1));
        i = i + 1;
    }
    out
}

} // verus!
