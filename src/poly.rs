//! Multilinear polynomials given by their evaluations on the Boolean hypercube.
use crate::field::{all_fe, fe_mul_add, fe_sub, fmod, ints, is_fe, lemma_congr_lin, lemma_congr_sub, lemma_fmod_range};
use vstd::prelude::*;

verus! {

/// `2^n`.
pub open spec fn pow2(n: nat) -> nat
    decreases n,
{
    if n == 0 {
        1
    } else {
        2 * pow2((n - 1) as nat)
    }
}

/// Binds the first variable of the table `e` to `x`: entry `i` becomes
/// `e[i] + x * (e[i + h] - e[i])`, where `h` is half the table.
pub open spec fn fold(e: Seq<int>, x: int) -> Seq<int> {
    let h = e.len() / 2;
    Seq::new(h, |i: int| e[i] + x * (e[i + h] - e[i]))
}

/// The multilinear extension of the table `e` evaluated at the point `r`: the
/// first coordinate of `r` binds the most significant index bit.
pub open spec fn ml_eval(e: Seq<int>, r: Seq<int>) -> int
    decreases r.len(),
{
    if r.len() == 0 {
        e[0]
    } else {
        ml_eval(fold(e, r[0]), r.drop_first())
    }
}

pub proof fn lemma_pow2_pos(n: nat)
    ensures
        pow2(n) >= 1,
    decreases n,
{
    if n > 0 {
        lemma_pow2_pos((n - 1) as nat);
    }
}

pub proof fn lemma_pow2_mono(a: nat, b: nat)
    requires
        a <= b,
    ensures
        pow2(a) <= pow2(b),
    decreases b - a,
{
    if a < b {
        lemma_pow2_mono(a, (b - 1) as nat);
        lemma_pow2_pos((b - 1) as nat);
    }
}

/// `2^n`, for an `n` whose power fits.
pub fn pow2_exec(n: usize) -> (r: usize)
    requires
        pow2(n as nat) <= usize::MAX,
    ensures
        r as nat == pow2(n as nat),
{
    let mut p: usize = 1;
    let mut i: usize = 0;
    while i < n
        invariant
            i <= n,
            p as nat == pow2(i as nat),
            pow2(n as nat) <= usize::MAX,
        decreases n - i,
    {
        proof {
            lemma_pow2_mono((i + 1) as nat, n as nat);
        }
        p = p * 2;
        i = i + 1;
    }
    p
}

/// Tells whether a table of length `len` has `nv` variables.
pub fn table_len_matches(len: usize, nv: usize) -> (r: bool)
    ensures
        r == (len as nat == pow2(nv as nat)),
{
    let mut p: usize = 1;
    let mut i: usize = 0;
    while i < nv
        invariant
            i <= nv,
            p as nat == pow2(i as nat),
            p <= len || i == 0,
        decreases nv - i,
    {
        if p > len / 2 {
            proof {
                lemma_pow2_mono((i + 1) as nat, nv as nat);
            }
            return false;
        }
        p = p * 2;
        i = i + 1;
    }
    p == len
}

/// Evaluates the multilinear extension of the table `evals` at `point`.
pub fn evaluate(evals: &Vec<u64>, point: &[u64]) -> (r: u64)
    requires
        evals@.len() == pow2(point@.len() as nat),
        all_fe(evals@),
        all_fe(point@),
    ensures
        is_fe(r),
        r == fmod(ml_eval(ints(evals@), ints(point@))),
{
    let n = point.len();
    let mut buf: Vec<u64> = evals.clone();
    let ghost cur: Seq<int> = ints(evals@);
    let ghost target = ml_eval(ints(evals@), ints(point@));
    assert(ints(point@).skip(0) =~= ints(point@));
    let mut j: usize = 0;
    while j < n
        invariant
            n == point@.len(),
            j <= n,
            all_fe(point@),
            buf@.len() == cur.len(),
            cur.len() == pow2((n - j) as nat),
            all_fe(buf@),
            forall|i: int| 0 <= i < buf@.len() ==> buf@[i] == fmod(#[trigger] cur[i]),
            target == ml_eval(cur, ints(point@).skip(j as int)),
        decreases n - j,
    {
        let x = point[j];
        let len = buf.len();
        let h = len / 2;
        let mut next: Vec<u64> = Vec::new();
        let mut i: usize = 0;
        while i < h
            invariant
                len == buf@.len(),
                h == len / 2,
                i <= h,
                j < n,
                n == point@.len(),
                is_fe(x),
                x == ints(point@)[j as int],
                all_fe(buf@),
                buf@.len() == cur.len(),
                forall|k: int| 0 <= k < buf@.len() ==> buf@[k] == fmod(#[trigger] cur[k]),
                next@.len() == i,
                all_fe(next@),
                forall|k: int| 0 <= k < i ==> next@[k] == fmod(#[trigger] fold(cur, x as int)[k]),
            decreases h - i,
        {
            let lo = buf[i];
            let hi = buf[i + h];
            let d = fe_sub(hi, lo);
            let v = fe_mul_add(lo, x, d);
            proof {
                lemma_fmod_range(cur[i as int]);
                lemma_fmod_range(cur[i + h]);
                lemma_congr_sub(cur[i + h], cur[i as int], hi as int, lo as int);
                lemma_congr_lin(cur[i as int], cur[i + h] - cur[i as int], lo as int, d as int, x as int);
            }
            next.push(v);
            i = i + 1;
        }
        proof {
            let r = ints(point@).skip(j as int);
            assert(r.drop_first() =~= ints(point@).skip(j + 1));
            cur = fold(cur, x as int);
        }
        buf = next;
        j = j + 1;
    }
    proof {
        lemma_fmod_range(cur[0]);
    }
    buf[0]
}

} // verus!
