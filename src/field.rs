//! The scalar field: integers modulo a prime that fits in 31 bits, so that the
//! product of two reduced elements fits in a `u64`.
use vstd::arithmetic::div_mod::{lemma_fundamental_div_mod, lemma_mod_multiples_vanish, lemma_mod_twice};
use vstd::prelude::*;

verus! {

/// The prime modulus of the scalar field: 2^31 - 1.
pub const MODULUS: u64 = 2147483647;

/// The canonical representative of `x` in the field.
pub open spec fn fmod(x: int) -> int {
    x % (MODULUS as int)
}

/// A `u64` is a field element when it is reduced.
pub open spec fn is_fe(x: u64) -> bool {
    x < MODULUS
}

/// Every entry of `v` is a field element.
pub open spec fn all_fe(v: Seq<u64>) -> bool {
    forall|i: int| 0 <= i < v.len() ==> is_fe(#[trigger] v[i])
}

/// The entries of `v` read as integers.
pub open spec fn ints(v: Seq<u64>) -> Seq<int> {
    v.map_values(|x: u64| x as int)
}

pub proof fn lemma_fmod_range(x: int)
    ensures
        0 <= fmod(x) < MODULUS,
        fmod(fmod(x)) == fmod(x),
{
    lemma_mod_twice(x, MODULUS as int);
}

/// Reducing a field element changes nothing.
pub proof fn lemma_fmod_small(x: u64)
    requires
        is_fe(x),
    ensures
        fmod(x as int) == x,
{
}

/// `a + x * b` respects congruence in `a` and `b`.
pub proof fn lemma_congr_lin(a: int, b: int, a2: int, b2: int, x: int)
    requires
        fmod(a) == fmod(a2),
        fmod(b) == fmod(b2),
    ensures
        fmod(a + x * b) == fmod(a2 + x * b2),
{
    let p = MODULUS as int;
    lemma_fundamental_div_mod(a, p);
    lemma_fundamental_div_mod(a2, p);
    lemma_fundamental_div_mod(b, p);
    lemma_fundamental_div_mod(b2, p);
    let k = (a2 / p - a / p) + x * (b2 / p - b / p);
    assert(a2 + x * b2 == p * k + (a + x * b)) by (nonlinear_arith)
        requires
            a == p * (a / p) + a % p,
            a2 == p * (a2 / p) + a2 % p,
            b == p * (b / p) + b % p,
            b2 == p * (b2 / p) + b2 % p,
            a % p == a2 % p,
            b % p == b2 % p,
            k == (a2 / p - a / p) + x * (b2 / p - b / p),
    ;
    lemma_mod_multiples_vanish(k, a + x * b, p);
}

/// `a - b` respects congruence in `a` and `b`.
pub proof fn lemma_congr_sub(a: int, b: int, a2: int, b2: int)
    requires
        fmod(a) == fmod(a2),
        fmod(b) == fmod(b2),
    ensures
        fmod(a - b) == fmod(a2 - b2),
{
    lemma_congr_lin(a, b, a2, b2, -1);
    assert(a + (-1) * b == a - b);
    assert(a2 + (-1) * b2 == a2 - b2);
}

/// Tells whether every entry of `v` is a field element.
pub fn all_reduced(v: &[u64]) -> (r: bool)
    ensures
        r == all_fe(v@),
{
    let mut i: usize = 0;
    while i < v.len()
        invariant
            i <= v@.len(),
            forall|j: int| 0 <= j < i ==> is_fe(#[trigger] v@[j]),
        decreases v@.len() - i,
    {
        if v[i] >= MODULUS {
            return false;
        }
        i = i + 1;
    }
    true
}

/// Adds two field elements.
pub fn fe_add(a: u64, b: u64) -> (r: u64)
    requires
        is_fe(a),
        is_fe(b),
    ensures
        r == fmod(a + b),
{
    (a + b) % MODULUS
}

/// Subtracts `b` from `a` in the field.
pub fn fe_sub(a: u64, b: u64) -> (r: u64)
    requires
        is_fe(a),
        is_fe(b),
    ensures
        r == fmod(a - b),
{
    proof {
        lemma_mod_multiples_vanish(1, a - b, MODULUS as int);
    }
    (a + (MODULUS - b)) % MODULUS
}

/// Multiplies two field elements.
pub fn fe_mul(a: u64, b: u64) -> (r: u64)
    requires
        is_fe(a),
        is_fe(b),
    ensures
        r == fmod(a * b),
{
    proof {
        assert(a * b < 0x4000_0000_0000_0000) by (nonlinear_arith)
            requires
                a < 2147483647u64,
                b < 2147483647u64,
        ;
    }
    (a * b) % MODULUS
}

/// Computes `a + x * b` in the field.
pub fn fe_mul_add(a: u64, x: u64, b: u64) -> (r: u64)
    requires
        is_fe(a),
        is_fe(x),
        is_fe(b),
    ensures
        r == fmod(a + x * b),
{
    let m = fe_mul(x, b);
    proof {
        lemma_fmod_small(a);
        lemma_congr_lin(a as int, x * b, a as int, m as int, 1);
    }
    fe_add(a, m)
}

} // verus!
