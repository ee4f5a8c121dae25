use vstd::prelude::*;
use vstd::arithmetic::div_mod::{
    lemma_fundamental_div_mod, lemma_fundamental_div_mod_converse, lemma_mod_bound,
};
use vstd::wrapping::u64_specs;

verus! {

/// The ciphertext modulus, 2^64.
pub open spec fn modulus() -> int {
    0x1_0000_0000_0000_0000
}

/// The representative of `x` modulo 2^64, as a machine word.
#[verifier::opaque]
pub open spec fn reduce(x: int) -> u64 {
    (x % 0x1_0000_0000_0000_0000) as u64
}

/// `x` and `y` differ by a multiple of 2^64.
#[verifier::opaque]
pub open spec fn congruent(x: int, y: int) -> bool {
    (x - y) % 0x1_0000_0000_0000_0000 == 0
}

/// An integer is its representative plus a multiple of 2^64: returns the
/// multiplier.
pub proof fn lemma_reduce_witness(x: int) -> (q: int)
    ensures
        x == reduce(x) + q * 0x1_0000_0000_0000_0000,
{
    reveal(reduce);
    lemma_fundamental_div_mod(x, 0x1_0000_0000_0000_0000);
    lemma_mod_bound(x, 0x1_0000_0000_0000_0000);
    x / 0x1_0000_0000_0000_0000
}

/// A word that differs from `x` by a multiple of 2^64 is its representative.
pub proof fn lemma_reduce_unique(x: int, q: int, r: u64)
    requires
        x == r + q * 0x1_0000_0000_0000_0000,
    ensures
        reduce(x) == r,
{
    reveal(reduce);
    lemma_fundamental_div_mod_converse(x, 0x1_0000_0000_0000_0000, q, r as int);
}

/// Integers that differ by a multiple of 2^64 have the same representative.
pub proof fn lemma_reduce_eq(x: int, y: int, q: int)
    requires
        x == y + q * 0x1_0000_0000_0000_0000,
    ensures
        reduce(x) == reduce(y),
{
    let qy = lemma_reduce_witness(y);
    lemma_reduce_unique(x, q + qy, reduce(y));
}

/// A machine word is its own representative.
pub proof fn lemma_reduce_word(x: u64)
    ensures
        reduce(x as int) == x,
{
    lemma_reduce_unique(x as int, 0, x);
}

/// Sums may be reduced term by term.
pub proof fn lemma_reduce_add(x: int, y: int)
    ensures
        reduce(reduce(x) + reduce(y)) == reduce(x + y),
        reduce(reduce(x) + y) == reduce(x + y),
        reduce(x + reduce(y)) == reduce(x + y),
{
    let qx = lemma_reduce_witness(x);
    let qy = lemma_reduce_witness(y);
    lemma_reduce_eq(reduce(x) + reduce(y), x + y, -qx - qy);
    lemma_reduce_eq(reduce(x) + y, x + y, -qx);
    lemma_reduce_eq(x + reduce(y), x + y, -qy);
}

/// Differences may be reduced term by term.
pub proof fn lemma_reduce_sub(x: int, y: int)
    ensures
        reduce(reduce(x) - reduce(y)) == reduce(x - y),
        reduce(reduce(x) - y) == reduce(x - y),
        reduce(x - reduce(y)) == reduce(x - y),
{
    let qx = lemma_reduce_witness(x);
    let qy = lemma_reduce_witness(y);
    lemma_reduce_eq(reduce(x) - reduce(y), x - y, qy - qx);
    lemma_reduce_eq(reduce(x) - y, x - y, -qx);
    lemma_reduce_eq(x - reduce(y), x - y, qy);
}

/// A difference of sums is the sum of the differences, each reduced or not.
pub proof fn lemma_reduce_regroup(p: int, q: int, r: int, t: int)
    ensures
        reduce(reduce(p + q) - reduce(r + t)) == reduce(reduce(p - r) + reduce(q - t)),
{
    lemma_reduce_sub(p + q, r + t);
    lemma_reduce_add(p - r, q - t);
}

/// Congruent integers differ by a multiple of 2^64: returns the multiplier.
pub proof fn lemma_congruent_witness(x: int, y: int) -> (q: int)
    requires
        congruent(x, y),
    ensures
        x == y + q * 0x1_0000_0000_0000_0000,
{
    reveal(congruent);
    lemma_fundamental_div_mod(x - y, 0x1_0000_0000_0000_0000);
    (x - y) / 0x1_0000_0000_0000_0000
}

/// Integers that differ by a multiple of 2^64 are congruent.
pub proof fn lemma_congruent_intro(x: int, y: int, q: int)
    requires
        x == y + q * 0x1_0000_0000_0000_0000,
    ensures
        congruent(x, y),
{
    reveal(congruent);
    lemma_fundamental_div_mod_converse(x - y, 0x1_0000_0000_0000_0000, q, 0);
}

/// Every integer is congruent to its representative.
pub proof fn lemma_congruent_reduce(x: int)
    ensures
        congruent(reduce(x) as int, x),
        congruent(x, reduce(x) as int),
{
    let q = lemma_reduce_witness(x);
    lemma_congruent_intro(reduce(x) as int, x, -q);
    lemma_congruent_intro(x, reduce(x) as int, q);
}

/// Congruent integers have the same representative.
pub proof fn lemma_congruent_same_reduce(x: int, y: int)
    requires
        congruent(x, y),
    ensures
        reduce(x) == reduce(y),
{
    let q = lemma_congruent_witness(x, y);
    lemma_reduce_eq(x, y, q);
}

/// Congruence is reflexive and symmetric.
pub proof fn lemma_congruent_symmetric(x: int, y: int)
    ensures
        congruent(x, x),
        congruent(x, y) ==> congruent(y, x),
{
    lemma_congruent_intro(x, x, 0);
    if congruent(x, y) {
        let q = lemma_congruent_witness(x, y);
        lemma_congruent_intro(y, x, -q);
    }
}

/// Congruence is transitive.
pub proof fn lemma_congruent_transitive(x: int, y: int, z: int)
    requires
        congruent(x, y),
        congruent(y, z),
    ensures
        congruent(x, z),
{
    let q = lemma_congruent_witness(x, y);
    let r = lemma_congruent_witness(y, z);
    lemma_congruent_intro(x, z, q + r);
}

/// Congruence is kept by sums and differences.
pub proof fn lemma_congruent_add(a: int, b: int, c: int, d: int)
    requires
        congruent(a, b),
        congruent(c, d),
    ensures
        congruent(a + c, b + d),
        congruent(a - c, b - d),
{
    let q = lemma_congruent_witness(a, b);
    let r = lemma_congruent_witness(c, d);
    lemma_congruent_intro(a + c, b + d, q + r);
    lemma_congruent_intro(a - c, b - d, q - r);
}

/// Congruence is kept by a common factor.
pub proof fn lemma_congruent_mul(a: int, b: int, c: int)
    requires
        congruent(a, b),
    ensures
        congruent(a * c, b * c),
        congruent(c * a, c * b),
{
    let q = lemma_congruent_witness(a, b);
    assert(a * c == b * c + (q * c) * 0x1_0000_0000_0000_0000) by (nonlinear_arith)
        requires
            a == b + q * 0x1_0000_0000_0000_0000,
    ;
    assert(c * a == a * c && c * b == b * c) by (nonlinear_arith);
    lemma_congruent_intro(a * c, b * c, q * c);
}

/// Wrapping addition of words is addition modulo 2^64.
pub proof fn lemma_wrapping_add(x: u64, y: u64)
    ensures
        u64_specs::wrapping_add(x, y) == reduce(x + y),
{
    let r = u64_specs::wrapping_add(x, y);
    if x + y > u64::MAX {
        lemma_reduce_unique(x + y, 1, r);
    } else {
        lemma_reduce_unique(x + y, 0, r);
    }
}

/// Wrapping addition of a signed word is addition modulo 2^64.
pub proof fn lemma_wrapping_add_signed(x: u64, y: i64)
    ensures
        u64_specs::wrapping_add_signed(x, y) == reduce(x + y),
{
    let r = u64_specs::wrapping_add_signed(x, y);
    if x + y > u64::MAX {
        lemma_reduce_unique(x + y, 1, r);
    } else if x + y < 0 {
        lemma_reduce_unique(x + y, -1, r);
    } else {
        lemma_reduce_unique(x + y, 0, r);
    }
}

/// Wrapping subtraction of words is subtraction modulo 2^64.
pub proof fn lemma_wrapping_sub(x: u64, y: u64)
    ensures
        u64_specs::wrapping_sub(x, y) == reduce(x - y),
{
    let r = u64_specs::wrapping_sub(x, y);
    if x - y < 0 {
        lemma_reduce_unique(x - y, -1, r);
    } else {
        lemma_reduce_unique(x - y, 0, r);
    }
}

/// Wrapping multiplication of words is multiplication modulo 2^64.
pub proof fn lemma_wrapping_mul(x: u64, y: u64)
    ensures
        u64_specs::wrapping_mul(x, y) == reduce(x * y),
{
    reveal(reduce);
    assert(0 <= x * y) by (nonlinear_arith)
        requires
            0 <= x,
            0 <= y,
    ;
}

} // verus!
