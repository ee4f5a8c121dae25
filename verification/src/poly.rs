use vstd::prelude::*;
use crate::modular::{
    congruent, lemma_congruent_add, lemma_congruent_mul, lemma_congruent_same_reduce,
    lemma_congruent_reduce, lemma_congruent_symmetric, lemma_reduce_add, lemma_reduce_sub,
    lemma_reduce_word, lemma_wrapping_add, lemma_wrapping_mul, lemma_wrapping_sub, reduce,
};
use crate::N;

verus! {

/// An element of the ring of polynomials modulo `X^N + 1` with coefficients
/// modulo 2^64: `coefs[i]` is the coefficient of `X^i`.
#[derive(Clone, Copy)]
pub struct ResiduePoly {
    pub coefs: [u64; N],
}

impl View for ResiduePoly {
    type V = Seq<u64>;

    open spec fn view(&self) -> Seq<u64> {
        self.coefs@
    }
}

/// The polynomial whose coefficients are all zero.
pub open spec fn spec_zero() -> Seq<u64> {
    Seq::new(N as nat, |i: int| 0u64)
}

/// Coefficient by coefficient sum modulo 2^64.
pub open spec fn spec_add(a: Seq<u64>, b: Seq<u64>) -> Seq<u64> {
    Seq::new(N as nat, |i: int| reduce(a[i] + b[i]))
}

/// Coefficient by coefficient difference modulo 2^64.
pub open spec fn spec_sub(a: Seq<u64>, b: Seq<u64>) -> Seq<u64> {
    Seq::new(N as nat, |i: int| reduce(a[i] - b[i]))
}

/// The polynomial with `constant` added to its constant coefficient.
pub open spec fn spec_add_constant(a: Seq<u64>, constant: u64) -> Seq<u64> {
    a.update(0, reduce(a[0] + constant))
}

/// What `a[i]` contributes to coefficient `k` of a product with `b`: it
/// meets `b[k - i]`, or, past `k`, wraps round `X^N = -1` and meets
/// `b[N + k - i]` with the sign changed.
pub open spec fn negacyclic_term(a: Seq<u64>, b: Seq<u64>, k: int, i: int) -> int {
    if i <= k {
        a[i] * b[k - i]
    } else {
        -(a[i] * b[N + k - i])
    }
}

/// The contributions of the first `n` coefficients of `a` to coefficient
/// `k` of a product with `b`, as an integer.
pub open spec fn negacyclic_prefix(a: Seq<u64>, b: Seq<u64>, k: int, n: nat) -> int
    decreases n,
{
    if n == 0 {
        0
    } else {
        negacyclic_prefix(a, b, k, (n - 1) as nat) + negacyclic_term(a, b, k, n - 1)
    }
}

/// The product modulo `X^N + 1` and modulo 2^64.
pub open spec fn spec_mul(a: Seq<u64>, b: Seq<u64>) -> Seq<u64> {
    Seq::new(N as nat, |k: int| reduce(negacyclic_prefix(a, b, k, N as nat)))
}

impl Default for ResiduePoly {
    fn default() -> (zero: Self)
        ensures
            zero@ == spec_zero(),
    {
        let zero = ResiduePoly { coefs: [0u64; N] };
        assert(zero@ =~= spec_zero());
        zero
    }
}

impl ResiduePoly {
    /// Adds two polynomials.
    pub fn add(self, rhs: ResiduePoly) -> (sum: ResiduePoly)
        ensures
            sum@ == spec_add(self@, rhs@),
    {
        let mut coefs = [0u64; N];
        for i in 0..N
            invariant
                forall|j: int| 0 <= j < i ==> coefs[j] == reduce(self.coefs[j] + rhs.coefs[j]),
        {
            proof {
                lemma_wrapping_add(self.coefs[i as int], rhs.coefs[i as int]);
            }
            coefs[i] = self.coefs[i].wrapping_add(rhs.coefs[i]);
        }
        let sum = ResiduePoly { coefs };
        assert(sum@ =~= spec_add(self@, rhs@));
        sum
    }

    /// Subtracts `rhs` from a polynomial.
    pub fn sub(&self, rhs: &ResiduePoly) -> (diff: ResiduePoly)
        ensures
            diff@ == spec_sub(self@, rhs@),
    {
        let mut coefs = [0u64; N];
        for i in 0..N
            invariant
                forall|j: int| 0 <= j < i ==> coefs[j] == reduce(self.coefs[j] - rhs.coefs[j]),
        {
            proof {
                lemma_wrapping_sub(self.coefs[i as int], rhs.coefs[i as int]);
            }
            coefs[i] = self.coefs[i].wrapping_sub(rhs.coefs[i]);
        }
        let diff = ResiduePoly { coefs };
        assert(diff@ =~= spec_sub(self@, rhs@));
        diff
    }

    /// Multiplies two polynomials modulo `X^N + 1`.
    pub fn mul(&self, rhs: &ResiduePoly) -> (product: ResiduePoly)
        ensures
            product@ == spec_mul(self@, rhs@),
    {
        let mut coefs = [0u64; N];
        for k in 0..N
            invariant
                forall|j: int|
                    0 <= j < k ==> coefs[j] == reduce(
                        negacyclic_prefix(self@, rhs@, j, N as nat),
                    ),
        {
            let mut acc: u64 = 0;
            proof {
                lemma_reduce_word(0);
            }
            for i in 0..N
                invariant
                    k < N,
                    acc == reduce(negacyclic_prefix(self@, rhs@, k as int, i as nat)),
            {
                if i <= k {
                    let term: u64 = self.coefs[i].wrapping_mul(rhs.coefs[k - i]);
                    proof {
                        lemma_wrapping_mul(self.coefs[i as int], rhs.coefs[k - i]);
                        lemma_wrapping_add(acc, term);
                        lemma_reduce_add(
                            negacyclic_prefix(self@, rhs@, k as int, i as nat),
                            self.coefs[i as int] * rhs.coefs[k - i],
                        );
                    }
                    acc = acc.wrapping_add(term);
                } else {
                    let term: u64 = self.coefs[i].wrapping_mul(rhs.coefs[N + k - i]);
                    proof {
                        lemma_wrapping_mul(self.coefs[i as int], rhs.coefs[N + k - i]);
                        lemma_wrapping_sub(acc, term);
                        lemma_reduce_sub(
                            negacyclic_prefix(self@, rhs@, k as int, i as nat),
                            self.coefs[i as int] * rhs.coefs[N + k - i],
                        );
                    }
                    acc = acc.wrapping_sub(term);
                }
            }
            coefs[k] = acc;
        }
        let product = ResiduePoly { coefs };
        assert(product@ =~= spec_mul(self@, rhs@));
        product
    }

    /// Adds `constant` to the constant coefficient, in place.
    pub fn add_constant_assign(&mut self, constant: u64)
        ensures
            final(self)@ == spec_add_constant(old(self)@, constant),
    {
        proof {
            lemma_wrapping_add(self.coefs[0], constant);
        }
        self.coefs[0] = self.coefs[0].wrapping_add(constant);
        assert(self@ =~= spec_add_constant(old(self)@, constant));
    }
}

/// The contributions to a coefficient of a product are additive in the
/// left factor, modulo 2^64: where each `x[i]` is congruent to
/// `a[i] + b[i]`, those of `x` are congruent to those of `a` plus those of
/// `b`.
pub proof fn lemma_negacyclic_prefix_additive(
    x: Seq<u64>,
    a: Seq<u64>,
    b: Seq<u64>,
    s: Seq<u64>,
    k: int,
    n: nat,
)
    requires
        forall|i: int| 0 <= i < n ==> congruent(x[i] as int, a[i] + b[i]),
    ensures
        congruent(
            negacyclic_prefix(x, s, k, n),
            negacyclic_prefix(a, s, k, n) + negacyclic_prefix(b, s, k, n),
        ),
    decreases n,
{
    if n > 0 {
        let i = n - 1;
        lemma_negacyclic_prefix_additive(x, a, b, s, k, i as nat);
        let t = if i <= k {
            s[k - i] as int
        } else {
            -(s[N + k - i] as int)
        };
        let tx = negacyclic_term(x, s, k, i);
        let ta = negacyclic_term(a, s, k, i);
        let tb = negacyclic_term(b, s, k, i);
        assert(tx == x[i] * t) by (nonlinear_arith)
            requires
                tx == if i <= k {
                    x[i] * s[k - i]
                } else {
                    -(x[i] * s[N + k - i])
                },
                t == if i <= k {
                    s[k - i] as int
                } else {
                    -(s[N + k - i] as int)
                },
        ;
        assert(ta + tb == (a[i] + b[i]) * t) by (nonlinear_arith)
            requires
                ta == if i <= k {
                    a[i] * s[k - i]
                } else {
                    -(a[i] * s[N + k - i])
                },
                tb == if i <= k {
                    b[i] * s[k - i]
                } else {
                    -(b[i] * s[N + k - i])
                },
                t == if i <= k {
                    s[k - i] as int
                } else {
                    -(s[N + k - i] as int)
                },
        ;
        lemma_congruent_mul(x[i] as int, a[i] + b[i], t);
        lemma_congruent_add(
            negacyclic_prefix(x, s, k, i as nat),
            negacyclic_prefix(a, s, k, i as nat) + negacyclic_prefix(b, s, k, i as nat),
            tx,
            ta + tb,
        );
    } else {
        lemma_congruent_symmetric(0, 0);
    }
}

/// Multiplication distributes over addition: a sum times `s` is the sum of
/// the products.
pub proof fn lemma_mul_distributes(a: Seq<u64>, b: Seq<u64>, s: Seq<u64>)
    ensures
        spec_mul(spec_add(a, b), s) == spec_add(spec_mul(a, s), spec_mul(b, s)),
{
    let x = spec_add(a, b);
    assert forall|i: int| 0 <= i < N implies congruent(x[i] as int, a[i] + b[i]) by {
        lemma_congruent_reduce(a[i] + b[i]);
    }
    assert forall|k: int| 0 <= k < N implies spec_mul(x, s)[k] == spec_add(
        spec_mul(a, s),
        spec_mul(b, s),
    )[k] by {
        lemma_negacyclic_prefix_additive(x, a, b, s, k, N as nat);
        let pa = negacyclic_prefix(a, s, k, N as nat);
        let pb = negacyclic_prefix(b, s, k, N as nat);
        lemma_congruent_same_reduce(negacyclic_prefix(x, s, k, N as nat), pa + pb);
        lemma_reduce_add(pa, pb);
    }
    assert(spec_mul(x, s) =~= spec_add(spec_mul(a, s), spec_mul(b, s)));
}

} // verus!
