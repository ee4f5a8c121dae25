use vstd::prelude::*;
use crate::entropy::{random_bit, random_u64};
use crate::lwe::{spec_decode, spec_encode};
use crate::modular::{lemma_wrapping_add_signed, reduce};
use crate::poly::ResiduePoly;
use crate::{k, N};

verus! {

/// Binary logarithm of the standard deviation of the encryption noise.
pub const NOISE_LOG2_STD_DEV: u32 = 39;

/// A ciphertext over the ring: `body` is the product of the mask element
/// with the secret key element, plus the encoded message and the noise in
/// the constant coefficient.
#[derive(Clone, Copy)]
pub struct GlweCiphertext {
    pub mask: [ResiduePoly; k],
    pub body: ResiduePoly,
}

/// A secret key over the ring: `k` polynomials whose coefficients are each
/// 0 or 1 (see `is_binary`).
#[derive(Clone, Copy)]
pub struct SecretKey {
    pub polys: [ResiduePoly; k],
}

/// The mathematical content of a ciphertext: the coefficients of each mask
/// element and of the body.
pub struct GlweView {
    pub mask: Seq<Seq<u64>>,
    pub body: Seq<u64>,
}

/// The coefficients of each polynomial of an array, in order.
pub open spec fn polys_view(polys: [ResiduePoly; k]) -> Seq<Seq<u64>> {
    Seq::new(k as nat, |i: int| polys[i]@)
}

impl View for GlweCiphertext {
    type V = GlweView;

    open spec fn view(&self) -> GlweView {
        GlweView { mask: polys_view(self.mask), body: self.body@ }
    }
}

impl View for SecretKey {
    type V = Seq<Seq<u64>>;

    open spec fn view(&self) -> Seq<Seq<u64>> {
        polys_view(self.polys)
    }
}

/// Every coefficient of every polynomial of `sk` is 0 or 1.
pub open spec fn is_binary(sk: Seq<Seq<u64>>) -> bool {
    forall|i: int, j: int| 0 <= i < sk.len() && 0 <= j < sk[i].len() ==> sk[i][j] <= 1
}

/// The ciphertext whose polynomials are all zero.
pub open spec fn spec_zero() -> GlweView {
    GlweView {
        mask: Seq::new(k as nat, |i: int| crate::poly::spec_zero()),
        body: crate::poly::spec_zero(),
    }
}

/// The ciphertext with the given mask that hides `mu` under `sk` with the
/// given noise.
pub open spec fn spec_encrypt(mu: u64, sk: Seq<Seq<u64>>, mask: Seq<Seq<u64>>, noise: i64)
    -> GlweView {
    GlweView {
        mask,
        body: crate::poly::spec_add_constant(
            crate::poly::spec_mul(mask[0], sk[0]),
            reduce(mu + noise),
        ),
    }
}

/// What decryption returns: the constant coefficient of the body less the
/// product of the mask element with the key element.
pub open spec fn spec_decrypt(ct: GlweView, sk: Seq<Seq<u64>>) -> u64 {
    crate::poly::spec_sub(ct.body, crate::poly::spec_mul(ct.mask[0], sk[0]))[0]
}

/// Polynomial by polynomial sum.
pub open spec fn spec_add(a: GlweView, b: GlweView) -> GlweView {
    GlweView {
        mask: Seq::new(a.mask.len(), |i: int| crate::poly::spec_add(a.mask[i], b.mask[i])),
        body: crate::poly::spec_add(a.body, b.body),
    }
}

impl Default for GlweCiphertext {
    fn default() -> (zero: Self)
        ensures
            zero@ == spec_zero(),
    {
        let zero_poly = ResiduePoly::default();
        let zero = GlweCiphertext { mask: [zero_poly], body: zero_poly };
        assert(zero.mask@[0] == zero_poly);
        assert(zero@.mask =~= spec_zero().mask);
        zero
    }
}

impl GlweCiphertext {
    /// Hides `mu` under `sk` behind the given mask and noise.
    pub fn encrypt_with_mask(mu: u64, sk: SecretKey, mask: [ResiduePoly; k], noise: i64) -> (ct:
        GlweCiphertext)
        ensures
            ct@ == spec_encrypt(mu, sk@, polys_view(mask), noise),
    {
        proof {
            lemma_wrapping_add_signed(mu, noise);
        }
        let mu_star: u64 = mu.wrapping_add_signed(noise);
        let mut body = mask[0].mul(&sk.polys[0]);
        body.add_constant_assign(mu_star);
        GlweCiphertext { mask, body }
    }

    /// Hides `mu` under `sk` with the given noise, behind a mask drawn from
    /// the thread-local generator.
    pub fn encrypt(mu: u64, sk: SecretKey, noise: i64) -> (ct: GlweCiphertext)
        ensures
            ct@ == spec_encrypt(mu, sk@, ct@.mask, noise),
    {
        let mut mask = [ResiduePoly::default(); k];
        for i in 0..k {
            let mut coefs = [0u64; N];
            for j in 0..N {
                coefs[j] = random_u64();
            }
            mask[i] = ResiduePoly { coefs };
        }
        Self::encrypt_with_mask(mu, sk, mask, noise)
    }

    /// Removes the mask: returns the encoded message plus the noise.
    pub fn decrypt(self, sk: SecretKey) -> (mu_star: u64)
        ensures
            mu_star == spec_decrypt(self@, sk@),
    {
        let body = self.mask[0].mul(&sk.polys[0]);
        let mu_star = self.body.sub(&body);
        mu_star.coefs[0]
    }

    /// Adds two ciphertexts polynomial by polynomial.
    pub fn add(self, rhs: Self) -> (sum: Self)
        ensures
            sum@ == spec_add(self@, rhs@),
    {
        let mut res = GlweCiphertext::default();
        for i in 0..k
            invariant
                forall|j: int|
                    0 <= j < i ==> res.mask[j]@ == crate::poly::spec_add(
                        self.mask[j]@,
                        rhs.mask[j]@,
                    ),
        {
            res.mask[i] = self.mask[i].add(rhs.mask[i]);
        }
        res.body = self.body.add(rhs.body);
        assert(res@.mask =~= spec_add(self@, rhs@).mask);
        res
    }
}

/// Draws a secret key: `k` polynomials with coefficients 0 or 1 from the
/// thread-local generator.
pub fn keygen() -> (sk: SecretKey)
    ensures
        is_binary(sk@),
{
    let mut polys = [ResiduePoly::default(); k];
    for i in 0..k
        invariant
            forall|a: int, b: int| 0 <= a < i && 0 <= b < N ==> polys[a].coefs[b] <= 1,
    {
        let mut coefs = [0u64; N];
        for j in 0..N
            invariant
                forall|b: int| 0 <= b < j ==> coefs[b] <= 1,
        {
            coefs[j] = random_bit();
        }
        polys[i] = ResiduePoly { coefs };
    }
    SecretKey { polys }
}

/// Puts the low four bits of a message in the top four bits of a word.
pub fn encode(msg: u8) -> (mu: u64)
    ensures
        mu == spec_encode(msg),
{
    crate::lwe::encode(msg)
}

/// Rounds a word to the nearest code word and returns its message.
pub fn decode(mu: u64) -> (msg: u8)
    ensures
        msg == spec_decode(mu),
{
    crate::lwe::decode(mu)
}

} // verus!
