use vstd::prelude::*;
use crate::glwe::{spec_add, spec_decrypt, spec_encrypt, GlweView};
use crate::lwe::{spec_decode, spec_encode};
use crate::lwe_correctness::{lemma_decode_rounds, lemma_encode_units, within_margin};
use crate::modular::{
    lemma_reduce_add, lemma_reduce_regroup, lemma_reduce_sub, lemma_reduce_word, reduce,
};
use crate::poly::lemma_mul_distributes;

verus! {

/// Decryption undoes encryption up to the noise: what comes back is the
/// encrypted word plus the noise, modulo 2^64, whatever the key and the mask.
pub proof fn lemma_decrypt_encrypt(mu: u64, sk: Seq<Seq<u64>>, mask: Seq<Seq<u64>>, noise: i64)
    ensures
        spec_decrypt(spec_encrypt(mu, sk, mask, noise), sk) == reduce(mu + noise),
{
    let product = crate::poly::spec_mul(mask[0], sk[0]);
    let word = reduce(mu + noise);
    lemma_reduce_sub(product[0] + word, product[0] as int);
    lemma_reduce_word(word);
}

/// Round trip: a message below 16, encoded, encrypted, decrypted under the
/// same key and decoded, comes back unchanged exactly when the noise is
/// within the margin, whatever the key and the mask.
pub proof fn lemma_round_trip(m: u8, sk: Seq<Seq<u64>>, mask: Seq<Seq<u64>>, noise: i64)
    requires
        m < 16,
    ensures
        spec_decode(spec_decrypt(spec_encrypt(spec_encode(m), sk, mask, noise), sk)) == m
            <==> within_margin(noise as int),
{
    lemma_encode_units(m);
    lemma_decrypt_encrypt(spec_encode(m), sk, mask, noise);
    lemma_decode_rounds(m as int, noise as int);
}

/// Decryption is additive: the sum of two ciphertexts decrypts to the sum of
/// what they decrypt to, modulo 2^64.
pub proof fn lemma_decrypt_add(a: GlweView, b: GlweView, sk: Seq<Seq<u64>>)
    requires
        a.mask.len() > 0,
    ensures
        spec_decrypt(spec_add(a, b), sk) == reduce(spec_decrypt(a, sk) + spec_decrypt(b, sk)),
{
    let left = a.mask[0];
    let right = b.mask[0];
    let key = sk[0];
    let sum = spec_add(a, b);
    assert(sum.mask[0] == crate::poly::spec_add(left, right));
    let product = crate::poly::spec_mul(sum.mask[0], key);
    let product_left = crate::poly::spec_mul(left, key);
    let product_right = crate::poly::spec_mul(right, key);
    assert(product[0] == reduce(product_left[0] + product_right[0])) by {
        lemma_mul_distributes(left, right, key);
    }
    assert(sum.body[0] == reduce(a.body[0] + b.body[0]));
    assert(spec_decrypt(sum, sk) == reduce(sum.body[0] - product[0]));
    assert(spec_decrypt(a, sk) == reduce(a.body[0] - product_left[0]));
    assert(spec_decrypt(b, sk) == reduce(b.body[0] - product_right[0]));
    lemma_reduce_regroup(
        a.body[0] as int,
        b.body[0] as int,
        product_left[0] as int,
        product_right[0] as int,
    );
}

/// Additive homomorphism: two messages below 16, each encoded and
/// encrypted under one key, added as ciphertexts, decrypted and decoded,
/// give their sum modulo 16 exactly when the sum of the two noises is within
/// the margin.
pub proof fn lemma_add_homomorphic(
    m1: u8,
    m2: u8,
    sk: Seq<Seq<u64>>,
    mask1: Seq<Seq<u64>>,
    mask2: Seq<Seq<u64>>,
    noise1: i64,
    noise2: i64,
)
    requires
        m1 < 16,
        m2 < 16,
        mask1.len() > 0,
    ensures
        spec_decode(
            spec_decrypt(
                spec_add(
                    spec_encrypt(spec_encode(m1), sk, mask1, noise1),
                    spec_encrypt(spec_encode(m2), sk, mask2, noise2),
                ),
                sk,
            ),
        ) == (m1 + m2) % 16 <==> within_margin(noise1 + noise2),
{
    let c1 = spec_encrypt(spec_encode(m1), sk, mask1, noise1);
    let c2 = spec_encrypt(spec_encode(m2), sk, mask2, noise2);
    let unit: int = 0x1000_0000_0000_0000;
    lemma_encode_units(m1);
    lemma_encode_units(m2);
    lemma_decrypt_encrypt(spec_encode(m1), sk, mask1, noise1);
    lemma_decrypt_encrypt(spec_encode(m2), sk, mask2, noise2);
    lemma_decrypt_add(c1, c2, sk);
    lemma_reduce_add(m1 * unit + noise1, m2 * unit + noise2);
    assert((m1 * unit + noise1) + (m2 * unit + noise2) == (m1 + m2) * unit + (noise1 + noise2));
    lemma_decode_rounds(m1 + m2, noise1 + noise2);
}

} // verus!
