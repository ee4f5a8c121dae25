use vstd::prelude::*;
use crate::modular::{
    lemma_reduce_add, lemma_reduce_sub, lemma_reduce_witness, lemma_reduce_word,
    lemma_wrapping_add, lemma_wrapping_add_signed, lemma_wrapping_mul, lemma_wrapping_sub, reduce,
};
use crate::entropy::{random_bit, random_u64};
use crate::ggsw::{decomposition, digit_shift, gadget_weight, spec_decomposition};
use crate::{ELL, LWE_DIM};

verus! {

/// A ciphertext: `body` is the inner product of `mask` with the secret key,
/// plus the encoded message and the noise, modulo 2^64.
#[derive(Clone, Copy)]
pub struct LweCiphertext {
    pub mask: [u64; LWE_DIM],
    pub body: u64,
}

/// A secret key: `LWE_DIM` words, each 0 or 1 (see `is_binary`).
pub type LweSecretKey = [u64; LWE_DIM];

/// A key-switching key: `KSK_LEN` ciphertexts under the destination key.
/// Entry `ELL * i + j` hides bit `i` of the source key at the weight of
/// gadget digit `j`.
pub type KeySwitchingKey = Vec<LweCiphertext>;

/// Number of ciphertexts of a key-switching key.
pub const KSK_LEN: usize = LWE_DIM * ELL;

/// Binary logarithm of the standard deviation of the encryption noise.
pub const NOISE_LOG2_STD_DEV: u32 = 29;

/// The modulus that `modswitch` rescales to: twice the dimension.
pub const SWITCHED_MODULUS: u64 = 2048;

/// The bits that `modswitch` drops from a word before it rounds off one
/// more: 64, less the bits of `SWITCHED_MODULUS`, less that one.
pub const MODSWITCH_SHIFT: u64 = 52;

/// The bits that decoding drops from a word before it rounds off one more:
/// 64, less the four bits of a message, less that one.
pub const DECODE_SHIFT: u64 = 59;

/// The same at the reduced modulus: the bits of `SWITCHED_MODULUS`, less
/// the four bits of a message, less one.
pub const DECODE_MODSWITCHED_SHIFT: u64 = 6;

/// The bit at which an encoded message starts: 64 less its four bits.
pub const ENCODE_SHIFT: u64 = 60;

/// The mathematical content of a ciphertext.
pub struct LweView {
    pub mask: Seq<u64>,
    pub body: u64,
}

impl View for LweCiphertext {
    type V = LweView;

    open spec fn view(&self) -> LweView {
        LweView { mask: self.mask@, body: self.body }
    }
}

/// Every word of `sk` is 0 or 1.
pub open spec fn is_binary(sk: Seq<u64>) -> bool {
    forall|i: int| 0 <= i < sk.len() ==> sk[i] <= 1
}

/// The sum of `a[i] * s[i]` over the first `n` indices, as an integer.
pub open spec fn dot_prefix(a: Seq<u64>, s: Seq<u64>, n: nat) -> int
    decreases n,
{
    if n == 0 {
        0
    } else {
        dot_prefix(a, s, (n - 1) as nat) + a[n - 1] * s[n - 1]
    }
}

/// The inner product of a mask with a key, as an integer.
pub open spec fn inner_product(a: Seq<u64>, s: Seq<u64>) -> int {
    dot_prefix(a, s, a.len())
}

/// What decryption returns: the body minus the inner product, modulo 2^64.
pub open spec fn spec_decrypt(ct: LweView, sk: Seq<u64>) -> u64 {
    reduce(ct.body - inner_product(ct.mask, sk))
}

/// The ciphertext with the given mask that hides `mu` under `sk` with the
/// given noise.
pub open spec fn spec_encrypt(mu: u64, sk: Seq<u64>, mask: Seq<u64>, noise: i64) -> LweView {
    LweView { mask, body: reduce(inner_product(mask, sk) + mu + noise) }
}

/// Coordinate by coordinate sum modulo 2^64.
pub open spec fn spec_add(a: LweView, b: LweView) -> LweView {
    LweView {
        mask: Seq::new(a.mask.len(), |i: int| reduce(a.mask[i] + b.mask[i])),
        body: reduce(a.body + b.body),
    }
}

/// Coordinate by coordinate difference modulo 2^64.
pub open spec fn spec_sub(a: LweView, b: LweView) -> LweView {
    LweView {
        mask: Seq::new(a.mask.len(), |i: int| reduce(a.mask[i] - b.mask[i])),
        body: reduce(a.body - b.body),
    }
}

/// Every coordinate times `constant`, modulo 2^64.
pub open spec fn spec_scale(a: LweView, constant: u64) -> LweView {
    LweView {
        mask: Seq::new(a.mask.len(), |i: int| reduce(a.mask[i] * constant)),
        body: reduce(a.body * constant),
    }
}

/// The ciphertext whose coordinates are all zero.
pub open spec fn spec_zero() -> LweView {
    LweView { mask: Seq::new(LWE_DIM as nat, |i: int| 0u64), body: 0 }
}

/// A word rescaled from modulus 2^64 to `SWITCHED_MODULUS`: the nearest
/// integer to `v / 2^53`, halves rounded up. It can be `SWITCHED_MODULUS`
/// itself.
pub open spec fn switch_word(v: u64) -> u64 {
    ((v + 0x10_0000_0000_0000) / 0x20_0000_0000_0000) as u64
}

/// Every coordinate rescaled to `SWITCHED_MODULUS`.
pub open spec fn spec_modswitch(a: LweView) -> LweView {
    LweView {
        mask: Seq::new(a.mask.len(), |i: int| switch_word(a.mask[i])),
        body: switch_word(a.body),
    }
}

/// The sum of the `a[i]` over those of the first `n` indices at which the
/// key holds 1, as an integer.
pub open spec fn selected_prefix(a: Seq<u64>, s: Seq<u64>, n: nat) -> int
    decreases n,
{
    if n == 0 {
        0
    } else {
        selected_prefix(a, s, (n - 1) as nat) + if s[n - 1] == 1 {
            a[n - 1] as int
        } else {
            0
        }
    }
}

/// What decryption at the reduced modulus returns: the body minus the mask
/// words that the key selects, modulo `SWITCHED_MODULUS`.
pub open spec fn spec_decrypt_modswitched(ct: LweView, sk: Seq<u64>) -> u64 {
    ((ct.body - selected_prefix(ct.mask, sk, ct.mask.len())) % 2048) as u64
}

/// The running ciphertext of a key switch after the first `n` mask
/// coordinates: the body of `ct` under a zero mask, less each entry of the
/// key-switching key times the digit it belongs to.
pub open spec fn spec_keyswitch_prefix(ct: LweView, ksk: Seq<LweCiphertext>, n: nat) -> LweView
    decreases n,
{
    if n == 0 {
        LweView { mask: Seq::new(ct.mask.len(), |i: int| 0u64), body: ct.body }
    } else {
        let i = n - 1;
        let digits = spec_decomposition(ct.mask[i]);
        spec_sub(
            spec_sub(
                spec_keyswitch_prefix(ct, ksk, (n - 1) as nat),
                spec_scale(ksk[ELL * i]@, digits.0 as u64),
            ),
            spec_scale(ksk[ELL * i + 1]@, digits.1 as u64),
        )
    }
}

/// The ciphertext that a key switch of `ct` with `ksk` returns.
pub open spec fn spec_keyswitch(ct: LweView, ksk: Seq<LweCiphertext>) -> LweView {
    spec_keyswitch_prefix(ct, ksk, ct.mask.len())
}

/// What entry `idx` of a key-switching key hides: the source key's bit
/// `idx / ELL` at the weight of digit `idx % ELL`, modulo 2^64.
pub open spec fn spec_ksk_message(sk1: Seq<u64>, idx: int) -> u64 {
    reduce(sk1[idx / (ELL as int)] * gadget_weight(idx % (ELL as int)))
}

/// `ksk` is a key-switching key from `sk1` to `sk2` whose entry `idx` was
/// made with the noise `noise[idx]`.
pub open spec fn is_key_switching_key(
    ksk: Seq<LweCiphertext>,
    sk1: Seq<u64>,
    sk2: Seq<u64>,
    noise: Seq<i64>,
) -> bool {
    &&& ksk.len() == KSK_LEN
    &&& forall|idx: int|
        0 <= idx < KSK_LEN ==> (#[trigger] ksk[idx])@ == spec_encrypt(
            spec_ksk_message(sk1, idx),
            sk2,
            ksk[idx]@.mask,
            noise[idx],
        )
}

/// The code word of a message: its low four bits in the top four bits of a
/// word.
pub open spec fn spec_encode(msg: u8) -> u64 {
    ((msg % 16) * 0x1000_0000_0000_0000) as u64
}

/// The message whose code word is nearest to `mu` on the circle of words.
pub open spec fn spec_decode(mu: u64) -> u8 {
    (((mu + 0x0800_0000_0000_0000) / 0x1000_0000_0000_0000) % 16) as u8
}

/// The message whose code word is nearest to `mu` at the reduced modulus,
/// where a code word is a multiple of 128.
pub open spec fn spec_decode_modswitched(mu: u64) -> u8 {
    (((mu + 64) / 128) % 16) as u8
}

/// The inner product of a mask with a key modulo 2^64.
fn masked_sum(mask: &[u64; LWE_DIM], sk: &LweSecretKey) -> (acc: u64)
    ensures
        acc == reduce(inner_product(mask@, sk@)),
{
    let mut acc: u64 = 0;
    proof {
        lemma_reduce_word(0);
    }
    for i in 0..LWE_DIM
        invariant
            acc == reduce(dot_prefix(mask@, sk@, i as nat)),
    {
        let term = mask[i].wrapping_mul(sk[i]);
        proof {
            lemma_wrapping_mul(mask[i as int], sk[i as int]);
            lemma_wrapping_add(acc, term);
            lemma_reduce_add(dot_prefix(mask@, sk@, i as nat), mask[i as int] * sk[i as int]);
        }
        acc = acc.wrapping_add(term);
    }
    acc
}

/// Rescales one word from modulus 2^64 to `SWITCHED_MODULUS`.
fn switch(v: u64) -> (r: u64)
    ensures
        r == switch_word(v),
{
    let top: u64 = v >> MODSWITCH_SHIFT;
    assert(v >> 52u64 == v / 0x10_0000_0000_0000) by (bit_vector);
    let up: u64 = top + 1;
    assert(up >> 1u64 == up / 2) by (bit_vector);
    up >> 1
}

impl Default for LweCiphertext {
    fn default() -> (zero: Self)
        ensures
            zero@ == spec_zero(),
    {
        let zero = LweCiphertext { mask: [0u64; LWE_DIM], body: 0u64 };
        assert(zero@.mask =~= spec_zero().mask);
        zero
    }
}

impl LweCiphertext {
    /// Hides `mu` under `sk` behind the given mask and noise.
    pub fn encrypt_with_mask(mu: u64, sk: LweSecretKey, mask: [u64; LWE_DIM], noise: i64) -> (ct:
        LweCiphertext)
        ensures
            ct@ == spec_encrypt(mu, sk@, mask@, noise),
    {
        let mu_star = mu.wrapping_add_signed(noise);
        let dot = masked_sum(&mask, &sk);
        let body = dot.wrapping_add(mu_star);
        proof {
            lemma_wrapping_add_signed(mu, noise);
            lemma_wrapping_add(dot, mu_star);
            lemma_reduce_add(inner_product(mask@, sk@), mu + noise);
        }
        LweCiphertext { mask, body }
    }

    /// Hides `mu` under `sk` with the given noise, behind a mask drawn from
    /// the thread-local generator.
    pub fn encrypt(mu: u64, sk: LweSecretKey, noise: i64) -> (ct: LweCiphertext)
        ensures
            ct@ == spec_encrypt(mu, sk@, ct@.mask, noise),
    {
        let mut mask = [0u64; LWE_DIM];
        for i in 0..LWE_DIM {
            mask[i] = random_u64();
        }
        Self::encrypt_with_mask(mu, sk, mask, noise)
    }

    /// Removes the mask: returns the encoded message plus the noise.
    pub fn decrypt(self, sk: LweSecretKey) -> (mu_star: u64)
        ensures
            mu_star == spec_decrypt(self@, sk@),
    {
        let dot = masked_sum(&self.mask, &sk);
        proof {
            lemma_wrapping_sub(self.body, dot);
            lemma_reduce_sub(self.body as int, inner_product(self.mask@, sk@));
        }
        self.body.wrapping_sub(dot)
    }

    /// Removes the mask at the reduced modulus. Meant for a ciphertext that
    /// `modswitch` returned.
    pub fn decrypt_modswitched(self, sk: LweSecretKey) -> (mu_star: u64)
        ensures
            mu_star == spec_decrypt_modswitched(self@, sk@),
    {
        let mut dot_prod: u64 = 0;
        for i in 0..LWE_DIM
            invariant
                dot_prod < SWITCHED_MODULUS,
                dot_prod == selected_prefix(self.mask@, sk@, i as nat) % 2048,
        {
            if sk[i] == 1 {
                dot_prod = (dot_prod + self.mask[i] % SWITCHED_MODULUS) % SWITCHED_MODULUS;
            }
        }
        proof {
            lemma_wrapping_sub(self.body, dot_prod);
            let q = lemma_reduce_witness(self.body - dot_prod);
            let whole = selected_prefix(self.mask@, sk@, LWE_DIM as nat);
            let t = whole / 2048;
            // the difference of the words is the difference of the integers
            // plus a multiple of 2048
            assert(reduce(self.body - dot_prod) == (self.body - whole) + 2048 * (t - q
                * 0x20_0000_0000_0000));
            vstd::arithmetic::div_mod::lemma_mod_multiples_vanish(
                t - q * 0x20_0000_0000_0000,
                self.body - whole,
                2048,
            );
        }
        self.body.wrapping_sub(dot_prod) % SWITCHED_MODULUS
    }

    /// Adds two ciphertexts coordinate by coordinate.
    pub fn add(self, rhs: Self) -> (sum: Self)
        ensures
            sum@ == spec_add(self@, rhs@),
    {
        let mut mask = [0u64; LWE_DIM];
        for i in 0..LWE_DIM
            invariant
                forall|j: int| 0 <= j < i ==> mask[j] == reduce(self.mask[j] + rhs.mask[j]),
        {
            proof {
                lemma_wrapping_add(self.mask[i as int], rhs.mask[i as int]);
            }
            mask[i] = self.mask[i].wrapping_add(rhs.mask[i]);
        }
        proof {
            lemma_wrapping_add(self.body, rhs.body);
        }
        let body = self.body.wrapping_add(rhs.body);
        let sum = LweCiphertext { mask, body };
        assert(sum@.mask =~= spec_add(self@, rhs@).mask);
        sum
    }

    /// Subtracts `rhs` from a ciphertext coordinate by coordinate.
    pub fn sub(self, rhs: Self) -> (diff: Self)
        ensures
            diff@ == spec_sub(self@, rhs@),
    {
        let mut mask = [0u64; LWE_DIM];
        for i in 0..LWE_DIM
            invariant
                forall|j: int| 0 <= j < i ==> mask[j] == reduce(self.mask[j] - rhs.mask[j]),
        {
            proof {
                lemma_wrapping_sub(self.mask[i as int], rhs.mask[i as int]);
            }
            mask[i] = self.mask[i].wrapping_sub(rhs.mask[i]);
        }
        proof {
            lemma_wrapping_sub(self.body, rhs.body);
        }
        let body = self.body.wrapping_sub(rhs.body);
        let diff = LweCiphertext { mask, body };
        assert(diff@.mask =~= spec_sub(self@, rhs@).mask);
        diff
    }

    /// Multiplies every coordinate by `constant` in place, and returns a copy
    /// of the result.
    pub fn multiply_constant_assign(&mut self, constant: u64) -> (scaled: Self)
        ensures
            final(self)@ == spec_scale(old(self)@, constant),
            scaled == *final(self),
    {
        for i in 0..LWE_DIM
            invariant
                self.body == old(self).body,
                forall|j: int| 0 <= j < i ==> self.mask[j] == reduce(old(self).mask[j] * constant),
                forall|j: int| i <= j < LWE_DIM ==> self.mask[j] == old(self).mask[j],
        {
            proof {
                lemma_wrapping_mul(self.mask[i as int], constant);
            }
            self.mask[i] = self.mask[i].wrapping_mul(constant);
        }
        proof {
            lemma_wrapping_mul(self.body, constant);
        }
        self.body = self.body.wrapping_mul(constant);
        assert(self@.mask =~= spec_scale(old(self)@, constant).mask);
        *self
    }

    /// Rescales every coordinate from modulus 2^64 to `SWITCHED_MODULUS`.
    pub fn modswitch(&self) -> (switched: Self)
        ensures
            switched@ == spec_modswitch(self@),
    {
        let mut mask = [0u64; LWE_DIM];
        for i in 0..LWE_DIM
            invariant
                forall|j: int| 0 <= j < i ==> mask[j] == switch_word(self.mask[j]),
        {
            mask[i] = switch(self.mask[i]);
        }
        let body: u64 = switch(self.body);
        let switched = LweCiphertext { mask, body };
        assert(switched@.mask =~= spec_modswitch(self@).mask);
        switched
    }

    /// Turns a ciphertext under the source key of `ksk` into one of the same
    /// message under its destination key. Reads the first `KSK_LEN` entries
    /// of `ksk`.
    pub fn keyswitch(&self, ksk: KeySwitchingKey) -> (switched: Self)
        requires
            ksk@.len() >= KSK_LEN,
        ensures
            switched@ == spec_keyswitch(self@, ksk@),
    {
        let mut keyswitched = LweCiphertext::default();
        keyswitched.body = self.body;
        assert(keyswitched@.mask =~= spec_keyswitch_prefix(self@, ksk@, 0).mask);
        for i in 0..LWE_DIM
            invariant
                ksk@.len() >= KSK_LEN,
                keyswitched@ == spec_keyswitch_prefix(self@, ksk@, i as nat),
        {
            let digits: (u8, u8) = decomposition(self.mask[i]);
            let mut low: LweCiphertext = ksk[ELL * i];
            let mut high: LweCiphertext = ksk[ELL * i + 1];
            keyswitched = keyswitched.sub(low.multiply_constant_assign(digits.0 as u64)).sub(
                high.multiply_constant_assign(digits.1 as u64),
            );
        }
        keyswitched
    }
}

/// Draws a secret key: `LWE_DIM` bits from the thread-local generator.
pub fn lwe_keygen() -> (sk: LweSecretKey)
    ensures
        is_binary(sk@),
{
    let mut sk = [0u64; LWE_DIM];
    for i in 0..LWE_DIM
        invariant
            forall|j: int| 0 <= j < i ==> sk[j] <= 1,
    {
        sk[i] = random_bit();
    }
    sk
}

/// Builds the key-switching key from `sk1` to `sk2`: each bit of `sk1` at
/// each gadget weight, hidden under `sk2`, entry `idx` with the noise
/// `noise[idx]`.
pub fn compute_ksk(sk1: LweSecretKey, sk2: LweSecretKey, noise: [i64; KSK_LEN]) -> (ksk:
    KeySwitchingKey)
    ensures
        is_key_switching_key(ksk@, sk1@, sk2@, noise@),
{
    let mut ksk: Vec<LweCiphertext> = Vec::new();
    for i in 0..LWE_DIM
        invariant
            ksk@.len() == ELL * i,
            forall|idx: int|
                0 <= idx < ELL * i ==> (#[trigger] ksk@[idx])@ == spec_encrypt(
                    spec_ksk_message(sk1@, idx),
                    sk2@,
                    ksk@[idx]@.mask,
                    noise@[idx],
                ),
    {
        for j in 0..ELL
            invariant
                i < LWE_DIM,
                ksk@.len() == ELL * i + j,
                forall|idx: int|
                    0 <= idx < ELL * i + j ==> (#[trigger] ksk@[idx])@ == spec_encrypt(
                        spec_ksk_message(sk1@, idx),
                        sk2@,
                        ksk@[idx]@.mask,
                        noise@[idx],
                    ),
        {
            let shift: u64 = digit_shift(j);
            let bit: u64 = sk1[i];
            let mu: u64 = bit << shift;
            assert(mu == spec_ksk_message(sk1@, ELL * i + j)) by {
                reveal(reduce);
                assert(bit << 48u64 == (bit * 0x1_0000_0000_0000) % 0x1_0000_0000_0000_0000)
                    by (bit_vector);
                assert(bit << 56u64 == (bit * 0x100_0000_0000_0000) % 0x1_0000_0000_0000_0000)
                    by (bit_vector);
            }
            let ct: LweCiphertext = LweCiphertext::encrypt(mu, sk2, noise[ELL * i + j]);
            ksk.push(ct);
        }
    }
    ksk
}

/// Puts the low four bits of a message in the top four bits of a word.
pub fn encode(msg: u8) -> (mu: u64)
    ensures
        mu == spec_encode(msg),
{
    let wide: u64 = msg as u64;
    assert(wide << 60u64 == (wide % 16) * 0x1000_0000_0000_0000) by (bit_vector);
    wide << ENCODE_SHIFT
}

/// Rounds a word to the nearest code word and returns its message.
pub fn decode(mu: u64) -> (msg: u8)
    ensures
        msg == spec_decode(mu),
{
    let top: u64 = mu >> DECODE_SHIFT;
    assert(mu >> 59u64 == mu / 0x0800_0000_0000_0000) by (bit_vector);
    let up: u64 = top + 1;
    assert(up >> 1u64 == up / 2) by (bit_vector);
    ((up >> 1) % 16) as u8
}

/// Rounds a word at the reduced modulus to the nearest code word and
/// returns its message.
pub fn decode_modswitched(mu: u64) -> (msg: u8)
    ensures
        msg == spec_decode_modswitched(mu),
{
    let top: u64 = mu >> DECODE_MODSWITCHED_SHIFT;
    assert(mu >> 6u64 == mu / 64) by (bit_vector);
    let up: u64 = top + 1;
    assert(up >> 1u64 == up / 2) by (bit_vector);
    ((up >> 1) % 16) as u8
}

} // verus!
