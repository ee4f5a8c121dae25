use vstd::prelude::*;
use vstd::arithmetic::div_mod::{
    lemma_fundamental_div_mod, lemma_fundamental_div_mod_converse, lemma_mod_bound,
};
use crate::ggsw::{
    decomposition_remainder, gadget_weight, lemma_decomposition_recomposes, spec_decomposition,
};
use crate::lwe::{
    dot_prefix, inner_product, is_binary, is_key_switching_key, selected_prefix, spec_add,
    spec_decode, spec_decode_modswitched, spec_decrypt, spec_decrypt_modswitched, spec_encode,
    spec_encrypt, spec_keyswitch, spec_keyswitch_prefix, spec_ksk_message, spec_modswitch,
    spec_scale, spec_sub, switch_word, LweCiphertext, LweView, SWITCHED_MODULUS,
};
use crate::modular::{
    congruent, lemma_congruent_add, lemma_congruent_intro, lemma_congruent_mul,
    lemma_congruent_reduce, lemma_congruent_same_reduce, lemma_congruent_symmetric,
    lemma_congruent_transitive, lemma_congruent_witness, lemma_reduce_add, lemma_reduce_eq,
    lemma_reduce_sub, lemma_reduce_unique, lemma_reduce_witness, lemma_reduce_word, modulus,
    reduce,
};
use crate::{ELL, LWE_DIM};

verus! {

/// The error `e` is one that decoding removes: modulo 2^64 it stands for an
/// integer that is at least -2^59 and less than 2^59.
pub open spec fn within_margin(e: int) -> bool {
    reduce(e + 0x0800_0000_0000_0000) < 0x1000_0000_0000_0000
}

/// An integer that is at least -2^59 and less than 2^59 is within the
/// margin.
pub proof fn lemma_margin_interval(e: int)
    requires
        -0x0800_0000_0000_0000 <= e < 0x0800_0000_0000_0000,
    ensures
        within_margin(e),
{
    lemma_reduce_unique(e + 0x0800_0000_0000_0000, 0, (e + 0x0800_0000_0000_0000) as u64);
}

/// A signed word is within the margin exactly when it is at least -2^59 and
/// less than 2^59.
pub proof fn lemma_margin_of_word(e: i64)
    ensures
        within_margin(e as int) <==> -0x0800_0000_0000_0000 <= e < 0x0800_0000_0000_0000,
{
    let shifted = e + 0x0800_0000_0000_0000;
    if shifted >= 0 {
        lemma_reduce_unique(shifted, 0, shifted as u64);
    } else {
        lemma_reduce_unique(shifted, -1, (shifted + 0x1_0000_0000_0000_0000) as u64);
    }
}

/// A message below 16 is encoded as that many units of 2^60.
pub proof fn lemma_encode_units(m: u8)
    requires
        m < 16,
    ensures
        spec_encode(m) == m * 0x1000_0000_0000_0000,
{
}

/// Adding `h` units, with `h` from 0 to 15, changes a number modulo 16
/// unless `h` is 0.
proof fn lemma_units_modulo_16(k: int, j: int, h: int)
    requires
        0 <= h < 16,
    ensures
        (k + 16 * j + h) % 16 == k % 16 <==> h == 0,
{
    let a = k / 16;
    let r = k % 16;
    if r + h < 16 {
        lemma_fundamental_div_mod_converse(k + 16 * j + h, 16, a + j, r + h);
    } else {
        lemma_fundamental_div_mod_converse(k + 16 * j + h, 16, a + j + 1, r + h - 16);
    }
}

/// Decoding rounds away an error exactly when it is within the margin: the
/// word that is `k * 2^60 + e` modulo 2^64 decodes to `k` modulo 16 if and
/// only if `e` is within the margin.
pub proof fn lemma_decode_rounds(k: int, e: int)
    ensures
        spec_decode(reduce(k * 0x1000_0000_0000_0000 + e)) == k % 16 <==> within_margin(e),
{
    let unit: int = 0x1000_0000_0000_0000;
    let half: int = 0x0800_0000_0000_0000;
    // the error, moved up by half a unit, as a word: `h` whole units and a
    // rest
    let w = reduce(e + half) as int;
    let q = lemma_reduce_witness(e + half);
    let h = w / unit;
    let rest = w % unit;
    lemma_fundamental_div_mod(w, unit);
    lemma_mod_bound(w, unit);
    // the word that is decoded, moved up by half a unit
    let word = reduce(k * unit + e) as int;
    let qx = lemma_reduce_witness(k * unit + e);
    assert(word + half == (k + 16 * (q - qx) + h) * unit + rest);
    lemma_fundamental_div_mod_converse(word + half, unit, k + 16 * (q - qx) + h, rest);
    lemma_units_modulo_16(k, q - qx, h);
}

/// Decryption undoes encryption up to the noise: what comes back is the
/// encrypted word plus the noise, modulo 2^64, whatever the key and the mask.
pub proof fn lemma_decrypt_encrypt(mu: u64, sk: Seq<u64>, mask: Seq<u64>, noise: i64)
    ensures
        spec_decrypt(spec_encrypt(mu, sk, mask, noise), sk) == reduce(mu + noise),
{
    let ip = inner_product(mask, sk);
    lemma_reduce_sub(ip + mu + noise, ip);
}

/// Round trip: a message below 16, encoded, encrypted, decrypted under the
/// same key and decoded, comes back unchanged exactly when the noise is
/// within the margin, whatever the key and the mask.
pub proof fn lemma_round_trip(m: u8, sk: Seq<u64>, mask: Seq<u64>, noise: i64)
    requires
        m < 16,
    ensures
        spec_decode(spec_decrypt(spec_encrypt(spec_encode(m), sk, mask, noise), sk)) == m
            <==> within_margin(noise as int),
{
    lemma_encode_units(m);
    lemma_decrypt_encrypt(spec_encode(m), sk, mask, noise);
    lemma_decode_rounds(m as int, noise as int);
}

/// The inner product is linear modulo 2^64: where each `x[i]` is congruent
/// to `ca * a[i] + cb * b[i]`, the inner product of `x` with `s` is congruent
/// to the same combination of those of `a` and `b`.
pub proof fn lemma_dot_prefix_linear(
    x: Seq<u64>,
    a: Seq<u64>,
    b: Seq<u64>,
    ca: int,
    cb: int,
    s: Seq<u64>,
    n: nat,
)
    requires
        forall|i: int| 0 <= i < n ==> congruent(x[i] as int, ca * a[i] + cb * b[i]),
    ensures
        congruent(dot_prefix(x, s, n), ca * dot_prefix(a, s, n) + cb * dot_prefix(b, s, n)),
    decreases n,
{
    if n > 0 {
        let p = (n - 1) as nat;
        lemma_dot_prefix_linear(x, a, b, ca, cb, s, p);
        let t = s[n - 1] as int;
        let da = dot_prefix(a, s, p);
        let db = dot_prefix(b, s, p);
        let ai = a[n - 1] as int;
        let bi = b[n - 1] as int;
        lemma_congruent_mul(x[n - 1] as int, ca * ai + cb * bi, t);
        lemma_congruent_add(dot_prefix(x, s, p), ca * da + cb * db, x[n - 1] * t, (ca * ai + cb
            * bi) * t);
        assert((ca * da + cb * db) + (ca * ai + cb * bi) * t == ca * (da + ai * t) + cb * (db + bi
            * t)) by (nonlinear_arith);
    } else {
        assert(ca * 0 + cb * 0 == 0) by (nonlinear_arith);
        lemma_congruent_symmetric(0, 0);
    }
}

/// Decryption is additive: the sum of two ciphertexts decrypts to the sum of
/// what they decrypt to, modulo 2^64.
pub proof fn lemma_decrypt_add(a: LweView, b: LweView, sk: Seq<u64>)
    requires
        a.mask.len() == b.mask.len(),
    ensures
        spec_decrypt(spec_add(a, b), sk) == reduce(spec_decrypt(a, sk) + spec_decrypt(b, sk)),
{
    let x = spec_add(a, b).mask;
    assert forall|i: int| 0 <= i < x.len() implies congruent(
        x[i] as int,
        1 * a.mask[i] + 1 * b.mask[i],
    ) by {
        lemma_congruent_reduce(a.mask[i] + b.mask[i]);
    }
    lemma_dot_prefix_linear(x, a.mask, b.mask, 1, 1, sk, x.len());
    let da = inner_product(a.mask, sk);
    let db = inner_product(b.mask, sk);
    let dx = inner_product(x, sk);
    // body of the sum less its inner product, against the sum of the two
    let q = lemma_congruent_witness(dx, 1 * da + 1 * db);
    let qb = lemma_reduce_witness(a.body + b.body);
    lemma_reduce_eq(reduce(a.body + b.body) - dx, (a.body - da) + (b.body - db), -qb - q);
    lemma_reduce_add(a.body - da, b.body - db);
}

/// Decryption respects differences: the difference of two ciphertexts
/// decrypts to the difference of what they decrypt to, modulo 2^64.
pub proof fn lemma_decrypt_sub(a: LweView, b: LweView, sk: Seq<u64>)
    requires
        a.mask.len() == b.mask.len(),
    ensures
        spec_decrypt(spec_sub(a, b), sk) == reduce(spec_decrypt(a, sk) - spec_decrypt(b, sk)),
{
    let x = spec_sub(a, b).mask;
    assert forall|i: int| 0 <= i < x.len() implies congruent(
        x[i] as int,
        1 * a.mask[i] + (-1) * b.mask[i],
    ) by {
        lemma_congruent_reduce(a.mask[i] - b.mask[i]);
    }
    lemma_dot_prefix_linear(x, a.mask, b.mask, 1, -1, sk, x.len());
    let da = inner_product(a.mask, sk);
    let db = inner_product(b.mask, sk);
    let dx = inner_product(x, sk);
    let q = lemma_congruent_witness(dx, 1 * da + (-1) * db);
    let qb = lemma_reduce_witness(a.body - b.body);
    lemma_reduce_eq(reduce(a.body - b.body) - dx, (a.body - da) - (b.body - db), -qb - q);
    lemma_reduce_sub(a.body - da, b.body - db);
}

/// Decryption respects scaling: a ciphertext times a constant decrypts to
/// that constant times what the ciphertext decrypts to, modulo 2^64.
pub proof fn lemma_decrypt_scale(a: LweView, constant: u64, sk: Seq<u64>)
    ensures
        spec_decrypt(spec_scale(a, constant), sk) == reduce(spec_decrypt(a, sk) * constant),
{
    let x = spec_scale(a, constant).mask;
    let c = constant as int;
    assert forall|i: int| 0 <= i < x.len() implies congruent(
        x[i] as int,
        c * a.mask[i] + 0 * a.mask[i],
    ) by {
        lemma_congruent_reduce(a.mask[i] * constant);
        assert(c * a.mask[i] + 0 * a.mask[i] == a.mask[i] * constant) by (nonlinear_arith)
            requires
                c == constant,
        ;
    }
    lemma_dot_prefix_linear(x, a.mask, a.mask, c, 0, sk, x.len());
    let d = inner_product(a.mask, sk);
    let dx = inner_product(x, sk);
    let body = a.body as int;
    assert(c * d + 0 * d == d * c) by (nonlinear_arith);
    // the scaled ciphertext decrypts to something congruent to
    // `(body - d) * c`
    let q = lemma_congruent_witness(dx, d * c);
    let qb = lemma_reduce_witness(body * c);
    assert((body - d) * c == body * c - d * c) by (nonlinear_arith);
    lemma_reduce_eq(reduce(body * c) - dx, (body - d) * c, -qb - q);
    // and so does the constant times what the ciphertext decrypts to
    lemma_congruent_reduce(body - d);
    lemma_congruent_mul(reduce(body - d) as int, body - d, c);
    lemma_congruent_same_reduce(reduce(body - d) * c, (body - d) * c);
}

/// Additive homomorphism: two messages below 16, each encoded and
/// encrypted under one key, added as ciphertexts, decrypted and decoded,
/// give their sum modulo 16 exactly when the sum of the two noises is within
/// the margin.
pub proof fn lemma_add_homomorphic(
    m1: u8,
    m2: u8,
    sk: Seq<u64>,
    mask1: Seq<u64>,
    mask2: Seq<u64>,
    noise1: i64,
    noise2: i64,
)
    requires
        m1 < 16,
        m2 < 16,
        mask1.len() == mask2.len(),
    ensures
        spec_decode(
            spec_decrypt(
                spec_add(
                    spec_encrypt(spec_encode(m1), sk, mask1, noise1),
                    spec_encrypt(spec_encode(m2), sk, mask2, noise2),
                ),
                sk,
            ),
        ) == (m1 + m2) % 16 <==> within_margin(noise1 + noise2),
{
    let c1 = spec_encrypt(spec_encode(m1), sk, mask1, noise1);
    let c2 = spec_encrypt(spec_encode(m2), sk, mask2, noise2);
    let unit: int = 0x1000_0000_0000_0000;
    lemma_encode_units(m1);
    lemma_encode_units(m2);
    lemma_decrypt_encrypt(spec_encode(m1), sk, mask1, noise1);
    lemma_decrypt_encrypt(spec_encode(m2), sk, mask2, noise2);
    lemma_decrypt_add(c1, c2, sk);
    lemma_reduce_add(m1 * unit + noise1, m2 * unit + noise2);
    assert((m1 * unit + noise1) + (m2 * unit + noise2) == (m1 + m2) * unit + (noise1 + noise2));
    lemma_decode_rounds(m1 + m2, noise1 + noise2);
}

/// Subtractive homomorphism: as for sums, with the difference of the two
/// ciphertexts and the difference of the messages modulo 16, exactly when
/// the difference of the two noises is within the margin.
pub proof fn lemma_sub_homomorphic(
    m1: u8,
    m2: u8,
    sk: Seq<u64>,
    mask1: Seq<u64>,
    mask2: Seq<u64>,
    noise1: i64,
    noise2: i64,
)
    requires
        m1 < 16,
        m2 < 16,
        mask1.len() == mask2.len(),
    ensures
        spec_decode(
            spec_decrypt(
                spec_sub(
                    spec_encrypt(spec_encode(m1), sk, mask1, noise1),
                    spec_encrypt(spec_encode(m2), sk, mask2, noise2),
                ),
                sk,
            ),
        ) == (m1 - m2) % 16 <==> within_margin(noise1 - noise2),
{
    let c1 = spec_encrypt(spec_encode(m1), sk, mask1, noise1);
    let c2 = spec_encrypt(spec_encode(m2), sk, mask2, noise2);
    let unit: int = 0x1000_0000_0000_0000;
    lemma_encode_units(m1);
    lemma_encode_units(m2);
    lemma_decrypt_encrypt(spec_encode(m1), sk, mask1, noise1);
    lemma_decrypt_encrypt(spec_encode(m2), sk, mask2, noise2);
    lemma_decrypt_sub(c1, c2, sk);
    lemma_reduce_sub(m1 * unit + noise1, m2 * unit + noise2);
    assert((m1 * unit + noise1) - (m2 * unit + noise2) == (m1 - m2) * unit + (noise1 - noise2));
    lemma_decode_rounds(m1 - m2, noise1 - noise2);
}

/// What the first `n` mask coordinates take from coordinate `j` of the
/// running mask in a key switch: for each, the two entries' words at `j`,
/// each times its digit, as an integer.
pub open spec fn keyswitch_mask_sum(mask: Seq<u64>, ksk: Seq<LweCiphertext>, j: int, n: nat) -> int
    decreases n,
{
    if n == 0 {
        0
    } else {
        let i = n - 1;
        let digits = spec_decomposition(mask[i]);
        keyswitch_mask_sum(mask, ksk, j, (n - 1) as nat) + ksk[ELL * i].mask[j] * digits.0 + ksk[ELL
            * i + 1].mask[j] * digits.1
    }
}

/// What the first `n` mask coordinates take from the running body in a key
/// switch: for each, the two entries' bodies, each times its digit, as an
/// integer.
pub open spec fn keyswitch_body_sum(mask: Seq<u64>, ksk: Seq<LweCiphertext>, n: nat) -> int
    decreases n,
{
    if n == 0 {
        0
    } else {
        let i = n - 1;
        let digits = spec_decomposition(mask[i]);
        keyswitch_body_sum(mask, ksk, (n - 1) as nat) + ksk[ELL * i].body * digits.0 + ksk[ELL * i
            + 1].body * digits.1
    }
}

/// A key switch in closed form: after the first `n` coordinates, each word
/// of the running mask is minus the sum of the digit-scaled words of the
/// entries, and the running body is the body less the sum of their
/// digit-scaled bodies, modulo 2^64.
pub proof fn lemma_keyswitch_closed_form(ct: LweView, ksk: Seq<LweCiphertext>, n: nat)
    requires
        ct.mask.len() == LWE_DIM,
        n <= LWE_DIM,
    ensures
        spec_keyswitch_prefix(ct, ksk, n).mask.len() == LWE_DIM,
        forall|j: int|
            0 <= j < LWE_DIM ==> #[trigger] spec_keyswitch_prefix(ct, ksk, n).mask[j] == reduce(
                -keyswitch_mask_sum(ct.mask, ksk, j, n),
            ),
        spec_keyswitch_prefix(ct, ksk, n).body == reduce(
            ct.body - keyswitch_body_sum(ct.mask, ksk, n),
        ),
    decreases n,
{
    let cur = spec_keyswitch_prefix(ct, ksk, n);
    if n == 0 {
        lemma_reduce_word(0);
        lemma_reduce_word(ct.body);
    } else {
        let i = n - 1;
        lemma_keyswitch_closed_form(ct, ksk, i as nat);
        let prev = spec_keyswitch_prefix(ct, ksk, i as nat);
        let digits = spec_decomposition(ct.mask[i]);
        let low = spec_scale(ksk[ELL * i]@, digits.0 as u64);
        let high = spec_scale(ksk[ELL * i + 1]@, digits.1 as u64);
        let mid = spec_sub(prev, low);
        assert(cur == spec_sub(mid, high));
        assert forall|j: int| 0 <= j < LWE_DIM implies #[trigger] cur.mask[j] == reduce(
            -keyswitch_mask_sum(ct.mask, ksk, j, n),
        ) by {
            let before = -keyswitch_mask_sum(ct.mask, ksk, j, i as nat);
            let x0 = ksk[ELL * i].mask[j] * digits.0;
            let x1 = ksk[ELL * i + 1].mask[j] * digits.1;
            assert(prev.mask[j] == reduce(before));
            assert(low.mask[j] == reduce(x0));
            assert(high.mask[j] == reduce(x1));
            assert(mid.mask[j] == reduce(prev.mask[j] - low.mask[j]));
            assert(cur.mask[j] == reduce(mid.mask[j] - high.mask[j]));
            lemma_reduce_sub(before, x0);
            lemma_reduce_sub(before - x0, x1);
        }
        let before = ct.body - keyswitch_body_sum(ct.mask, ksk, i as nat);
        let x0 = ksk[ELL * i].body * digits.0;
        let x1 = ksk[ELL * i + 1].body * digits.1;
        lemma_reduce_sub(before, x0);
        lemma_reduce_sub(before - x0, x1);
    }
}

/// The error that the first `n` mask coordinates add in a key switch: for
/// each, the low bits that the digits leave out, where the source key's bit
/// is set, less each digit times the noise of the entry it scales.
pub open spec fn keyswitch_drift(mask: Seq<u64>, sk1: Seq<u64>, noise: Seq<i64>, n: nat) -> int
    decreases n,
{
    if n == 0 {
        0
    } else {
        let i = n - 1;
        let digits = spec_decomposition(mask[i]);
        keyswitch_drift(mask, sk1, noise, (n - 1) as nat) + sk1[i] * decomposition_remainder(
            mask[i],
        ) - digits.0 * noise[ELL * i] - digits.1 * noise[ELL * i + 1]
    }
}

/// A key-switching entry that decrypts to `s * w + e`, scaled by a digit
/// `d`, decrypts to `(s * w + e) * d`, modulo 2^64.
proof fn lemma_scaled_entry(entry: LweView, sk2: Seq<u64>, s: int, w: int, e: int, d: u8)
    requires
        spec_decrypt(entry, sk2) == reduce(reduce(s * w) + e),
    ensures
        congruent(spec_decrypt(spec_scale(entry, d as u64), sk2) as int, (s * w + e) * d),
{
    let plain = spec_decrypt(entry, sk2) as int;
    lemma_decrypt_scale(entry, d as u64, sk2);
    lemma_congruent_reduce(plain * d);
    lemma_reduce_add(s * w, e);
    lemma_congruent_reduce(s * w + e);
    lemma_congruent_mul(plain, s * w + e, d as int);
    lemma_congruent_transitive(
        spec_decrypt(spec_scale(entry, d as u64), sk2) as int,
        plain * d,
        (s * w + e) * d,
    );
}

/// Two subtractions in a row, up to congruence.
proof fn lemma_two_subtractions(
    p: int,
    target: int,
    x0: int,
    y0: int,
    x1: int,
    y1: int,
    mid: u64,
    last: u64,
)
    requires
        congruent(p, target),
        congruent(x0, y0),
        congruent(x1, y1),
        mid == reduce(p - x0),
        last == reduce(mid - x1),
    ensures
        congruent(last as int, target - y0 - y1),
{
    let qp = lemma_congruent_witness(p, target);
    let q0 = lemma_congruent_witness(x0, y0);
    let q1 = lemma_congruent_witness(x1, y1);
    let qm = lemma_reduce_witness(p - x0);
    let ql = lemma_reduce_witness(mid - x1);
    lemma_congruent_intro(last as int, target - y0 - y1, qp - q0 - q1 - qm - ql);
}

/// The two digits of `a`, each times a noisy multiple `s * w + e` of its
/// weight, add up to `a * s` less `s` times what the digits leave out, plus
/// the digits times the noises.
proof fn lemma_digit_identity(a: u64, s: int, e0: int, e1: int)
    ensures
        (s * gadget_weight(0) + e0) * spec_decomposition(a).0 + (s * gadget_weight(1) + e1)
            * spec_decomposition(a).1 == a * s - s * decomposition_remainder(a)
            + spec_decomposition(a).0 * e0 + spec_decomposition(a).1 * e1,
{
    let d0 = spec_decomposition(a).0 as int;
    let d1 = spec_decomposition(a).1 as int;
    let w0 = gadget_weight(0);
    let w1 = gadget_weight(1);
    let r = decomposition_remainder(a);
    let a_int = a as int;
    lemma_decomposition_recomposes(a);
    let g = d0 * w0 + d1 * w1;
    assert(g == a_int - r);
    let y0 = (s * w0 + e0) * d0;
    let y1 = (s * w1 + e1) * d1;
    assert(y0 == s * (d0 * w0) + d0 * e0) by (nonlinear_arith)
        requires
            y0 == (s * w0 + e0) * d0,
    ;
    assert(y1 == s * (d1 * w1) + d1 * e1) by (nonlinear_arith)
        requires
            y1 == (s * w1 + e1) * d1,
    ;
    assert(s * (d0 * w0) + s * (d1 * w1) == s * g) by (nonlinear_arith)
        requires
            g == d0 * w0 + d1 * w1,
    ;
    assert(s * g == a_int * s - s * r) by (nonlinear_arith)
        requires
            g == a_int - r,
    ;
}

/// One step of a key switch: subtracting the two scaled entries for a mask
/// word `a` and a source key word `s` moves what the running ciphertext
/// decrypts to by `-a * s`, up to that step's share of the drift.
proof fn lemma_keyswitch_step(
    prev: LweView,
    low: LweView,
    high: LweView,
    a: u64,
    s: u64,
    e_low: i64,
    e_high: i64,
    sk2: Seq<u64>,
    target: int,
)
    requires
        prev.mask.len() == low.mask.len(),
        prev.mask.len() == high.mask.len(),
        congruent(spec_decrypt(prev, sk2) as int, target),
        spec_decrypt(low, sk2) == reduce(reduce(s * gadget_weight(0)) + e_low),
        spec_decrypt(high, sk2) == reduce(reduce(s * gadget_weight(1)) + e_high),
    ensures
        congruent(
            spec_decrypt(
                spec_sub(
                    spec_sub(prev, spec_scale(low, spec_decomposition(a).0 as u64)),
                    spec_scale(high, spec_decomposition(a).1 as u64),
                ),
                sk2,
            ) as int,
            target - a * s + s * decomposition_remainder(a) - spec_decomposition(a).0 * e_low
                - spec_decomposition(a).1 * e_high,
        ),
{
    let digits = spec_decomposition(a);
    let scaled_low = spec_scale(low, digits.0 as u64);
    let scaled_high = spec_scale(high, digits.1 as u64);
    let mid = spec_sub(prev, scaled_low);
    let y0 = (s * gadget_weight(0) + e_low) * digits.0;
    let y1 = (s * gadget_weight(1) + e_high) * digits.1;
    lemma_scaled_entry(low, sk2, s as int, gadget_weight(0), e_low as int, digits.0);
    lemma_scaled_entry(high, sk2, s as int, gadget_weight(1), e_high as int, digits.1);
    lemma_decrypt_sub(prev, scaled_low, sk2);
    lemma_decrypt_sub(mid, scaled_high, sk2);
    lemma_two_subtractions(
        spec_decrypt(prev, sk2) as int,
        target,
        spec_decrypt(scaled_low, sk2) as int,
        y0,
        spec_decrypt(scaled_high, sk2) as int,
        y1,
        spec_decrypt(mid, sk2),
        spec_decrypt(spec_sub(mid, scaled_high), sk2),
    );
    lemma_digit_identity(a, s as int, e_low as int, e_high as int);
}

/// The inner product of a zero mask with any key is zero.
pub proof fn lemma_dot_prefix_zero(a: Seq<u64>, s: Seq<u64>, n: nat)
    requires
        forall|i: int| 0 <= i < n ==> a[i] == 0,
    ensures
        dot_prefix(a, s, n) == 0,
    decreases n,
{
    if n > 0 {
        lemma_dot_prefix_zero(a, s, (n - 1) as nat);
        assert(a[n - 1] * s[n - 1] == 0) by (nonlinear_arith)
            requires
                a[n - 1] == 0,
        ;
    }
}

/// After the first `n` coordinates, the running ciphertext of a key switch
/// decrypts under the destination key to the body less the inner product of
/// those coordinates with the source key, plus the drift.
pub proof fn lemma_keyswitch_prefix(
    ct: LweView,
    ksk: Seq<LweCiphertext>,
    sk1: Seq<u64>,
    sk2: Seq<u64>,
    noise: Seq<i64>,
    n: nat,
)
    requires
        ct.mask.len() == LWE_DIM,
        n <= LWE_DIM,
        is_key_switching_key(ksk, sk1, sk2, noise),
    ensures
        spec_keyswitch_prefix(ct, ksk, n).mask.len() == LWE_DIM,
        congruent(
            spec_decrypt(spec_keyswitch_prefix(ct, ksk, n), sk2) as int,
            ct.body - dot_prefix(ct.mask, sk1, n) + keyswitch_drift(ct.mask, sk1, noise, n),
        ),
    decreases n,
{
    if n == 0 {
        let zero = spec_keyswitch_prefix(ct, ksk, 0);
        lemma_dot_prefix_zero(zero.mask, sk2, zero.mask.len());
        lemma_congruent_reduce(ct.body as int);
    } else {
        let i = n - 1;
        lemma_keyswitch_prefix(ct, ksk, sk1, sk2, noise, i as nat);
        let prev = spec_keyswitch_prefix(ct, ksk, i as nat);
        let low = ksk[ELL * i];
        let high = ksk[ELL * i + 1];
        let target = ct.body - dot_prefix(ct.mask, sk1, i as nat) + keyswitch_drift(
            ct.mask,
            sk1,
            noise,
            i as nat,
        );
        assert(spec_decrypt(low@, sk2) == reduce(
            reduce(sk1[i] * gadget_weight(0)) + noise[ELL * i],
        )) by {
            assert(spec_ksk_message(sk1, ELL * i) == reduce(sk1[i] * gadget_weight(0)));
            lemma_decrypt_encrypt(spec_ksk_message(sk1, ELL * i), sk2, low@.mask, noise[ELL * i]);
        }
        assert(spec_decrypt(high@, sk2) == reduce(
            reduce(sk1[i] * gadget_weight(1)) + noise[ELL * i + 1],
        )) by {
            assert(spec_ksk_message(sk1, ELL * i + 1) == reduce(sk1[i] * gadget_weight(1)));
            lemma_decrypt_encrypt(
                spec_ksk_message(sk1, ELL * i + 1),
                sk2,
                high@.mask,
                noise[ELL * i + 1],
            );
        }
        lemma_keyswitch_step(
            prev,
            low@,
            high@,
            ct.mask[i],
            sk1[i],
            noise[ELL * i],
            noise[ELL * i + 1],
            sk2,
            target,
        );
    }
}

/// A key switch keeps what the ciphertext decrypts to, up to the drift:
/// under the destination key the result decrypts to what the input decrypts
/// to under the source key, plus the drift, modulo 2^64.
pub proof fn lemma_decrypt_keyswitch(
    ct: LweView,
    ksk: Seq<LweCiphertext>,
    sk1: Seq<u64>,
    sk2: Seq<u64>,
    noise: Seq<i64>,
)
    requires
        ct.mask.len() == LWE_DIM,
        is_key_switching_key(ksk, sk1, sk2, noise),
    ensures
        spec_decrypt(spec_keyswitch(ct, ksk), sk2) == reduce(
            spec_decrypt(ct, sk1) + keyswitch_drift(ct.mask, sk1, noise, LWE_DIM as nat),
        ),
{
    lemma_keyswitch_prefix(ct, ksk, sk1, sk2, noise, LWE_DIM as nat);
    let switched = spec_decrypt(spec_keyswitch(ct, ksk), sk2);
    let plain = ct.body - inner_product(ct.mask, sk1);
    let drift = keyswitch_drift(ct.mask, sk1, noise, LWE_DIM as nat);
    lemma_congruent_same_reduce(switched as int, plain + drift);
    lemma_reduce_word(switched);
    lemma_reduce_add(plain, drift);
}

/// Key-switch round trip: a message below 16, encoded and encrypted under
/// `sk1`, switched with a key-switching key from `sk1` to `sk2`, decrypted
/// under `sk2` and decoded, comes back unchanged exactly when the noise of
/// the encryption plus the drift of the switch is within the margin.
pub proof fn lemma_keyswitch_round_trip(
    m: u8,
    sk1: Seq<u64>,
    sk2: Seq<u64>,
    mask: Seq<u64>,
    noise: i64,
    ksk: Seq<LweCiphertext>,
    ksk_noise: Seq<i64>,
)
    requires
        m < 16,
        mask.len() == LWE_DIM,
        is_key_switching_key(ksk, sk1, sk2, ksk_noise),
    ensures
        spec_decode(
            spec_decrypt(
                spec_keyswitch(spec_encrypt(spec_encode(m), sk1, mask, noise), ksk),
                sk2,
            ),
        ) == m <==> within_margin(
            noise + keyswitch_drift(mask, sk1, ksk_noise, LWE_DIM as nat),
        ),
{
    let ct = spec_encrypt(spec_encode(m), sk1, mask, noise);
    let drift = keyswitch_drift(mask, sk1, ksk_noise, LWE_DIM as nat);
    let unit: int = 0x1000_0000_0000_0000;
    lemma_encode_units(m);
    lemma_decrypt_encrypt(spec_encode(m), sk1, mask, noise);
    lemma_decrypt_keyswitch(ct, ksk, sk1, sk2, ksk_noise);
    lemma_reduce_add(m * unit + noise, drift);
    assert((m * unit + noise) + drift == m * unit + (noise + drift));
    lemma_decode_rounds(m as int, noise + drift);
}

/// The largest noise, in absolute value, for which a key switch is proved
/// correct whatever the masks: 2^36, which is 128 standard deviations.
pub open spec fn noise_ceiling() -> int {
    0x10_0000_0000
}

/// With a binary source key and every noise of the key-switching key at
/// most `noise_ceiling()` in absolute value, the drift of the first `n`
/// coordinates is at least `-n * 510 * 2^36` and at most
/// `n * (2^48 + 510 * 2^36)`.
pub proof fn lemma_keyswitch_drift_bounded(
    mask: Seq<u64>,
    sk1: Seq<u64>,
    noise: Seq<i64>,
    n: nat,
)
    requires
        is_binary(sk1),
        n <= sk1.len(),
        ELL * n <= noise.len(),
        forall|idx: int|
            0 <= idx < ELL * n ==> -noise_ceiling() <= #[trigger] noise[idx] <= noise_ceiling(),
    ensures
        -n * 0x1fe0_0000_0000 <= keyswitch_drift(mask, sk1, noise, n),
        keyswitch_drift(mask, sk1, noise, n) <= n * 0x1_1fe0_0000_0000,
    decreases n,
{
    if n > 0 {
        let i = n - 1;
        lemma_keyswitch_drift_bounded(mask, sk1, noise, i as nat);
        let digits = spec_decomposition(mask[i]);
        let d0 = digits.0 as int;
        let d1 = digits.1 as int;
        let e0 = noise[ELL * i] as int;
        let e1 = noise[ELL * i + 1] as int;
        let r = decomposition_remainder(mask[i]);
        let s = sk1[i] as int;
        let c = noise_ceiling();
        lemma_decomposition_recomposes(mask[i]);
        assert(0 <= s * r <= r) by (nonlinear_arith)
            requires
                0 <= s <= 1,
                0 <= r,
        ;
        assert(-255 * c <= d0 * e0 <= 255 * c) by (nonlinear_arith)
            requires
                0 <= d0 <= 255,
                -c <= e0 <= c,
        ;
        assert(-255 * c <= d1 * e1 <= 255 * c) by (nonlinear_arith)
            requires
                0 <= d1 <= 255,
                -c <= e1 <= c,
        ;
    }
}

/// Key-switch correctness: a message below 16, encoded and encrypted under a
/// binary key `sk1`, switched with a key-switching key from `sk1` to `sk2`,
/// decrypted under `sk2` and decoded, comes back unchanged, whatever the
/// masks, where every noise is at most `noise_ceiling()` in absolute value.
pub proof fn lemma_keyswitch_correct(
    m: u8,
    sk1: Seq<u64>,
    sk2: Seq<u64>,
    mask: Seq<u64>,
    noise: i64,
    ksk: Seq<LweCiphertext>,
    ksk_noise: Seq<i64>,
)
    requires
        m < 16,
        sk1.len() == LWE_DIM,
        mask.len() == LWE_DIM,
        is_binary(sk1),
        is_key_switching_key(ksk, sk1, sk2, ksk_noise),
        -noise_ceiling() <= noise <= noise_ceiling(),
        ksk_noise.len() == ELL * LWE_DIM,
        forall|idx: int|
            0 <= idx < ksk_noise.len() ==> -noise_ceiling() <= #[trigger] ksk_noise[idx]
                <= noise_ceiling(),
    ensures
        spec_decode(
            spec_decrypt(
                spec_keyswitch(spec_encrypt(spec_encode(m), sk1, mask, noise), ksk),
                sk2,
            ),
        ) == m,
{
    let drift = keyswitch_drift(mask, sk1, ksk_noise, LWE_DIM as nat);
    lemma_keyswitch_drift_bounded(mask, sk1, ksk_noise, LWE_DIM as nat);
    lemma_margin_interval(noise + drift);
    lemma_keyswitch_round_trip(m, sk1, sk2, mask, noise, ksk, ksk_noise);
}

/// What rescaling adds to a word, at the scale of modulus 2^64: the rescaled
/// word times 2^53, less the word.
pub open spec fn switch_error(v: u64) -> int {
    switch_word(v) * 0x20_0000_0000_0000 - v
}

/// Rescaling rounds to the nearest: its error is more than -2^52 and at most
/// 2^52, and a rescaled word is at most `SWITCHED_MODULUS`, which is twice
/// the dimension and, times 2^53, is 2^64.
pub proof fn lemma_switch_error_bounded(v: u64)
    ensures
        -0x10_0000_0000_0000 < switch_error(v) <= 0x10_0000_0000_0000,
        switch_word(v) <= SWITCHED_MODULUS,
        SWITCHED_MODULUS == 2 * LWE_DIM,
        SWITCHED_MODULUS * 0x20_0000_0000_0000 == modulus(),
{
    let scale: int = 0x20_0000_0000_0000;
    let x = v + 0x10_0000_0000_0000;
    vstd::arithmetic::div_mod::lemma_fundamental_div_mod(x, scale);
    vstd::arithmetic::div_mod::lemma_mod_bound(x, scale);
}

/// The sum of the rescaling errors of the mask words that the key selects
/// among the first `n`.
pub open spec fn switch_error_prefix(mask: Seq<u64>, sk: Seq<u64>, n: nat) -> int
    decreases n,
{
    if n == 0 {
        0
    } else {
        switch_error_prefix(mask, sk, (n - 1) as nat) + if sk[n - 1] == 1 {
            switch_error(mask[n - 1])
        } else {
            0
        }
    }
}

/// The error that a modulus switch adds to what a ciphertext decrypts to:
/// the rescaling error of the body less those of the selected mask words.
pub open spec fn modswitch_drift(ct: LweView, sk: Seq<u64>) -> int {
    switch_error(ct.body) - switch_error_prefix(ct.mask, sk, ct.mask.len())
}

/// Under a binary key the selected sum is the inner product.
pub proof fn lemma_selected_is_dot(a: Seq<u64>, sk: Seq<u64>, n: nat)
    requires
        is_binary(sk),
        n <= sk.len(),
    ensures
        selected_prefix(a, sk, n) == dot_prefix(a, sk, n),
    decreases n,
{
    if n > 0 {
        lemma_selected_is_dot(a, sk, (n - 1) as nat);
        let x = a[n - 1] as int;
        let s = sk[n - 1] as int;
        assert(x * s == if s == 1 {
            x
        } else {
            0
        }) by (nonlinear_arith)
            requires
                0 <= s <= 1,
        ;
    }
}

/// The selected sum of the rescaled mask, times 2^53, is the selected sum of
/// the mask plus the selected rescaling errors.
pub proof fn lemma_selected_modswitch(ct: LweView, sk: Seq<u64>, n: nat)
    requires
        n <= ct.mask.len(),
    ensures
        selected_prefix(spec_modswitch(ct).mask, sk, n) * 0x20_0000_0000_0000 == selected_prefix(
            ct.mask,
            sk,
            n,
        ) + switch_error_prefix(ct.mask, sk, n),
    decreases n,
{
    if n > 0 {
        lemma_selected_modswitch(ct, sk, (n - 1) as nat);
    }
}

/// Decryption at the reduced modulus after a modulus switch: under a binary
/// key, the result times 2^53 is what the ciphertext decrypts to at modulus
/// 2^64 plus the drift, modulo 2^64.
pub proof fn lemma_decrypt_modswitch(ct: LweView, sk: Seq<u64>)
    requires
        is_binary(sk),
        ct.mask.len() <= sk.len(),
    ensures
        spec_decrypt_modswitched(spec_modswitch(ct), sk) < 2048,
        congruent(
            spec_decrypt_modswitched(spec_modswitch(ct), sk) * 0x20_0000_0000_0000,
            spec_decrypt(ct, sk) + modswitch_drift(ct, sk),
        ),
{
    let n = ct.mask.len();
    let scale: int = 0x20_0000_0000_0000;
    let switched = spec_modswitch(ct);
    lemma_selected_modswitch(ct, sk, n);
    lemma_selected_is_dot(ct.mask, sk, n);
    let y = switched.body - selected_prefix(switched.mask, sk, n);
    let x = spec_decrypt_modswitched(switched, sk) as int;
    vstd::arithmetic::div_mod::lemma_fundamental_div_mod(y, 2048);
    vstd::arithmetic::div_mod::lemma_mod_bound(y, 2048);
    let t = y / 2048;
    assert(y == 2048 * t + x);
    let plain = ct.body - inner_product(ct.mask, sk);
    assert(y * scale == plain + modswitch_drift(ct, sk));
    let q = lemma_reduce_witness(plain);
    lemma_congruent_intro(x * scale, spec_decrypt(ct, sk) + modswitch_drift(ct, sk), q - t);
}

/// Decoding at the reduced modulus rounds away an error exactly when it is
/// within the margin: a word below 2048 that, times 2^53, is congruent to
/// `k * 2^60 + e` decodes to `k` modulo 16 if and only if `e` is within the
/// margin.
pub proof fn lemma_decode_modswitched_rounds(x: u64, k: int, e: int)
    requires
        x < 2048,
        congruent(x * 0x20_0000_0000_0000, k * 0x1000_0000_0000_0000 + e),
    ensures
        spec_decode_modswitched(x) == k % 16 <==> within_margin(e),
{
    let scale: int = 0x20_0000_0000_0000;
    let unit: int = 0x1000_0000_0000_0000;
    let half: int = 0x0800_0000_0000_0000;
    let t = lemma_congruent_witness(x * scale, k * unit + e);
    // the error, moved up by half a unit, as a word: a multiple of 2^53
    let w = reduce(e + half) as int;
    let q = lemma_reduce_witness(e + half);
    let fine = x + 64 - 128 * k - 2048 * (t + q);
    assert(w == fine * scale);
    assert(0 <= fine < 2048);
    let h = fine / 128;
    let rest = fine % 128;
    lemma_fundamental_div_mod(fine, 128);
    lemma_mod_bound(fine, 128);
    assert(x + 64 == (k + 16 * (t + q) + h) * 128 + rest);
    lemma_fundamental_div_mod_converse(x + 64, 128, k + 16 * (t + q) + h, rest);
    lemma_units_modulo_16(k, t + q, h);
    assert(h == 0 <==> w < unit);
}

/// Modulus-switch correctness: a message below 16, encoded and encrypted
/// under a binary key, rescaled, decrypted at the reduced modulus and decoded
/// there, comes back unchanged exactly when the noise of the encryption plus
/// the drift of the switch is within the margin.
pub proof fn lemma_modswitch_correct(m: u8, sk: Seq<u64>, mask: Seq<u64>, noise: i64)
    requires
        m < 16,
        is_binary(sk),
        mask.len() <= sk.len(),
    ensures
        spec_decode_modswitched(
            spec_decrypt_modswitched(
                spec_modswitch(spec_encrypt(spec_encode(m), sk, mask, noise)),
                sk,
            ),
        ) == m <==> within_margin(
            noise + modswitch_drift(spec_encrypt(spec_encode(m), sk, mask, noise), sk),
        ),
{
    let ct = spec_encrypt(spec_encode(m), sk, mask, noise);
    let drift = modswitch_drift(ct, sk);
    let unit: int = 0x1000_0000_0000_0000;
    let scale: int = 0x20_0000_0000_0000;
    let d = spec_decrypt(ct, sk);
    let x = spec_decrypt_modswitched(spec_modswitch(ct), sk);
    lemma_encode_units(m);
    lemma_decrypt_encrypt(spec_encode(m), sk, mask, noise);
    lemma_decrypt_modswitch(ct, sk);
    let q = lemma_congruent_witness(x * scale, d + drift);
    let qd = lemma_reduce_witness(m * unit + noise);
    lemma_congruent_intro(x * scale, m * unit + (noise + drift), q - qd);
    lemma_decode_modswitched_rounds(x, m as int, noise + drift);
}

} // verus!
