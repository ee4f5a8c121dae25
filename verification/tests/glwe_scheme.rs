use lattice_he::glwe::{decode, encode, keygen, GlweCiphertext, SecretKey, NOISE_LOG2_STD_DEV};
use lattice_he::poly::ResiduePoly;
use lattice_he::N;
use rand::{thread_rng, Rng};
use rand_distr::{Distribution, Normal};

fn noise() -> i64 {
    let sigma = f64::powf(2.0, NOISE_LOG2_STD_DEV as f64);
    let normal = Normal::new(0.0, sigma).unwrap();
    normal.sample(&mut rand::thread_rng()).round() as i64
}

fn random_poly() -> ResiduePoly {
    let mut p = ResiduePoly::default();
    for c in p.coefs.iter_mut() {
        *c = rand::random::<u64>();
    }
    p
}

#[test]
fn glwe_test_keygen_enc_dec() {
    let sk = keygen();
    for _ in 0..100 {
        let msg = thread_rng().gen_range(0..16);
        let ct = GlweCiphertext::encrypt(encode(msg), sk, noise());
        let pt = decode(ct.decrypt(sk));
        assert!(pt == msg);
    }
}

#[test]
fn glwe_test_add() {
    let sk = keygen();
    for _ in 0..100 {
        let msg1 = thread_rng().gen_range(0..16);
        let msg2 = thread_rng().gen_range(0..16);
        let ct1 = GlweCiphertext::encrypt(encode(msg1), sk, noise());
        let ct2 = GlweCiphertext::encrypt(encode(msg2), sk, noise());
        let res = ct1.add(ct2);
        let pt = decode(res.decrypt(sk));
        assert!(pt == (msg1 + msg2) % 16);
    }
}

#[test]
fn glwe_keygen_gives_bits() {
    let sk = keygen();
    assert_eq!(sk.polys.len(), 1);
    assert_eq!(sk.polys[0].coefs.len(), N);
    assert!(sk.polys[0].coefs.iter().all(|&c| c <= 1));
    assert!(sk.polys[0].coefs.iter().any(|&c| c == 1));
    assert!(sk.polys[0].coefs.iter().any(|&c| c == 0));
}

#[test]
fn glwe_code_words() {
    assert_eq!(encode(5), 0x5000_0000_0000_0000);
    assert_eq!(encode(21), 0x5000_0000_0000_0000);
    assert_eq!(decode(0x5000_0000_0000_0000), 5);
    assert_eq!(decode(0x57FF_FFFF_FFFF_FFFF), 5);
    assert_eq!(decode(0x5800_0000_0000_0000), 6);
    assert_eq!(decode(u64::MAX), 0);
}

#[test]
fn glwe_default_is_all_zero() {
    let zero = GlweCiphertext::default();
    assert!(zero.mask[0].coefs.iter().all(|&c| c == 0));
    assert!(zero.body.coefs.iter().all(|&c| c == 0));
}

#[test]
fn glwe_encrypt_with_mask_computes_the_body() {
    let sk = keygen();
    let mask = [random_poly()];
    let mu = encode(12);
    let ct = GlweCiphertext::encrypt_with_mask(mu, sk, mask, -77);
    assert!(ct.mask[0].coefs == mask[0].coefs);
    let mut expected = mask[0].mul(&sk.polys[0]);
    expected.coefs[0] = expected.coefs[0].wrapping_add(mu).wrapping_sub(77);
    assert!(ct.body.coefs == expected.coefs);
    assert_eq!(ct.decrypt(sk), mu.wrapping_sub(77));
}

#[test]
fn glwe_encrypt_on_small_values() {
    // key 1 + X, mask 2 + 3 X^(N-1): the product is 2 + 2X + 3 X^(N-1) + 3 X^N = -1 + 2X + 3 X^(N-1)
    let mut key = ResiduePoly::default();
    key.coefs[0] = 1;
    key.coefs[1] = 1;
    let sk = SecretKey { polys: [key] };
    let mut a = ResiduePoly::default();
    a.coefs[0] = 2;
    a.coefs[N - 1] = 3;
    let ct = GlweCiphertext::encrypt_with_mask(100, sk, [a], 5);
    assert_eq!(ct.body.coefs[0], 104);
    assert_eq!(ct.body.coefs[1], 2);
    assert_eq!(ct.body.coefs[N - 1], 3);
    assert_eq!(ct.decrypt(sk), 105);
}

#[test]
fn glwe_encrypt_draws_a_fresh_mask() {
    let sk = keygen();
    let a = GlweCiphertext::encrypt(encode(1), sk, 3);
    let b = GlweCiphertext::encrypt(encode(1), sk, 3);
    assert!(a.mask[0].coefs != b.mask[0].coefs);
    assert_eq!(a.decrypt(sk), encode(1) + 3);
    assert_eq!(b.decrypt(sk), encode(1) + 3);
}

#[test]
fn glwe_decryption_is_additive() {
    let sk = keygen();
    let a = GlweCiphertext::encrypt(rand::random::<u64>(), sk, noise());
    let b = GlweCiphertext::encrypt(rand::random::<u64>(), sk, noise());
    let sum = a.add(b);
    assert!(sum.mask[0].coefs == a.mask[0].add(b.mask[0]).coefs);
    assert!(sum.body.coefs == a.body.add(b.body).coefs);
    assert_eq!(sum.decrypt(sk), a.decrypt(sk).wrapping_add(b.decrypt(sk)));
}

#[test]
fn glwe_noise_at_the_edges_of_the_margin() {
    let sk = keygen();
    for m in 0u8..16 {
        let below = GlweCiphertext::encrypt(encode(m), sk, (1 << 59) - 1);
        assert_eq!(decode(below.decrypt(sk)), m);
        let lowest = GlweCiphertext::encrypt(encode(m), sk, -(1 << 59));
        assert_eq!(decode(lowest.decrypt(sk)), m);
        let above = GlweCiphertext::encrypt(encode(m), sk, 1 << 59);
        assert_eq!(decode(above.decrypt(sk)), (m + 1) % 16);
    }
}
