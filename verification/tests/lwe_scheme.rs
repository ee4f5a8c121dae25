use lattice_he::ggsw::{decomposition, digit_shift, BASE, DIGIT_OFFSET, LOG_BASE};
use lattice_he::lwe::{
    compute_ksk, decode, decode_modswitched, encode, lwe_keygen, LweCiphertext, LweSecretKey,
    KSK_LEN, NOISE_LOG2_STD_DEV, SWITCHED_MODULUS,
};
use lattice_he::{ELL, LWE_DIM};
use rand::{thread_rng, Rng};
use rand_distr::{Distribution, Normal};

fn noise() -> i64 {
    let sigma = f64::powf(2.0, NOISE_LOG2_STD_DEV as f64);
    let normal = Normal::new(0.0, sigma).unwrap();
    normal.sample(&mut rand::thread_rng()).round() as i64
}

fn noise_array() -> [i64; KSK_LEN] {
    let mut all = [0i64; KSK_LEN];
    for e in all.iter_mut() {
        *e = noise();
    }
    all
}

fn random_mask() -> [u64; LWE_DIM] {
    let mut mask = [0u64; LWE_DIM];
    for a in mask.iter_mut() {
        *a = rand::random::<u64>();
    }
    mask
}

fn alternating_key() -> LweSecretKey {
    let mut sk = [0u64; LWE_DIM];
    for i in 0..LWE_DIM {
        sk[i] = (i % 2) as u64;
    }
    sk
}

fn inner_product_wide(mask: &[u64; LWE_DIM], sk: &LweSecretKey) -> u64 {
    let mut acc: u128 = 0;
    for i in 0..LWE_DIM {
        acc = (acc + (mask[i] as u128) * (sk[i] as u128)) % (1u128 << 64);
    }
    acc as u64
}

#[test]
fn test_keyswitch() {
    let sk1 = lwe_keygen();
    let sk2 = lwe_keygen();
    let ksk = compute_ksk(sk1, sk2, noise_array());

    for _ in 0..100 {
        let msg = thread_rng().gen_range(0..16);

        let ct1 = LweCiphertext::encrypt(encode(msg), sk1, noise());

        let res = ct1.keyswitch(ksk.clone()).decrypt(sk2);

        let pt = decode(res);

        assert_eq!(msg, pt);
    }
}

#[test]
fn lwe_test_keygen_enc_dec() {
    let sk = lwe_keygen();
    for _ in 0..100 {
        let msg = thread_rng().gen_range(0..16);
        let ct = LweCiphertext::encrypt(encode(msg), sk, noise());
        let pt = decode(ct.decrypt(sk));
        assert_eq!(pt, msg);
    }
}

#[test]
fn lwe_test_add() {
    let sk = lwe_keygen();
    for _ in 0..100 {
        let msg1 = thread_rng().gen_range(0..16);
        let msg2 = thread_rng().gen_range(0..16);
        let ct1 = LweCiphertext::encrypt(encode(msg1), sk, noise());
        let ct2 = LweCiphertext::encrypt(encode(msg2), sk, noise());
        let res = ct1.add(ct2);
        let pt = decode(res.decrypt(sk));
        assert_eq!(pt, (msg1 + msg2) % 16);
    }
}

#[test]
fn test_sub() {
    let sk = lwe_keygen();
    for _ in 0..100 {
        let msg1 = thread_rng().gen_range(0..16);
        let msg2 = thread_rng().gen_range(0..16);
        let ct1 = LweCiphertext::encrypt(encode(msg1), sk, noise());
        let ct2 = LweCiphertext::encrypt(encode(msg2), sk, noise());
        let res = ct1.sub(ct2);
        let pt = decode(res.decrypt(sk));
        assert_eq!(pt, (msg1.wrapping_sub(msg2)) % 16);
    }
}

#[test]
fn test_modswitch() {
    for _ in 0..100 {
        let sk = lwe_keygen();
        let msg = thread_rng().gen_range(0..16);
        let ct = LweCiphertext::encrypt(encode(msg), sk, noise());
        let modswitched = ct.modswitch();
        let pt = decode_modswitched(modswitched.decrypt_modswitched(sk));
        assert_eq!(pt, msg);
    }
}

#[test]
fn three_plus_five_and_fifteen_minus_two() {
    let sk = lwe_keygen();
    let c3 = LweCiphertext::encrypt(encode(3), sk, noise());
    let c5 = LweCiphertext::encrypt(encode(5), sk, noise());
    assert_eq!(decode(c3.add(c5).decrypt(sk)), 8);
    let c15 = LweCiphertext::encrypt(encode(15), sk, noise());
    let c2 = LweCiphertext::encrypt(encode(2), sk, noise());
    assert_eq!(decode(c15.sub(c2).decrypt(sk)), 13);
}

#[test]
fn encode_puts_low_four_bits_on_top() {
    assert_eq!(encode(0), 0);
    assert_eq!(encode(1), 0x1000_0000_0000_0000);
    assert_eq!(encode(9), 0x9000_0000_0000_0000);
    assert_eq!(encode(15), 0xF000_0000_0000_0000);
    assert_eq!(encode(16), 0);
    assert_eq!(encode(255), 0xF000_0000_0000_0000);
}

#[test]
fn decode_rounds_to_nearest_code_word() {
    assert_eq!(decode(0), 0);
    assert_eq!(decode((1 << 59) - 1), 0);
    assert_eq!(decode(1 << 59), 1);
    assert_eq!(decode(1 << 60), 1);
    assert_eq!(decode(0x7000_0000_0000_0000 + (1 << 59) - 1), 7);
    assert_eq!(decode(0x7000_0000_0000_0000 + (1 << 59)), 8);
    assert_eq!(decode(0xF7FF_FFFF_FFFF_FFFF), 15);
    assert_eq!(decode(0xF800_0000_0000_0000), 0);
    assert_eq!(decode(u64::MAX), 0);
}

#[test]
fn decode_modswitched_rounds_to_nearest_multiple_of_128() {
    assert_eq!(decode_modswitched(0), 0);
    assert_eq!(decode_modswitched(63), 0);
    assert_eq!(decode_modswitched(64), 1);
    assert_eq!(decode_modswitched(575), 4);
    assert_eq!(decode_modswitched(576), 5);
    assert_eq!(decode_modswitched(640), 5);
    assert_eq!(decode_modswitched(703), 5);
    assert_eq!(decode_modswitched(704), 6);
    assert_eq!(decode_modswitched(1983), 15);
    assert_eq!(decode_modswitched(1984), 0);
    assert_eq!(decode_modswitched(2047), 0);
    assert_eq!(decode_modswitched(2048 + 640), 5);
}

#[test]
fn decode_inverts_encode_on_every_message() {
    for m in 0u8..16 {
        assert_eq!(decode(encode(m)), m);
    }
}

#[test]
fn keygen_gives_bits() {
    let sk = lwe_keygen();
    assert_eq!(sk.len(), LWE_DIM);
    assert!(sk.iter().all(|&s| s <= 1));
    let other = lwe_keygen();
    assert!(sk != other);
}

#[test]
fn encrypt_with_mask_computes_the_body() {
    let sk = alternating_key();
    let mask = random_mask();
    let mu = encode(11);
    let ct = LweCiphertext::encrypt_with_mask(mu, sk, mask, -12345);
    assert!(ct.mask == mask);
    let expected = inner_product_wide(&mask, &sk).wrapping_add(mu).wrapping_sub(12345);
    assert_eq!(ct.body, expected);
}

#[test]
fn encrypt_with_mask_on_small_values() {
    let mut sk = [0u64; LWE_DIM];
    sk[0] = 1;
    sk[2] = 1;
    let mut mask = [0u64; LWE_DIM];
    mask[0] = 10;
    mask[1] = 1000;
    mask[2] = u64::MAX;
    let ct = LweCiphertext::encrypt_with_mask(100, sk, mask, 7);
    assert_eq!(ct.body, 116);
    assert_eq!(ct.decrypt(sk), 107);
}

#[test]
fn encrypt_wraps_with_any_key_words() {
    let mut sk = [0u64; LWE_DIM];
    sk[0] = 3;
    sk[1] = u64::MAX;
    let mut mask = [0u64; LWE_DIM];
    mask[0] = 1 << 63;
    mask[1] = 5;
    let ct = LweCiphertext::encrypt_with_mask(0, sk, mask, 0);
    assert_eq!(ct.body, (1u64 << 63).wrapping_sub(5));
    assert_eq!(ct.decrypt(sk), 0);
}

#[test]
fn encrypt_draws_a_fresh_mask_and_fits_the_body_to_it() {
    let sk = lwe_keygen();
    let mu = encode(6);
    let a = LweCiphertext::encrypt(mu, sk, 99);
    let b = LweCiphertext::encrypt(mu, sk, 99);
    assert!(a.mask != b.mask);
    assert_eq!(a.body, inner_product_wide(&a.mask, &sk).wrapping_add(mu).wrapping_add(99));
    assert_eq!(a.decrypt(sk), mu.wrapping_add(99));
    assert_eq!(b.decrypt(sk), mu.wrapping_add(99));
}

#[test]
fn decrypt_returns_message_plus_noise() {
    let sk = lwe_keygen();
    for e in [0i64, 1, -1, 1 << 40, -(1 << 40), i64::MAX, i64::MIN] {
        let mu = encode(13);
        let ct = LweCiphertext::encrypt(mu, sk, e);
        assert_eq!(ct.decrypt(sk), mu.wrapping_add_signed(e));
    }
}

#[test]
fn noise_at_the_edges_of_the_margin() {
    let sk = lwe_keygen();
    for m in 0u8..16 {
        let below = LweCiphertext::encrypt(encode(m), sk, (1 << 59) - 1);
        assert_eq!(decode(below.decrypt(sk)), m);
        let lowest = LweCiphertext::encrypt(encode(m), sk, -(1 << 59));
        assert_eq!(decode(lowest.decrypt(sk)), m);
        let above = LweCiphertext::encrypt(encode(m), sk, 1 << 59);
        assert_eq!(decode(above.decrypt(sk)), (m + 1) % 16);
        let under = LweCiphertext::encrypt(encode(m), sk, -(1 << 59) - 1);
        assert_eq!(decode(under.decrypt(sk)), (m + 15) % 16);
    }
}

#[test]
fn add_and_sub_wrap_in_every_coordinate() {
    let mut a = LweCiphertext::default();
    let mut b = LweCiphertext::default();
    a.mask[0] = u64::MAX;
    b.mask[0] = 2;
    a.mask[LWE_DIM - 1] = 5;
    b.mask[LWE_DIM - 1] = 7;
    a.body = 1 << 63;
    b.body = 1 << 63;
    let sum = a.add(b);
    assert_eq!(sum.mask[0], 1);
    assert_eq!(sum.mask[1], 0);
    assert_eq!(sum.mask[LWE_DIM - 1], 12);
    assert_eq!(sum.body, 0);
    let diff = a.sub(b);
    assert_eq!(diff.mask[0], u64::MAX - 2);
    assert_eq!(diff.mask[LWE_DIM - 1], u64::MAX - 1);
    assert_eq!(diff.body, 0);
    let back = b.sub(a);
    assert_eq!(back.mask[0], 3);
    assert_eq!(back.mask[LWE_DIM - 1], 2);
}

#[test]
fn default_is_all_zero() {
    let zero = LweCiphertext::default();
    assert!(zero.mask.iter().all(|&a| a == 0));
    assert_eq!(zero.body, 0);
}

#[test]
fn multiply_constant_assign_scales_in_place() {
    let mut ct = LweCiphertext::default();
    ct.mask[0] = 3;
    ct.mask[7] = 1 << 62;
    ct.body = u64::MAX;
    let copy = ct.multiply_constant_assign(6);
    assert_eq!(ct.mask[0], 18);
    assert_eq!(ct.mask[7], 1 << 63);
    assert_eq!(ct.mask[1], 0);
    assert_eq!(ct.body, u64::MAX - 5);
    assert!(copy.mask == ct.mask);
    assert_eq!(copy.body, ct.body);
}

#[test]
fn decryption_is_linear() {
    let sk = lwe_keygen();
    let a = LweCiphertext::encrypt(rand::random::<u64>(), sk, noise());
    let b = LweCiphertext::encrypt(rand::random::<u64>(), sk, noise());
    assert_eq!(a.add(b).decrypt(sk), a.decrypt(sk).wrapping_add(b.decrypt(sk)));
    assert_eq!(a.sub(b).decrypt(sk), a.decrypt(sk).wrapping_sub(b.decrypt(sk)));
    let mut scaled = a;
    scaled.multiply_constant_assign(201);
    assert_eq!(scaled.decrypt(sk), a.decrypt(sk).wrapping_mul(201));
}

#[test]
fn modswitch_rounds_each_word() {
    let mut ct = LweCiphertext::default();
    ct.mask[0] = (1 << 52) - 1;
    ct.mask[1] = 1 << 52;
    ct.mask[2] = 1 << 53;
    ct.mask[3] = (1 << 53) + (1 << 52);
    ct.mask[4] = u64::MAX;
    ct.mask[5] = 0x9000_0000_0000_0000;
    ct.body = 0x5000_0000_0000_0000 + 12345;
    let switched = ct.modswitch();
    assert_eq!(switched.mask[0], 0);
    assert_eq!(switched.mask[1], 1);
    assert_eq!(switched.mask[2], 1);
    assert_eq!(switched.mask[3], 2);
    assert_eq!(switched.mask[4], 2048);
    assert_eq!(switched.mask[5], 9 * 128);
    assert_eq!(switched.mask[6], 0);
    assert_eq!(switched.body, 5 * 128);
    assert_eq!(ct.mask[4], u64::MAX);
}

#[test]
fn decrypt_modswitched_adds_selected_words_modulo_twice_the_dimension() {
    assert_eq!(SWITCHED_MODULUS, 2 * LWE_DIM as u64);
    let mut ct = LweCiphertext::default();
    let mut sk = [0u64; LWE_DIM];
    ct.mask[0] = 2000;
    ct.mask[1] = 2000;
    ct.mask[2] = 77;
    ct.mask[3] = 2048;
    sk[0] = 1;
    sk[1] = 1;
    sk[3] = 1;
    ct.body = 100;
    // 100 - (2000 + 2000 + 2048) = -5948, which is 196 modulo 2048
    assert_eq!(ct.decrypt_modswitched(sk), 196);
    sk[2] = 1;
    assert_eq!(ct.decrypt_modswitched(sk), 119);
    sk[2] = 2;
    assert_eq!(ct.decrypt_modswitched(sk), 196);
}

#[test]
fn decrypt_modswitched_takes_words_of_any_size() {
    let mut ct = LweCiphertext::default();
    let mut sk = [0u64; LWE_DIM];
    ct.mask[0] = u64::MAX;
    ct.mask[1] = u64::MAX;
    sk[0] = 1;
    sk[1] = 1;
    ct.body = 5;
    // u64::MAX is 2047 modulo 2048: 5 - 2 * 2047 is 7 modulo 2048
    assert_eq!(ct.decrypt_modswitched(sk), 7);
}

#[test]
fn modswitch_keeps_the_message_up_to_its_drift() {
    let sk = lwe_keygen();
    let ct = LweCiphertext::encrypt(encode(9), sk, noise());
    let switched = ct.modswitch();
    let mut drift: i128 = (switched.body as i128) * (1 << 53) - ct.body as i128;
    for i in 0..LWE_DIM {
        if sk[i] == 1 {
            drift -= (switched.mask[i] as i128) * (1 << 53) - ct.mask[i] as i128;
        }
    }
    let lifted = (switched.decrypt_modswitched(sk) as i128) * (1 << 53);
    let expected = (ct.decrypt(sk) as i128 + drift).rem_euclid(1 << 64);
    assert_eq!(lifted, expected);
}

#[test]
fn modswitch_beyond_the_margin_changes_the_message() {
    // every mask word rounds up by 2^52 and every key bit is set: the drift
    // is -2^62 plus the rounding of the body, which is four units down
    let sk = [1u64; LWE_DIM];
    let mask = [1u64 << 52; LWE_DIM];
    let ct = LweCiphertext::encrypt_with_mask(encode(5), sk, mask, 0);
    assert_eq!(decode(ct.decrypt(sk)), 5);
    let switched = ct.modswitch();
    assert_eq!(switched.body, 512 + 5 * 128);
    assert!(switched.mask.iter().all(|&a| a == 1));
    assert_eq!(switched.decrypt_modswitched(sk), 5 * 128 - 512);
    assert_eq!(decode_modswitched(switched.decrypt_modswitched(sk)), 1);
}

#[test]
fn modswitch_of_an_exact_ciphertext() {
    // mask words that are multiples of 2^53 round without error
    let sk = alternating_key();
    let mut mask = [0u64; LWE_DIM];
    for i in 0..LWE_DIM {
        mask[i] = (i as u64) << 53;
    }
    for m in 0u8..16 {
        let ct = LweCiphertext::encrypt_with_mask(encode(m), sk, mask, 0);
        let switched = ct.modswitch();
        assert_eq!(switched.decrypt_modswitched(sk), m as u64 * 128);
        assert_eq!(decode_modswitched(switched.decrypt_modswitched(sk)), m);
    }
}

#[test]
fn digit_windows_fill_the_top_of_a_word() {
    assert_eq!(BASE, 1 << LOG_BASE);
    assert_eq!(DIGIT_OFFSET, 40);
    assert_eq!(digit_shift(0), 48);
    assert_eq!(digit_shift(1), 56);
    assert_eq!(digit_shift(ELL - 1) + LOG_BASE, 64);
}

#[test]
fn decomposition_and_its_remainder_give_the_word_back() {
    for _ in 0..1000 {
        let val = rand::random::<u64>();
        let digits = decomposition(val);
        let rebuilt = ((digits.0 as u64) << digit_shift(0)) + ((digits.1 as u64) << digit_shift(1))
            + val % (1 << 48);
        assert_eq!(rebuilt, val);
    }
}

#[test]
fn decomposition_reads_the_top_two_bytes() {
    assert_eq!(decomposition(0x1234_5678_9ABC_DEF0), (0x34, 0x12));
    assert_eq!(decomposition(u64::MAX), (255, 255));
    assert_eq!(decomposition(0x0000_FFFF_FFFF_FFFF), (0, 0));
    assert_eq!(decomposition(0x0001_0000_0000_0000), (1, 0));
    assert_eq!(decomposition(0x0100_0000_0000_0000), (0, 1));
    assert_eq!(decomposition(0), (0, 0));
}

#[test]
fn key_switching_key_hides_each_bit_at_each_weight() {
    let sk1 = lwe_keygen();
    let sk2 = lwe_keygen();
    let all = noise_array();
    let ksk = compute_ksk(sk1, sk2, all);
    assert_eq!(ksk.len(), LWE_DIM * ELL);
    assert_eq!(ksk.len(), KSK_LEN);
    for idx in 0..KSK_LEN {
        let shift = if idx % 2 == 0 { 48 } else { 56 };
        let hidden = (sk1[idx / 2] << shift).wrapping_add_signed(all[idx]);
        assert_eq!(ksk[idx].decrypt(sk2), hidden);
    }
}

#[test]
fn key_switching_key_of_any_words_shifts_them() {
    let mut sk1 = [0u64; LWE_DIM];
    sk1[0] = 0x0123;
    sk1[1] = u64::MAX;
    let sk2 = lwe_keygen();
    let ksk = compute_ksk(sk1, sk2, [0i64; KSK_LEN]);
    assert_eq!(ksk[0].decrypt(sk2), 0x0123 << 48);
    assert_eq!(ksk[1].decrypt(sk2), 0x23 << 56);
    assert_eq!(ksk[2].decrypt(sk2), 0xFFFF << 48);
    assert_eq!(ksk[3].decrypt(sk2), 0xFF << 56);
    assert_eq!(ksk[4].decrypt(sk2), 0);
}

#[test]
fn keyswitch_moves_the_phase_by_its_drift() {
    let sk1 = lwe_keygen();
    let sk2 = lwe_keygen();
    let all = noise_array();
    let ksk = compute_ksk(sk1, sk2, all);
    let ct = LweCiphertext::encrypt(encode(4), sk1, noise());
    let mut drift: u64 = 0;
    for i in 0..LWE_DIM {
        let digits = decomposition(ct.mask[i]);
        drift = drift.wrapping_add(sk1[i] * (ct.mask[i] % (1 << 48)));
        drift = drift.wrapping_sub((digits.0 as u64).wrapping_mul(all[ELL * i] as u64));
        drift = drift.wrapping_sub((digits.1 as u64).wrapping_mul(all[ELL * i + 1] as u64));
    }
    let switched = ct.keyswitch(ksk);
    assert_eq!(switched.decrypt(sk2), ct.decrypt(sk1).wrapping_add(drift));
}

#[test]
fn keyswitch_with_noise_at_the_ceiling() {
    let sk1 = [1u64; LWE_DIM];
    let sk2 = lwe_keygen();
    let ceiling: i64 = 1 << 36;
    let mut all = [ceiling; KSK_LEN];
    for idx in 0..KSK_LEN {
        if idx % 3 == 0 {
            all[idx] = -ceiling;
        }
    }
    let ksk = compute_ksk(sk1, sk2, all);
    for m in [0u8, 7, 15] {
        let mask = [u64::MAX; LWE_DIM];
        let ct = LweCiphertext::encrypt_with_mask(encode(m), sk1, mask, ceiling);
        assert_eq!(decode(ct.keyswitch(ksk.clone()).decrypt(sk2)), m);
        let ct = LweCiphertext::encrypt_with_mask(encode(m), sk1, [0u64; LWE_DIM], -ceiling);
        assert_eq!(decode(ct.keyswitch(ksk.clone()).decrypt(sk2)), m);
    }
}

#[test]
fn keyswitch_of_a_zero_mask_keeps_the_body() {
    let sk1 = lwe_keygen();
    let sk2 = lwe_keygen();
    let ksk = compute_ksk(sk1, sk2, noise_array());
    let ct = LweCiphertext::encrypt_with_mask(encode(3), sk1, [0u64; LWE_DIM], 17);
    let switched = ct.keyswitch(ksk);
    assert!(switched.mask.iter().all(|&a| a == 0));
    assert_eq!(switched.body, ct.body);
}
