use lattice_he::{decode, encode, keygen, ELL, KEY_SIZE, LWE_DIM, N, P, Q};

#[test]
fn coarse_encode_multiplies_by_four() {
    assert_eq!(encode(0), 0);
    assert_eq!(encode(1), 4);
    assert_eq!(encode(5), 20);
    assert_eq!(encode(15), 60);
}

#[test]
fn coarse_decode_divides_by_four() {
    assert_eq!(decode(0), 0);
    assert_eq!(decode(3), 0);
    assert_eq!(decode(4), 1);
    assert_eq!(decode(20), 5);
    assert_eq!(decode(23), 5);
    assert_eq!(decode(63), 15);
}

#[test]
fn coarse_decode_inverts_encode() {
    for m in 0..P {
        assert!(encode(m) < Q);
        assert_eq!(decode(encode(m)), m);
    }
}

#[test]
fn parameters() {
    assert_eq!(N, 512);
    assert_eq!(KEY_SIZE, 64);
    assert_eq!(P, 16);
    assert_eq!(Q, 64);
    assert_eq!(ELL, 2);
    assert_eq!(LWE_DIM, 1024);
    assert_eq!(lattice_he::k, 1);
}

#[test]
fn byte_keys_differ() {
    let a = keygen();
    let b = keygen();
    assert_eq!(a.len(), KEY_SIZE);
    assert!(a != b);
    assert!(a.iter().any(|&byte| byte != 0));
}
