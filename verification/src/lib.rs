use vstd::prelude::*;

pub mod entropy;
pub mod ggsw;
pub mod glwe;
pub mod glwe_correctness;
pub mod lwe;
pub mod lwe_correctness;
pub mod modular;
pub mod poly;

verus! {

/// Number of coefficients of a ring element.
pub const N: usize = 512;

/// Number of bytes of a byte key: one bit for each coefficient.
pub const KEY_SIZE: usize = N / 8;

/// Size of the plaintext alphabet.
pub const P: u8 = 16;

/// Modulus of the coarse fixed-point representation.
pub const Q: u8 = 64;

/// Number of digits of a gadget decomposition.
pub const ELL: usize = 2;

/// Number of coordinates of an LWE mask and of an LWE secret key.
pub const LWE_DIM: usize = 1024;

/// Number of ring elements of a GLWE mask and of a GLWE secret key. The
/// GLWE operations multiply one mask element with one key element, which is
/// the whole inner product only at dimension 1.
#[allow(non_upper_case_globals)]
pub const k: usize = 1;

/// Draws a byte key from the thread-local generator.
pub fn keygen() -> (sk: [u8; KEY_SIZE]) {
    let mut sk = [0u8; KEY_SIZE];
    entropy::fill_random(&mut sk);
    sk
}

/// Maps a message of the plaintext alphabet to its coarse code word: the
/// message in units of `Q / P`.
pub fn encode(msg: u8) -> (mu: u8)
    requires
        msg < P,
    ensures
        mu == msg * 4,
        mu < Q,
{
    msg * (Q / P)
}

/// Maps a coarse code word back to its message: the code word in units of
/// `Q / P`, rounded down.
pub fn decode(mu: u8) -> (msg: u8)
    requires
        mu < Q,
    ensures
        msg == (mu * 16) / 64,
        msg < P,
{
    assert(mu * P == mu * 16) by (nonlinear_arith)
        requires
            P == 16,
    ;
    let scaled: u16 = mu as u16 * P as u16;
    let modulus: u16 = Q as u16;
    assert(scaled / modulus == (mu * 16) / 64) by (nonlinear_arith)
        requires
            scaled == mu * 16,
            modulus == 64,
    ;
    (scaled / modulus) as u8
}

/// The coarse code is exact: decoding the code word of a message gives the
/// message back.
pub proof fn lemma_decode_encode(msg: u8)
    requires
        msg < P,
    ensures
        ((msg * 4) * 16) / 64 == msg,
{
}

} // verus!
