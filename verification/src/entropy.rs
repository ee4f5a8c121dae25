use vstd::prelude::*;
use crate::KEY_SIZE;

verus! {

/// Draws one word with `rand::random::<u64>()`, that is from the
/// thread-local generator. Every word can come back, so nothing is claimed
/// of the result. The generator panics if the operating system cannot seed
/// it.
#[verifier::external_body]
pub(crate) fn random_u64() -> (r: u64) {
    rand::random::<u64>()
}

/// Draws one bit with `rand::Rng::gen_range` on `rand::thread_rng()`, over
/// the inclusive range from 0 to 1. The claim is that the result lies in that
/// range; the range is not empty, which is all that `gen_range` asks. The
/// generator panics if the operating system cannot seed it.
#[verifier::external_body]
pub(crate) fn random_bit() -> (r: u64)
    ensures
        r <= 1,
{
    rand::Rng::gen_range(&mut rand::thread_rng(), 0u64..=1u64)
}

/// Overwrites `dest` with bytes from `rand::thread_rng()`, by
/// `rand::Rng::fill`. Every content can come back, so nothing is claimed of
/// it. The generator panics if the operating system cannot seed it.
#[verifier::external_body]
pub(crate) fn fill_random(dest: &mut [u8; KEY_SIZE]) {
    rand::Rng::fill(&mut rand::thread_rng(), &mut dest[..])
}

} // verus!
