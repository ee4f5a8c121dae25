use vstd::prelude::*;
use crate::ELL;

verus! {

/// Binary logarithm of the gadget base.
pub const LOG_BASE: u64 = 8;

/// The gadget base, 2^8.
pub const BASE: u64 = 256;

/// The window of digit `j` starts at bit `DIGIT_OFFSET + LOG_BASE * (j + 1)`.
/// The `ELL` windows fill the top of a 64-bit word, so this is
/// `64 - LOG_BASE * (ELL + 1)`.
pub const DIGIT_OFFSET: u64 = 40;

/// The weight of digit `j`: 2^48 for the first digit, 2^56 for the second.
pub open spec fn gadget_weight(j: int) -> int {
    if j == 0 {
        0x1_0000_0000_0000
    } else {
        0x100_0000_0000_0000
    }
}

/// The bit position at which the window of digit `j` starts.
pub open spec fn spec_digit_shift(j: int) -> int {
    DIGIT_OFFSET + LOG_BASE * (j + 1)
}

/// The two base-256 digits in the top 16 bits of `val`, lowest first.
pub open spec fn spec_decomposition(val: u64) -> (u8, u8) {
    (((val / 0x1_0000_0000_0000) % 256) as u8, (val / 0x100_0000_0000_0000) as u8)
}

/// What the two digits leave out of `val`: its low 48 bits.
pub open spec fn decomposition_remainder(val: u64) -> int {
    (val % 0x1_0000_0000_0000) as int
}

/// The bit position at which the window of digit `j` starts.
pub fn digit_shift(j: usize) -> (shift: u64)
    requires
        j < ELL,
    ensures
        shift == spec_digit_shift(j as int),
        j == 0 ==> shift == 48,
        j == 1 ==> shift == 56,
{
    DIGIT_OFFSET + LOG_BASE * (j as u64 + 1)
}

/// Splits the top 16 bits of `val` into `ELL` digits in base 256, lowest
/// first.
pub fn decomposition(val: u64) -> (digits: (u8, u8))
    ensures
        digits == spec_decomposition(val),
{
    let low_shift = digit_shift(0);
    let high_shift = digit_shift(1);
    let low = (val >> low_shift) & (BASE - 1);
    let high = (val >> high_shift) & (BASE - 1);
    assert((val >> 48u64) & 255 == (val / 0x1_0000_0000_0000) % 256) by (bit_vector);
    assert((val >> 56u64) & 255 == val / 0x100_0000_0000_0000) by (bit_vector);
    assert((val >> 56u64) & 255 < 256) by (bit_vector);
    (low as u8, high as u8)
}

/// The gadget parameters agree: the base is 2 to the power `LOG_BASE`, the
/// weight of a digit is 2 to the power of the bit at which its window
/// starts, each window ends where the next begins, and the last ends with
/// the word.
pub proof fn lemma_gadget_parameters()
    ensures
        ELL == 2,
        BASE == vstd::arithmetic::power2::pow2(LOG_BASE as nat),
        gadget_weight(0) == vstd::arithmetic::power2::pow2(spec_digit_shift(0) as nat),
        gadget_weight(1) == vstd::arithmetic::power2::pow2(spec_digit_shift(1) as nat),
        gadget_weight(0) * BASE == gadget_weight(1),
        spec_digit_shift(1) + LOG_BASE == 64,
{
    vstd::arithmetic::power2::lemma2_to64();
    vstd::arithmetic::power2::lemma2_to64_rest();
}

/// The digits, each at its weight, add up to `val` without its low 48 bits.
pub proof fn lemma_decomposition_recomposes(val: u64)
    ensures
        spec_decomposition(val).0 * gadget_weight(0) + spec_decomposition(val).1 * gadget_weight(1)
            == val - decomposition_remainder(val),
        0 <= decomposition_remainder(val) < gadget_weight(0),
{
    let top = val as int / 0x1_0000_0000_0000;
    vstd::arithmetic::div_mod::lemma_fundamental_div_mod(val as int, 0x1_0000_0000_0000);
    vstd::arithmetic::div_mod::lemma_mod_bound(val as int, 0x1_0000_0000_0000);
    vstd::arithmetic::div_mod::lemma_fundamental_div_mod(top, 256);
    vstd::arithmetic::div_mod::lemma_mod_bound(top, 256);
    vstd::arithmetic::div_mod::lemma_div_denominator(val as int, 0x1_0000_0000_0000, 256);
    assert(0x1_0000_0000_0000 * 256 == 0x100_0000_0000_0000int);
}

} // verus!
