//! Single-precision numbers of IEEE 754, held as their 32-bit patterns:
//! one sign bit, eight exponent bits, twenty-three fraction bits.

use vstd::prelude::*;

verus! {

/// The pattern of positive infinity: every larger magnitude is not a number.
pub const INFINITY_BITS: u32 = 0x7f80_0000;

/// The pattern of negative zero: the sign bit alone.
pub const NEGATIVE_ZERO_BITS: u32 = 0x8000_0000;

/// The pattern of the number one.
pub const ONE_BITS: u32 = 0x3f80_0000;

/// The pattern of the single-precision number nearest to Euler's number.
pub const E_BITS: u32 = 0x402d_f854;

/// The pattern without its sign bit.
pub open spec fn magnitude(bits: u32) -> int {
    if bits >= NEGATIVE_ZERO_BITS {
        bits - NEGATIVE_ZERO_BITS
    } else {
        bits as int
    }
}

/// Whether the pattern is not a number: its magnitude is above infinity.
pub open spec fn spec_is_nan(bits: u32) -> bool {
    magnitude(bits) > INFINITY_BITS
}

/// Whether the pattern is a zero, of either sign.
pub open spec fn spec_is_zero(bits: u32) -> bool {
    magnitude(bits) == 0
}

/// Whether the pattern is a number greater than zero; infinity is one.
pub open spec fn spec_is_positive(bits: u32) -> bool {
    0 < bits <= INFINITY_BITS
}

/// Whether the pattern is a number greater than or equal to zero.
pub open spec fn spec_is_non_negative(bits: u32) -> bool {
    is_zero(bits) || is_positive(bits)
}

/// Whether two patterns compare equal as numbers: neither is not a number,
/// and they are the same pattern or both zero.
pub open spec fn spec_same_number(a: u32, b: u32) -> bool {
    !is_nan(a) && !is_nan(b) && (a == b || (is_zero(a) && is_zero(b)))
}

/// Whether the pattern is a zero, of either sign.
#[verifier::when_used_as_spec(spec_is_zero)]
pub fn is_zero(bits: u32) -> (b: bool)
    ensures
        b == spec_is_zero(bits),
{
    bits == 0 || bits == NEGATIVE_ZERO_BITS
}

/// Whether the pattern is not a number.
#[verifier::when_used_as_spec(spec_is_nan)]
pub fn is_nan(bits: u32) -> (b: bool)
    ensures
        b == spec_is_nan(bits),
{
    if bits >= NEGATIVE_ZERO_BITS {
        bits - NEGATIVE_ZERO_BITS > INFINITY_BITS
    } else {
        bits > INFINITY_BITS
    }
}

/// Whether the pattern is a number greater than zero.
#[verifier::when_used_as_spec(spec_is_positive)]
pub fn is_positive(bits: u32) -> (b: bool)
    ensures
        b == spec_is_positive(bits),
{
    0 < bits && bits <= INFINITY_BITS
}

/// Whether the pattern is a number greater than or equal to zero.
#[verifier::when_used_as_spec(spec_is_non_negative)]
pub fn is_non_negative(bits: u32) -> (b: bool)
    ensures
        b == spec_is_non_negative(bits),
{
    is_zero(bits) || is_positive(bits)
}

/// Whether two patterns compare equal as numbers.
#[verifier::when_used_as_spec(spec_same_number)]
pub fn same_number(a: u32, b: u32) -> (r: bool)
    ensures
        r == spec_same_number(a, b),
{
    !is_nan(a) && !is_nan(b) && (a == b || (is_zero(a) && is_zero(b)))
}

} // verus!
