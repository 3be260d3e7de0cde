use vstd::prelude::*;

verus! {

/// IEEE-754 single-precision values travel through the bridge as raw bit
/// patterns, so the verified core never performs floating-point arithmetic.
/// A component whose magnitude bits fall below this threshold, that is a
/// magnitude below 2^-15, counts as zero when deciding whether a node is
/// visually represented.
pub const NEAR_ZERO_BITS: u32 = 0x3800_0000;

/// Mask selecting everything but the sign bit of a 32-bit pattern.
pub const MAGNITUDE_MASK: u32 = 0x7FFF_FFFF;

/// A magnitude below the threshold counts as zero. On IEEE-754 bit
/// patterns, comparing `bits & MAGNITUDE_MASK` against a constant compares
/// the magnitudes of the encoded values, so this predicate needs no
/// floating-point arithmetic.
pub open spec fn near_zero(bits: u32) -> bool {
    (bits & MAGNITUDE_MASK) < NEAR_ZERO_BITS
}

/// Executable form of [`near_zero`].
pub fn is_near_zero(bits: u32) -> (r: bool)
    ensures
        r == near_zero(bits),
{
    (bits & MAGNITUDE_MASK) < NEAR_ZERO_BITS
}

} // verus!
