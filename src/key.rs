//! Order keys for IEEE-754 binary64 values.
//!
//! The sorting code never reads a floating-point value: it reads a `u64` key
//! whose unsigned order is the IEEE-754 total order of the value's bit pattern.
//! For values that are not NaN this is the usual `<=` on doubles, except that
//! `-0.0` sorts before `+0.0`. Callers turn a double into its bits
//! (`f64::to_bits`) and the bits into a key here, and back again after sorting.
use vstd::prelude::*;

verus! {

/// The sign bit of a binary64 bit pattern.
pub const SIGN_BIT: u64 = 0x8000_0000_0000_0000;

/// Every bit of a binary64 bit pattern but the sign.
pub const MAGNITUDE_MASK: u64 = 0x7fff_ffff_ffff_ffff;

pub open spec fn is_negative(bits: u64) -> bool {
    bits & SIGN_BIT != 0
}

/// Exponent and fraction together: for patterns of one sign, their order is the
/// order of the absolute values.
pub open spec fn magnitude(bits: u64) -> u64 {
    bits & MAGNITUDE_MASK
}

/// IEEE-754 total order on bit patterns: negatives before positives, larger
/// magnitudes further from zero.
pub open spec fn total_order_le(a: u64, b: u64) -> bool {
    if is_negative(a) != is_negative(b) {
        is_negative(a)
    } else if is_negative(a) {
        magnitude(b) <= magnitude(a)
    } else {
        magnitude(a) <= magnitude(b)
    }
}

/// The key of a bit pattern: a negative pattern is inverted, a positive one gets
/// its sign bit set.
pub open spec fn spec_key(bits: u64) -> u64 {
    if bits & SIGN_BIT != 0 {
        !bits
    } else {
        bits | SIGN_BIT
    }
}

/// The bit pattern of a key; the inverse of `spec_key`.
pub open spec fn spec_bits(key: u64) -> u64 {
    if key & SIGN_BIT != 0 {
        key & MAGNITUDE_MASK
    } else {
        !key
    }
}

/// Key of the bit pattern of a double.
pub fn key_from_bits(bits: u64) -> (key: u64)
    ensures
        key == spec_key(bits),
        spec_bits(key) == bits,
{
    proof {
        lemma_bits_of_key(bits);
    }
    if bits & SIGN_BIT != 0 {
        !bits
    } else {
        bits | SIGN_BIT
    }
}

/// Bit pattern of the double that a key stands for.
pub fn bits_from_key(key: u64) -> (bits: u64)
    ensures
        bits == spec_bits(key),
        spec_key(bits) == key,
{
    proof {
        lemma_key_of_bits(key);
    }
    if key & SIGN_BIT != 0 {
        key & MAGNITUDE_MASK
    } else {
        !key
    }
}

/// Turning a bit pattern into a key and back gives the pattern again.
pub proof fn lemma_bits_of_key(bits: u64)
    ensures
        spec_bits(spec_key(bits)) == bits,
{
    assert(bits & 0x8000_0000_0000_0000u64 != 0 ==> (!bits) & 0x8000_0000_0000_0000u64 == 0
        && !(!bits) == bits) by (bit_vector);
    assert(bits & 0x8000_0000_0000_0000u64 == 0 ==> (bits | 0x8000_0000_0000_0000u64)
        & 0x8000_0000_0000_0000u64 != 0 && (bits | 0x8000_0000_0000_0000u64)
        & 0x7fff_ffff_ffff_ffffu64 == bits) by (bit_vector);
}

/// Turning a key into a bit pattern and back gives the key again.
pub proof fn lemma_key_of_bits(key: u64)
    ensures
        spec_key(spec_bits(key)) == key,
{
    assert(key & 0x8000_0000_0000_0000u64 != 0 ==> (key & 0x7fff_ffff_ffff_ffffu64)
        & 0x8000_0000_0000_0000u64 == 0 && ((key & 0x7fff_ffff_ffff_ffffu64)
        | 0x8000_0000_0000_0000u64) == key) by (bit_vector);
    assert(key & 0x8000_0000_0000_0000u64 == 0 ==> (!key) & 0x8000_0000_0000_0000u64 != 0
        && !(!key) == key) by (bit_vector);
}

/// Keys are ordered as the IEEE-754 total order orders the bit patterns they
/// come from.
pub proof fn lemma_key_order(a: u64, b: u64)
    ensures
        spec_key(a) <= spec_key(b) <==> total_order_le(a, b),
{
    assert((a & 0x8000_0000_0000_0000u64 != 0 && b & 0x8000_0000_0000_0000u64 != 0) ==> ((!a
        <= !b) == ((b & 0x7fff_ffff_ffff_ffffu64) <= (a & 0x7fff_ffff_ffff_ffffu64))))
        by (bit_vector);
    assert((a & 0x8000_0000_0000_0000u64 == 0 && b & 0x8000_0000_0000_0000u64 == 0) ==> (((a
        | 0x8000_0000_0000_0000u64) <= (b | 0x8000_0000_0000_0000u64)) == ((a
        & 0x7fff_ffff_ffff_ffffu64) <= (b & 0x7fff_ffff_ffff_ffffu64)))) by (bit_vector);
    assert((a & 0x8000_0000_0000_0000u64 != 0 && b & 0x8000_0000_0000_0000u64 == 0) ==> !a < (b
        | 0x8000_0000_0000_0000u64)) by (bit_vector);
    assert((a & 0x8000_0000_0000_0000u64 == 0 && b & 0x8000_0000_0000_0000u64 != 0) ==> !b < (a
        | 0x8000_0000_0000_0000u64)) by (bit_vector);
}

} // verus!
