//! Order keys: `u64` values that order IEEE-754 double-precision numbers.
//!
//! `order_key(x.to_bits())` maps a non-NaN `f64` to a `u64` such that `x < y`
//! implies `order_key(x) < order_key(y)`, and `order_key(x) < order_key(y)`
//! implies `x <= y`. Positive numbers are ordered by their bit patterns; for
//! negative ones the order of the magnitude bits is reversed. Every NaN maps
//! to the lowest key, `0`, below the key of every other double (`-inf`
//! included): a NaN never passes a threshold and never exceeds a neighbour.

use vstd::prelude::*;

verus! {

/// The sign bit of an IEEE-754 double.
pub const SIGN_BIT: u64 = 0x8000_0000_0000_0000;

/// The bits of an IEEE-754 double that are not its sign.
pub const MAGNITUDE_BITS: u64 = 0x7FFF_FFFF_FFFF_FFFF;

/// The magnitude bits of an infinity: all exponent bits set, no mantissa bits.
pub const INFINITY_BITS: u64 = 0x7FF0_0000_0000_0000;

/// Whether `bits` is the bit pattern of a NaN: all exponent bits set and a
/// mantissa that is not zero.
pub open spec fn is_nan_bits(bits: u64) -> bool {
    bits & MAGNITUDE_BITS > INFINITY_BITS
}

/// The key of a double, given by its bit pattern.
pub open spec fn order_key_spec(bits: u64) -> u64 {
    if is_nan_bits(bits) {
        0
    } else if bits & SIGN_BIT == 0 {
        bits | SIGN_BIT
    } else {
        !bits
    }
}

/// The rank of a double in the order of the reals, given by its bit pattern:
/// the magnitude bits, negated when the sign bit is set. For doubles that are
/// not NaN, `x < y` holds exactly when the rank of `x` is below that of `y`.
pub open spec fn float_rank(bits: u64) -> int {
    if bits & SIGN_BIT == 0 {
        (bits & MAGNITUDE_BITS) as int
    } else {
        -((bits & MAGNITUDE_BITS) as int)
    }
}

/// The order key of the double whose bit pattern is `bits`.
pub fn order_key(bits: u64) -> (key: u64)
    ensures
        key == order_key_spec(bits),
{
    if bits & MAGNITUDE_BITS > INFINITY_BITS {
        0
    } else if bits & SIGN_BIT == 0 {
        bits | SIGN_BIT
    } else {
        !bits
    }
}

/// Order keys follow the rank of doubles that are not NaN: a lower rank gives
/// a lower key, and a lower key comes from a rank that is not higher.
pub proof fn lemma_order_key_monotone(a: u64, b: u64)
    requires
        !is_nan_bits(a),
        !is_nan_bits(b),
    ensures
        float_rank(a) < float_rank(b) ==> order_key_spec(a) < order_key_spec(b),
        order_key_spec(a) < order_key_spec(b) ==> float_rank(a) <= float_rank(b),
{
    assert(a & SIGN_BIT == 0 ==> (a | SIGN_BIT) == (a & MAGNITUDE_BITS) + SIGN_BIT) by (bit_vector);
    assert(a & SIGN_BIT != 0 ==> !a == MAGNITUDE_BITS - (a & MAGNITUDE_BITS)) by (bit_vector);
    assert(b & SIGN_BIT == 0 ==> (b | SIGN_BIT) == (b & MAGNITUDE_BITS) + SIGN_BIT) by (bit_vector);
    assert(b & SIGN_BIT != 0 ==> !b == MAGNITUDE_BITS - (b & MAGNITUDE_BITS)) by (bit_vector);
    assert((a & MAGNITUDE_BITS) <= MAGNITUDE_BITS) by (bit_vector);
    assert((b & MAGNITUDE_BITS) <= MAGNITUDE_BITS) by (bit_vector);
}

/// Distinct doubles that are not NaN have distinct order keys.
pub proof fn lemma_order_key_injective(a: u64, b: u64)
    requires
        !is_nan_bits(a),
        !is_nan_bits(b),
    ensures
        order_key_spec(a) == order_key_spec(b) ==> a == b,
{
    assert((a & SIGN_BIT == 0) ==> (a | SIGN_BIT) & SIGN_BIT != 0) by (bit_vector);
    assert((a & SIGN_BIT != 0) ==> (!a) & SIGN_BIT == 0) by (bit_vector);
    assert((b & SIGN_BIT == 0) ==> (b | SIGN_BIT) & SIGN_BIT != 0) by (bit_vector);
    assert((b & SIGN_BIT != 0) ==> (!b) & SIGN_BIT == 0) by (bit_vector);
    assert((a & SIGN_BIT == 0 && b & SIGN_BIT == 0 && (a | SIGN_BIT) == (b | SIGN_BIT)) ==> a == b)
        by (bit_vector);
    assert(!a == !b ==> a == b) by (bit_vector);
}

/// Every NaN has the key `0`, strictly below the key of every double that is
/// not NaN.
pub proof fn lemma_nan_key_is_lowest(a: u64, b: u64)
    requires
        is_nan_bits(a),
        !is_nan_bits(b),
    ensures
        order_key_spec(a) == 0,
        order_key_spec(a) < order_key_spec(b),
{
    assert((b & MAGNITUDE_BITS) <= INFINITY_BITS && b & SIGN_BIT == 0 ==> (b | SIGN_BIT) > 0)
        by (bit_vector);
    assert((b & MAGNITUDE_BITS) <= INFINITY_BITS && b & SIGN_BIT != 0 ==> !b > 0) by (bit_vector);
}

} // verus!
