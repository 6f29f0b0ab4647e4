//! The persistence parameter `p`.
//!
//! Persistence is a real number with `0 <= p < 1`. Verified code does not
//! compute with floating point, so the library carries `p` as the bit pattern
//! of an IEEE 754 binary64 number and decides on the pattern alone whether
//! the number it encodes lies in that range. Callers convert with
//! `to_bits` and `from_bits`.
//!
//! A binary64 pattern has a sign bit, eleven bits of biased exponent `e` and
//! fifty-two bits of fraction `f`. With `e == 2047` it is an infinity or a
//! NaN. Otherwise it encodes the number `±m · 2^x`, where `m = f` and
//! `x = -1074` for `e == 0` (zero and the subnormal numbers), and
//! `m = 2^52 + f` and `x = e - 1075` for the normal numbers.

use vstd::arithmetic::power2::{lemma2_to64_rest, lemma_pow2_strictly_increases, pow2};
use vstd::prelude::*;

verus! {

/// The bit pattern of `1.0`.
pub const ONE_BITS: u64 = 0x3ff0_0000_0000_0000;

/// The bit pattern of `-0.0`.
pub const NEGATIVE_ZERO_BITS: u64 = 0x8000_0000_0000_0000;

/// The sign of a binary64 pattern: `1` for a negative number.
pub open spec fn sign_bit(bits: u64) -> u64 {
    bits >> 63
}

/// The biased exponent of a binary64 pattern.
pub open spec fn biased_exponent(bits: u64) -> u64 {
    (bits >> 52) & 0x7ff
}

/// The fraction field of a binary64 pattern.
pub open spec fn fraction(bits: u64) -> u64 {
    bits & 0x000f_ffff_ffff_ffff
}

/// Whether the pattern encodes a number: neither an infinity nor a NaN.
pub open spec fn is_finite(bits: u64) -> bool {
    biased_exponent(bits) != 2047
}

/// The integer `m` in the magnitude `m · 2^x` of a finite pattern.
pub open spec fn significand(bits: u64) -> nat {
    if biased_exponent(bits) == 0 {
        fraction(bits) as nat
    } else {
        (0x0010_0000_0000_0000 + fraction(bits)) as nat
    }
}

/// The exponent `x` in the magnitude `m · 2^x` of a finite pattern.
pub open spec fn binary_exponent(bits: u64) -> int {
    if biased_exponent(bits) == 0 {
        -1074
    } else {
        biased_exponent(bits) - 1075
    }
}

/// Whether the number that a finite pattern encodes is not below zero: it
/// is positive, or a zero of either sign.
pub open spec fn is_not_negative(bits: u64) -> bool {
    sign_bit(bits) == 0 || significand(bits) == 0
}

/// Whether the magnitude `m · 2^x` of a finite pattern is below one: `x` is
/// negative and `m < 2^(-x)`.
pub open spec fn is_magnitude_below_one(bits: u64) -> bool {
    binary_exponent(bits) < 0 && significand(bits) < pow2((-binary_exponent(bits)) as nat)
}

/// Whether `bits` encodes a number `p` with `0 <= p < 1`.
pub open spec fn is_valid_persistence(bits: u64) -> bool {
    is_finite(bits) && is_not_negative(bits) && is_magnitude_below_one(bits)
}

/// The valid patterns are those that are below the pattern of `1.0` when
/// read as integers, and the pattern of negative zero.
pub proof fn lemma_valid_persistence_patterns(bits: u64)
    ensures
        is_valid_persistence(bits) <==> bits < ONE_BITS || bits == NEGATIVE_ZERO_BITS,
{
    let sign = sign_bit(bits);
    let e = biased_exponent(bits);
    let f = fraction(bits);
    assert(sign == 0 || sign == 1) by (bit_vector)
        requires
            sign == bits >> 63,
    ;
    assert(e <= 2047) by (bit_vector)
        requires
            e == (bits >> 52) & 0x7ff,
    ;
    assert(f < 0x0010_0000_0000_0000) by (bit_vector)
        requires
            f == bits & 0x000f_ffff_ffff_ffff,
    ;
    assert(bits < 0x3ff0_0000_0000_0000 <==> sign == 0 && e < 1023) by (bit_vector)
        requires
            sign == bits >> 63,
            e == (bits >> 52) & 0x7ff,
    ;
    assert(bits == 0x8000_0000_0000_0000 <==> sign == 1 && e == 0 && f == 0) by (bit_vector)
        requires
            sign == bits >> 63,
            e == (bits >> 52) & 0x7ff,
            f == bits & 0x000f_ffff_ffff_ffff,
    ;
    lemma2_to64_rest();
    let x = binary_exponent(bits);
    if e < 1023 {
        // Fewer than 53 bits of significand against a power of at least 53.
        if -x > 53 {
            lemma_pow2_strictly_increases(53, (-x) as nat);
        }
        assert(is_magnitude_below_one(bits));
    } else if x < 0 {
        // A normal number: at least 2^52 against a power of at most 52.
        if -x < 52 {
            lemma_pow2_strictly_increases((-x) as nat, 52);
        }
        assert(!is_magnitude_below_one(bits));
    }
}

/// Decides whether `bits` encodes a valid persistence.
pub fn valid_persistence(bits: u64) -> (valid: bool)
    ensures
        valid == is_valid_persistence(bits),
{
    proof {
        lemma_valid_persistence_patterns(bits);
    }
    bits < ONE_BITS || bits == NEGATIVE_ZERO_BITS
}

} // verus!
