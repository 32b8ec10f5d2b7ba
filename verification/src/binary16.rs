//! IEEE-754 binary16 samples, widened to binary32 without loss.

use vstd::prelude::*;
use vstd::arithmetic::power2::{pow2, lemma_pow2_adds, lemma2_to64};
use crate::binary32::{compose, exponent_field, fraction_field, is_finite, magnitude_units, sign_field};

verus! {

/// The sign bit of a binary16 pattern.
pub open spec fn half_sign(half: u16) -> nat {
    (half / 0x8000) as nat
}

/// The five-bit biased exponent field of a binary16 pattern.
pub open spec fn half_exponent(half: u16) -> nat {
    ((half / 0x400) % 0x20) as nat
}

/// The ten-bit fraction field of a binary16 pattern.
pub open spec fn half_fraction(half: u16) -> nat {
    (half % 0x400) as nat
}

/// The pattern is neither an infinity nor a NaN.
pub open spec fn half_is_finite(half: u16) -> bool {
    half_exponent(half) != 0x1f
}

/// The magnitude of a finite binary16 pattern in units of 2^-149: a
/// subnormal is `fraction * 2^-24`, a normal number
/// `(1024 + fraction) * 2^(exponent - 25)`.
pub open spec fn half_magnitude_units(half: u16) -> nat {
    if half_exponent(half) == 0 {
        half_fraction(half) * pow2(125)
    } else {
        (0x400 + half_fraction(half)) * pow2(half_exponent(half) + 124)
    }
}

/// The binary32 pattern stands for the same value as the binary16 pattern:
/// the same sign and, for finite patterns, the same magnitude; an infinity
/// for an infinity, and a NaN with the same payload for a NaN.
pub open spec fn widens(half: u16, bits: u32) -> bool {
    &&& sign_field(bits) == half_sign(half)
    &&& is_finite(bits) == half_is_finite(half)
    &&& half_is_finite(half) ==> magnitude_units(bits) == half_magnitude_units(half)
    &&& !half_is_finite(half) ==> fraction_field(bits) == half_fraction(half) * 0x2000
}

/// Widens a binary16 pattern to the binary32 pattern of the same value.
pub fn widen(half: u16) -> (bits: u32)
    ensures
        widens(half, bits),
{
    let sign: u32 = (half / 0x8000) as u32;
    let e: u32 = ((half / 0x400) % 0x20) as u32;
    let f: u32 = (half % 0x400) as u32;
    let magnitude: u32 = if e == 0x1f {
        0x7f80_0000 + f * 0x2000
    } else if e == 0 {
        if f == 0 {
            proof {
                assert(magnitude_units(0) == 0 * pow2(0));
                assert(half_magnitude_units(half) == 0 * pow2(125));
            }
            0
        } else {
            compose(f, 125)
        }
    } else {
        let bits: u32 = (e + 112) * 0x80_0000 + f * 0x2000;
        proof {
            assert(exponent_field(bits) == e + 112);
            assert(fraction_field(bits) == f * 0x2000);
            lemma2_to64();
            lemma_pow2_adds(13, (e + 111) as nat);
            assert(magnitude_units(bits) == (0x80_0000 + f * 0x2000) * pow2((e + 111) as nat));
            assert((0x80_0000 + f * 0x2000) * pow2((e + 111) as nat) == (0x400 + f) * (0x2000
                * pow2((e + 111) as nat))) by (nonlinear_arith);
        }
        bits
    };
    let bits: u32 = sign * 0x8000_0000 + magnitude;
    assert(exponent_field(bits) == exponent_field(magnitude));
    assert(fraction_field(bits) == fraction_field(magnitude));
    bits
}

} // verus!
