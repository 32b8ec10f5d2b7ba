//! Exact integer model of IEEE-754 binary32 samples.
//!
//! A colour sample is handled by its bit pattern. Every finite binary32 value
//! is an integer multiple of 2^-149, so the magnitude of a sample is modelled
//! as a natural number of such units and no rounding enters the model.

use vstd::prelude::*;
use vstd::arithmetic::power2::{pow2, lemma_pow2_adds, lemma_pow2_pos, lemma2_to64, lemma_pow2_strictly_increases, lemma_pow2_unfold};
use vstd::arithmetic::div_mod::{lemma_basic_div, lemma_div_is_ordered, lemma_div_multiples_vanish};
use vstd::bits::{lemma_u64_shl_is_mul, lemma_u64_shr_is_div};
use crate::arith::lemma_cancel_common_factor;

verus! {

/// The clamped maximum in the fixed-point form of [`clamped_fixed`]: 65408 * 2^25.
pub const FIXED_MAX: u64 = 0x1ff_0000_0000;

/// The sign bit of a binary32 pattern.
pub open spec fn sign_field(bits: u32) -> nat {
    (bits / 0x8000_0000) as nat
}

/// The eight-bit biased exponent field of a binary32 pattern.
pub open spec fn exponent_field(bits: u32) -> nat {
    ((bits / 0x80_0000) % 0x100) as nat
}

/// The 23-bit fraction field of a binary32 pattern.
pub open spec fn fraction_field(bits: u32) -> nat {
    (bits % 0x80_0000) as nat
}

/// The pattern is neither an infinity nor a NaN.
pub open spec fn is_finite(bits: u32) -> bool {
    exponent_field(bits) != 0xff
}

/// The integer significand: the fraction, with the implicit leading one for
/// normal numbers.
pub open spec fn significand(bits: u32) -> nat {
    if exponent_field(bits) == 0 {
        fraction_field(bits)
    } else {
        0x80_0000 + fraction_field(bits)
    }
}

/// The power of two that scales the significand, counted from 2^-149:
/// subnormals and the smallest normals share the scale 0.
pub open spec fn scale(bits: u32) -> nat {
    if exponent_field(bits) == 0 {
        0
    } else {
        (exponent_field(bits) - 1) as nat
    }
}

/// The magnitude of a finite pattern in units of 2^-149.
pub open spec fn magnitude_units(bits: u32) -> nat {
    significand(bits) * pow2(scale(bits))
}

/// The largest value that RGB9E5 represents, 511/512 * 2^16 = 65408, in
/// units of 2^-149.
pub open spec fn max_units() -> nat {
    511 * pow2(156)
}

/// The sample clamped to the range that RGB9E5 represents, in units of
/// 2^-149: negative values, infinities and NaNs count as zero, and finite
/// values above the maximum count as the maximum.
pub open spec fn clamped_units(bits: u32) -> nat {
    if sign_field(bits) != 0 || !is_finite(bits) {
        0
    } else if magnitude_units(bits) >= max_units() {
        max_units()
    } else {
        magnitude_units(bits)
    }
}

/// A finite non-negative pattern reaches the maximum exactly when it is at
/// least the pattern of 65408.0, which has exponent field 142 and fraction
/// 0x7f8000.
pub proof fn lemma_reaches_max(bits: u32)
    ensures
        magnitude_units(bits) >= max_units() <==> (exponent_field(bits) >= 143 || (
        exponent_field(bits) == 142 && fraction_field(bits) >= 0x7f_8000)),
{
    let e = exponent_field(bits);
    let f = fraction_field(bits);
    let sig = significand(bits);
    let s = scale(bits);
    lemma2_to64();
    lemma_pow2_pos(141);
    if e >= 143 {
        // sig >= 2^23 and the scale is at least 142
        if s > 142 {
            lemma_pow2_strictly_increases(142, s);
        }
        lemma_pow2_adds(9, 156);
        lemma_pow2_adds(23, 142);
        assert(pow2(165) == 0x80_0000 * pow2(142));
        assert(pow2(165) == 512 * pow2(156));
        assert(sig * pow2(s) >= 0x80_0000 * pow2(142)) by (nonlinear_arith)
            requires
                sig >= 0x80_0000,
                pow2(s) >= pow2(142),
        ;
    } else if e == 142 {
        lemma_pow2_adds(15, 141);
        assert(pow2(156) == 0x8000 * pow2(141));
        assert(511 * pow2(156) == 0xff_8000 * pow2(141)) by (nonlinear_arith)
            requires
                pow2(156) == 0x8000 * pow2(141),
        ;
        assert(sig * pow2(141) >= 0xff_8000 * pow2(141) <==> sig >= 0xff_8000)
            by (nonlinear_arith)
            requires
                pow2(141) > 0,
        ;
    } else {
        // sig < 2^24 and the scale is at most 140
        lemma_pow2_pos(s);
        if s < 140 {
            lemma_pow2_strictly_increases(s, 140);
        }
        lemma_pow2_adds(24, 140);
        lemma_pow2_adds(8, 156);
        assert(pow2(164) == 0x100_0000 * pow2(140));
        assert(pow2(164) == 256 * pow2(156));
        assert(sig * pow2(s) < 0x100_0000 * pow2(140)) by (nonlinear_arith)
            requires
                sig < 0x100_0000,
                0 < pow2(s) <= pow2(140),
        ;
    }
}

/// The fixed-point form of a clamped magnitude: whole multiples of 2^-25.
pub open spec fn fixed_of_units(units: nat) -> nat {
    units / pow2(124)
}

/// Converts a sample to the clamped fixed-point form with 25 fractional
/// bits, rounding towards zero.
pub fn clamped_fixed(bits: u32) -> (q: u64)
    ensures
        q == fixed_of_units(clamped_units(bits)),
        q <= FIXED_MAX,
{
    let sign: u32 = bits / 0x8000_0000;
    let e: u32 = (bits / 0x80_0000) % 0x100;
    let f: u32 = bits % 0x80_0000;
    proof {
        lemma_reaches_max(bits);
        lemma2_to64();
        lemma_pow2_pos(124);
        lemma_pow2_adds(32, 124);
        assert(max_units() == pow2(124) * (511 * pow2(32))) by (nonlinear_arith)
            requires
                pow2(156) == pow2(32) * pow2(124),
                max_units() == 511 * pow2(156),
        ;
        lemma_div_multiples_vanish((511 * pow2(32)) as int, pow2(124) as int);
        assert(fixed_of_units(max_units()) == FIXED_MAX);
    }
    if sign != 0 || e == 0xff {
        proof {
            lemma_basic_div(0, pow2(124) as int);
        }
        return 0;
    }
    if e >= 143 || (e == 142 && f >= 0x7f_8000) {
        return FIXED_MAX;
    }
    let sig: u64 = if e == 0 {
        f as u64
    } else {
        0x80_0000 + f as u64
    };
    let s: u32 = if e == 0 {
        0
    } else {
        e - 1
    };
    let ghost units = magnitude_units(bits);
    assert(units == sig * pow2(s as nat));
    assert(clamped_units(bits) == units);
    proof {
        lemma_div_is_ordered(units as int, max_units() as int, pow2(124) as int);
    }
    if s >= 124 {
        let k: u64 = (s - 124) as u64;
        proof {
            lemma_pow2_adds(k as nat, 124);
            lemma_pow2_pos(k as nat);
            if k < 17 {
                lemma_pow2_strictly_increases(k as nat, 17);
            }
            assert(sig * pow2(k as nat) <= 0x100_0000 * 0x2_0000) by (nonlinear_arith)
                requires
                    sig < 0x100_0000,
                    pow2(k as nat) <= 0x2_0000,
            ;
            lemma_u64_shl_is_mul(sig, k);
            assert(units == pow2(124) * (sig * pow2(k as nat))) by (nonlinear_arith)
                requires
                    units == sig * pow2(s as nat),
                    pow2(s as nat) == pow2(k as nat) * pow2(124),
            ;
            lemma_div_multiples_vanish((sig * pow2(k as nat)) as int, pow2(124) as int);
        }
        sig << k
    } else {
        let k: u64 = (124 - s) as u64;
        proof {
            lemma_pow2_adds(s as nat, k as nat);
            lemma_pow2_pos(s as nat);
            lemma_pow2_pos(k as nat);
            lemma_cancel_common_factor(sig as nat, pow2(s as nat), pow2(k as nat));
            assert(fixed_of_units(units) == sig as nat / pow2(k as nat));
        }
        if k >= 24 {
            proof {
                if k > 24 {
                    lemma_pow2_strictly_increases(24, k as nat);
                }
                lemma_basic_div(sig as int, pow2(k as nat) as int);
            }
            0
        } else {
            proof {
                lemma_u64_shr_is_div(sig, k);
            }
            sig >> k
        }
    }
}

/// Composes the pattern of the positive value `significand * 2^(scale - 149)`.
/// The scale is at least 23, so that the value is a normal number whatever
/// the significand, and at most 253, so that it is finite.
pub fn compose(significand: u32, scale: u32) -> (bits: u32)
    requires
        1 <= significand < 0x100_0000,
        23 <= scale <= 253,
    ensures
        sign_field(bits) == 0,
        is_finite(bits),
        magnitude_units(bits) == significand * pow2(scale as nat),
{
    let ghost units = significand * pow2(scale as nat);
    let ghost start = scale;
    let mut sig: u32 = significand;
    let mut scale: u32 = scale;
    let ghost mut doublings: nat = 0;
    proof {
        lemma2_to64();
    }
    while sig < 0x80_0000
        invariant
            1 <= sig < 0x100_0000,
            doublings <= 23,
            sig < 0x80_0000 ==> doublings < 23,
            23 <= start <= 253,
            scale + doublings == start,
            sig * pow2(scale as nat) == units,
            sig >= pow2(doublings),
        decreases 23 - doublings,
    {
        proof {
            lemma_pow2_unfold(scale as nat);
            lemma_pow2_unfold(doublings + 1);
            assert((sig * 2) * pow2((scale - 1) as nat) == sig * pow2(scale as nat))
                by (nonlinear_arith)
                requires
                    pow2(scale as nat) == 2 * pow2((scale - 1) as nat),
            ;
            if doublings + 1 >= 23 {
                lemma2_to64();
                if doublings + 1 > 23 {
                    lemma_pow2_strictly_increases(23, doublings + 1);
                }
            }
            doublings = doublings + 1;
        }
        sig = sig * 2;
        scale = scale - 1;
    }
    let field: u32 = scale + 1;
    let fraction: u32 = sig - 0x80_0000;
    let bits: u32 = field * 0x80_0000 + fraction;
    assert(exponent_field(bits) == field);
    assert(fraction_field(bits) == fraction);
    bits
}

} // verus!
