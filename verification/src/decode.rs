//! Reading RGB9E5 words back, and how close the decoded values lie to the
//! encoded ones.

use vstd::prelude::*;
use vstd::arithmetic::power2::{pow2, lemma_pow2_adds, lemma_pow2_pos, lemma2_to64, lemma_pow2_strictly_increases, lemma_pow2_unfold};
use crate::binary32::{clamped_units, compose, is_finite, magnitude_units, max_units, sign_field};
use crate::rgb9e5::{candidate_exponent, decoded_units, encoded_word, lemma_candidate_exponent, lemma_mantissa_at_least, lemma_mantissa_monotonic, lemma_max_units_bound, lemma_rounding_error, lemma_shared_exponent, mantissa, max3, pack, shared_exponent, step_units};

verus! {

/// The red mantissa of a packed word.
pub open spec fn red_field(word: nat) -> nat {
    word % 0x200
}

/// The green mantissa of a packed word.
pub open spec fn green_field(word: nat) -> nat {
    (word / 0x200) % 0x200
}

/// The blue mantissa of a packed word.
pub open spec fn blue_field(word: nat) -> nat {
    (word / 0x4_0000) % 0x200
}

/// The biased shared exponent of a packed word.
pub open spec fn shared_field(word: nat) -> nat {
    (word / 0x800_0000) % 0x20
}

/// The fields of a packed word.
#[derive(Debug, Clone, Copy, PartialEq, Eq, Structural)]
pub struct Fields {
    pub red: u32,
    pub green: u32,
    pub blue: u32,
    pub exponent: u32,
}

/// Packing fields that are in range and unpacking the word gives the fields
/// back.
pub proof fn lemma_unpack_pack(red: nat, green: nat, blue: nat, exponent: nat)
    requires
        red <= 511,
        green <= 511,
        blue <= 511,
        exponent <= 31,
    ensures
        pack(red, green, blue, exponent) <= u32::MAX,
        red_field(pack(red, green, blue, exponent)) == red,
        green_field(pack(red, green, blue, exponent)) == green,
        blue_field(pack(red, green, blue, exponent)) == blue,
        shared_field(pack(red, green, blue, exponent)) == exponent,
{
}

/// Splits a packed word into its fields.
pub fn unpack(word: u32) -> (fields: Fields)
    ensures
        fields.red == red_field(word as nat),
        fields.green == green_field(word as nat),
        fields.blue == blue_field(word as nat),
        fields.exponent == shared_field(word as nat),
        fields.red <= 511,
        fields.green <= 511,
        fields.blue <= 511,
        fields.exponent <= 31,
        pack(fields.red as nat, fields.green as nat, fields.blue as nat, fields.exponent as nat)
            == word,
{
    Fields {
        red: word % 0x200,
        green: (word / 0x200) % 0x200,
        blue: (word / 0x4_0000) % 0x200,
        exponent: (word / 0x800_0000) % 0x20,
    }
}

/// The fields of an encoded pixel are the mantissas of its clamped channels
/// at the shared exponent, and all of them are in range.
pub proof fn lemma_encoded_fields(red: u32, green: u32, blue: u32)
    ensures
        ({
            let r = clamped_units(red);
            let g = clamped_units(green);
            let b = clamped_units(blue);
            let e = shared_exponent(max3(r, g, b));
            let word = encoded_word(red, green, blue);
            &&& word <= u32::MAX
            &&& e <= 31
            &&& red_field(word) == mantissa(r, e) <= 511
            &&& green_field(word) == mantissa(g, e) <= 511
            &&& blue_field(word) == mantissa(b, e) <= 511
            &&& shared_field(word) == e
        }),
{
    let r = clamped_units(red);
    let g = clamped_units(green);
    let b = clamped_units(blue);
    let top = max3(r, g, b);
    let e = shared_exponent(top);
    lemma_shared_exponent(top);
    lemma_mantissa_monotonic(r, top, e);
    lemma_mantissa_monotonic(g, top, e);
    lemma_mantissa_monotonic(b, top, e);
    lemma_unpack_pack(mantissa(r, e), mantissa(g, e), mantissa(b, e), e);
}

/// A pixel whose channels all clamp to zero encodes to the zero word.
pub proof fn lemma_zero_pixel(red: u32, green: u32, blue: u32)
    requires
        clamped_units(red) == 0,
        clamped_units(green) == 0,
        clamped_units(blue) == 0,
    ensures
        encoded_word(red, green, blue) == 0,
{
    let s = step_units(0);
    lemma_pow2_pos(125);
    lemma_mantissa_at_least(0, 0, 1);
    assert(2 * 1 * s == 2 * s);
    assert(mantissa(0, 0) == 0);
    assert(shared_exponent(0) == 0);
}

/// The all-zero pixel encodes to the all-zero word.
pub proof fn lemma_all_zero_bits()
    ensures
        encoded_word(0, 0, 0) == 0,
{
    assert(clamped_units(0) == 0) by {
        lemma_pow2_pos(0);
        assert(magnitude_units(0) == 0 * pow2(0));
        lemma_max_units_bound();
        lemma_pow2_pos(156);
    }
    lemma_zero_pixel(0, 0, 0);
}

/// A channel at the clamped maximum takes the largest exponent and the
/// largest mantissa: values at or above the maximum saturate.
pub proof fn lemma_saturation(top: nat)
    requires
        top == max_units(),
    ensures
        shared_exponent(top) == 31,
        mantissa(top, 31) == 511,
        decoded_units(511, 31) == max_units(),
{
    lemma_max_units_bound();
    lemma_candidate_exponent(top);
    lemma_shared_exponent(top);
    let c = candidate_exponent(top);
    let s = step_units(31);
    lemma_pow2_pos(156);
    if c < 31 {
        // the maximum lies at or above 2^(c - 15) for every smaller candidate
        lemma2_to64();
        lemma_pow2_adds(9, c + 125);
        lemma_pow2_adds(8, 156);
        if c < 30 {
            lemma_pow2_strictly_increases(c + 134, 164);
        }
        assert(false);
    }
    lemma_mantissa_at_least(top, 31, 511);
    lemma_mantissa_at_least(top, 31, 512);
    assert(2 * 511 * s == 1022 * s);
    assert(2 * 512 * s == 1024 * s);
}

/// The round-trip bound of one channel.
///
/// A channel of clamped magnitude `units`, in a pixel whose largest clamped
/// channel is `top`, decodes to within half a mantissa step of `units`. If
/// the largest channel is at least 2^-16, that is within 1/511 of the
/// largest channel.
pub proof fn lemma_round_trip(units: nat, top: nat)
    requires
        units <= top <= max_units(),
    ensures
        ({
            let e = shared_exponent(top);
            let decoded = decoded_units(mantissa(units, e), e);
            &&& 2 * decoded <= 2 * units + step_units(e)
            &&& 2 * units < 2 * decoded + step_units(e)
            &&& top >= pow2(133) ==> 511 * (decoded - units) <= top && 511 * (units - decoded)
                <= top
        }),
{
    let e = shared_exponent(top);
    let c = candidate_exponent(top);
    let s = step_units(e);
    lemma_rounding_error(units, e);
    lemma_shared_exponent(top);
    lemma_candidate_exponent(top);
    if top >= pow2(133) {
        // the step is small against the largest channel: 511 * s <= 2 * top
        lemma2_to64();
        if e == c {
            if c == 0 {
                lemma_pow2_adds(8, 125);
            }
            assert(top >= 256 * s);
        } else {
            let sc = step_units(c);
            lemma_pow2_unfold(c + 126);
            assert(s == 2 * sc);
            lemma_mantissa_at_least(top, c, 512);
            assert(2 * 512 * sc == 1024 * sc);
            assert(2 * top >= 1023 * sc);
        }
        assert(511 * s <= 2 * top);
    }
}

/// Decodes one channel: the binary32 pattern of `mantissa * 2^(exponent - 24)`.
pub fn decode_channel(mantissa: u32, exponent: u32) -> (bits: u32)
    requires
        mantissa <= 511,
        exponent <= 31,
    ensures
        sign_field(bits) == 0,
        is_finite(bits),
        magnitude_units(bits) == decoded_units(mantissa as nat, exponent as nat),
{
    if mantissa == 0 {
        proof {
            lemma_pow2_pos(0);
            assert(magnitude_units(0) == 0 * pow2(0));
            assert(decoded_units(0, exponent as nat) == 0 * step_units(exponent as nat));
        }
        return 0;
    }
    compose(mantissa, exponent + 125)
}

/// Decodes a packed word to the binary32 patterns of its red, green and
/// blue channels.
pub fn decode_pixel(word: u32) -> (channels: (u32, u32, u32))
    ensures
        magnitude_units(channels.0) == decoded_units(
            red_field(word as nat),
            shared_field(word as nat),
        ),
        magnitude_units(channels.1) == decoded_units(
            green_field(word as nat),
            shared_field(word as nat),
        ),
        magnitude_units(channels.2) == decoded_units(
            blue_field(word as nat),
            shared_field(word as nat),
        ),
        sign_field(channels.0) == 0 && is_finite(channels.0),
        sign_field(channels.1) == 0 && is_finite(channels.1),
        sign_field(channels.2) == 0 && is_finite(channels.2),
{
    let fields = unpack(word);
    (
        decode_channel(fields.red, fields.exponent),
        decode_channel(fields.green, fields.exponent),
        decode_channel(fields.blue, fields.exponent),
    )
}

} // verus!
