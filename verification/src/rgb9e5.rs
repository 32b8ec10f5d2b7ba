//! The RGB9E5 shared-exponent encoding of one pixel.
//!
//! A packed word holds three 9-bit mantissas and one 5-bit biased exponent.
//! A channel with mantissa `m` under biased exponent `e` stands for the value
//! `m * 2^(e - 15 - 9)`. The functions here work on magnitudes in units of
//! 2^-149 (see [`crate::binary32`]), in which one mantissa step at exponent
//! `e` is `2^(e + 125)` units.

use vstd::prelude::*;
use vstd::arithmetic::power2::{pow2, lemma_pow2_adds, lemma_pow2_pos, lemma2_to64, lemma_pow2_strictly_increases, lemma_pow2_unfold};
use vstd::arithmetic::div_mod::{lemma_div_denominator, lemma_fundamental_div_mod, lemma_mod_bound, lemma_div_is_ordered, lemma_hoist_over_denominator};
use vstd::bits::{lemma_u64_shl_is_mul, lemma_u64_shr_is_div};
use crate::arith::{lemma_cancel_common_factor, lemma_quotient_at_least};
use crate::binary32::{clamped_fixed, clamped_units, fixed_of_units, max_units, FIXED_MAX};

verus! {

/// Largest mantissa that fits in nine bits.
pub const MANTISSA_MAX: u32 = 511;

/// Largest biased exponent that fits in five bits.
pub const EXPONENT_MAX: u32 = 31;

/// One mantissa step at biased exponent `e`, in units of 2^-149.
pub open spec fn step_units(e: nat) -> nat {
    pow2(e + 125)
}

/// The mantissa of a magnitude at biased exponent `e`: the magnitude divided
/// by the step and rounded to the nearest integer, halves rounding up.
pub open spec fn mantissa(units: nat, e: nat) -> nat {
    (2 * units + step_units(e)) / (2 * step_units(e))
}

/// The magnitude's mantissa at exponent `e` fits in nine bits.
pub open spec fn fits(units: nat, e: nat) -> bool {
    mantissa(units, e) <= MANTISSA_MAX
}

/// The smallest exponent from `from` up to 31 at which the magnitude fits,
/// or 31 if there is none.
pub open spec fn least_fitting(units: nat, from: nat) -> nat
    decreases EXPONENT_MAX - from,
{
    if from >= EXPONENT_MAX || fits(units, from) {
        from
    } else {
        least_fitting(units, from + 1)
    }
}

/// The shared exponent of a pixel whose largest clamped channel is
/// `max`: the smallest biased exponent at which that channel's rounded
/// mantissa fits in nine bits.
pub open spec fn shared_exponent(max: nat) -> nat {
    least_fitting(max, 0)
}

/// The smallest exponent from `from` up to 31 whose range `[0, 2^(e - 15))`
/// holds the magnitude before rounding, or 31 if there is none.
pub open spec fn least_holding(units: nat, from: nat) -> nat
    decreases EXPONENT_MAX - from,
{
    if from >= EXPONENT_MAX || units < pow2(from + 134) {
        from
    } else {
        least_holding(units, from + 1)
    }
}

/// The exponent chosen before rounding is taken into account:
/// `max(-16, floor(log2(value))) + 16`.
pub open spec fn candidate_exponent(max: nat) -> nat {
    least_holding(max, 0)
}

/// The largest of three magnitudes.
pub open spec fn max3(a: nat, b: nat, c: nat) -> nat {
    if a >= b && a >= c {
        a
    } else if b >= c {
        b
    } else {
        c
    }
}

/// The packed word: red in bits 0..9, green in bits 9..18, blue in bits
/// 18..27 and the biased exponent in bits 27..32.
pub open spec fn pack(red: nat, green: nat, blue: nat, exponent: nat) -> nat {
    red + 0x200 * green + 0x4_0000 * blue + 0x800_0000 * exponent
}

/// The RGB9E5 word of a pixel given by the binary32 patterns of its colour
/// channels.
pub open spec fn encoded_word(red: u32, green: u32, blue: u32) -> nat {
    let r = clamped_units(red);
    let g = clamped_units(green);
    let b = clamped_units(blue);
    let e = shared_exponent(max3(r, g, b));
    pack(mantissa(r, e), mantissa(g, e), mantissa(b, e), e)
}

/// The magnitude that a mantissa stands for at biased exponent `e`, in
/// units of 2^-149.
pub open spec fn decoded_units(m: nat, e: nat) -> nat {
    m * step_units(e)
}

/// The mantissa reaches `n` exactly when the magnitude reaches `n - 1/2`
/// steps.
pub proof fn lemma_mantissa_at_least(units: nat, e: nat, n: nat)
    ensures
        mantissa(units, e) >= n <==> 2 * units + step_units(e) >= 2 * n * step_units(e),
{
    let s = step_units(e);
    lemma_pow2_pos(e + 125);
    lemma_quotient_at_least(2 * units + s, 2 * s, n);
    assert(n * (2 * s) == 2 * n * s) by (nonlinear_arith);
}

/// A larger magnitude has no smaller mantissa.
pub proof fn lemma_mantissa_monotonic(small: nat, large: nat, e: nat)
    requires
        small <= large,
    ensures
        mantissa(small, e) <= mantissa(large, e),
{
    let s = step_units(e);
    lemma_pow2_pos(e + 125);
    lemma_div_is_ordered((2 * small + s) as int, (2 * large + s) as int, (2 * s) as int);
}

/// The decoded magnitude lies within half a step of the encoded one.
pub proof fn lemma_rounding_error(units: nat, e: nat)
    ensures
        2 * decoded_units(mantissa(units, e), e) <= 2 * units + step_units(e),
        2 * units < 2 * decoded_units(mantissa(units, e), e) + step_units(e),
{
    let s = step_units(e);
    let m = mantissa(units, e);
    lemma_pow2_pos(e + 125);
    lemma_fundamental_div_mod((2 * units + s) as int, (2 * s) as int);
    lemma_mod_bound((2 * units + s) as int, (2 * s) as int);
    let r = (2 * units + s) % (2 * s);
    assert(2 * (m * s) <= 2 * units + s && 2 * units < 2 * (m * s) + s) by (nonlinear_arith)
        requires
            2 * units + s == (2 * s) * m + r,
            0 <= r < 2 * s,
    ;
}

/// The mantissa computed from the fixed-point form with 25 fractional bits
/// equals the mantissa of the exact magnitude.
pub proof fn lemma_mantissa_of_fixed(units: nat, e: nat)
    ensures
        mantissa(units, e) == (fixed_of_units(units) + pow2(e)) / pow2(e + 1),
{
    let p = pow2(124);
    let h = pow2(e);
    let t = pow2(e + 1);
    let s = step_units(e);
    lemma_pow2_pos(124);
    lemma_pow2_pos(e);
    lemma_pow2_pos(e + 1);
    lemma_pow2_unfold(e + 1);
    lemma_pow2_adds(124, e + 1);
    assert(s == p * t);
    assert(p * t > 0) by (nonlinear_arith)
        requires
            p > 0,
            t > 0,
    ;
    assert(2 * units + s == (units + h * p) * 2) by (nonlinear_arith)
        requires
            s == p * t,
            t == 2 * h,
    ;
    lemma_cancel_common_factor(units + h * p, 2, p * t);
    assert(mantissa(units, e) == (units + h * p) / (p * t));
    lemma_div_denominator((units + h * p) as int, p as int, t as int);
    lemma_hoist_over_denominator(units as int, h as int, p);
}

/// The search for the fitting exponent ends at `target` when every earlier
/// exponent fails and `target` fits or is the last one.
proof fn lemma_least_fitting_is(units: nat, from: nat, target: nat)
    requires
        from <= target <= 31,
        forall|e: nat| from <= e < target ==> !#[trigger] fits(units, e),
        target == 31 || fits(units, target),
    ensures
        least_fitting(units, from) == target,
    decreases target - from,
{
    if from < target {
        assert(!fits(units, from));
        lemma_least_fitting_is(units, from + 1, target);
    }
}

/// What the search for the holding exponent finds when started at `from`.
proof fn lemma_least_holding_bounds(units: nat, from: nat)
    requires
        from <= 31,
        from > 0 ==> units >= pow2((from + 133) as nat),
        units < pow2(165),
    ensures
        from <= least_holding(units, from) <= 31,
        units < pow2(least_holding(units, from) + 134),
        least_holding(units, from) > 0 ==> units >= pow2((least_holding(units, from) + 133) as nat),
    decreases 31 - from,
{
    if from < 31 && units >= pow2(from + 134) {
        lemma_least_holding_bounds(units, from + 1);
    }
}

/// The clamped maximum lies below 2^16.
pub proof fn lemma_max_units_bound()
    ensures
        max_units() < pow2(165),
        max_units() == 511 * step_units(31),
{
    lemma2_to64();
    lemma_pow2_adds(9, 156);
    lemma_pow2_pos(156);
}

/// The candidate exponent brackets the magnitude: the value lies below
/// `2^(c - 15)` and, unless `c` is zero, at or above `2^(c - 16)`.
pub proof fn lemma_candidate_exponent(max: nat)
    requires
        max <= max_units(),
    ensures
        candidate_exponent(max) <= 31,
        max < 512 * step_units(candidate_exponent(max)),
        candidate_exponent(max) > 0 ==> max >= 256 * step_units(candidate_exponent(max)),
{
    let c = candidate_exponent(max);
    lemma_max_units_bound();
    lemma_least_holding_bounds(max, 0);
    lemma2_to64();
    lemma_pow2_adds(9, c + 125);
    if c > 0 {
        lemma_pow2_adds(8, c + 125);
    }
}

/// How the shared exponent follows from the candidate exponent: it is the
/// candidate unless the largest channel rounds up to 512 there, and then it
/// is one more, where that channel's mantissa is 256.
pub proof fn lemma_shared_exponent(max: nat)
    requires
        max <= max_units(),
    ensures
        shared_exponent(max) <= 31,
        fits(max, shared_exponent(max)),
        forall|e: nat| e < shared_exponent(max) ==> !#[trigger] fits(max, e),
        mantissa(max, candidate_exponent(max)) <= 512,
        mantissa(max, candidate_exponent(max)) <= 511 ==> shared_exponent(max)
            == candidate_exponent(max),
        mantissa(max, candidate_exponent(max)) == 512 ==> shared_exponent(max)
            == candidate_exponent(max) + 1 && mantissa(max, shared_exponent(max)) == 256,
{
    let c = candidate_exponent(max);
    let s = step_units(c);
    lemma_candidate_exponent(max);
    lemma_max_units_bound();
    lemma_pow2_pos(c + 125);
    // below the candidate no exponent fits
    assert forall|e: nat| e < c implies !#[trigger] fits(max, e) by {
        let se = step_units(e);
        lemma_pow2_adds(9, e + 125);
        lemma_pow2_adds(8, c + 125);
        lemma2_to64();
        assert(512 * se == pow2(e + 134));
        assert(256 * s == pow2(c + 133));
        if e + 1 < c {
            lemma_pow2_strictly_increases(e + 134, c + 133);
        }
        assert(max >= 512 * se);
        lemma_mantissa_at_least(max, e, 512);
        assert(2 * 512 * se == 1024 * se);
    }
    // at the candidate the mantissa is at most 512
    lemma_mantissa_at_least(max, c, 513);
    assert(2 * 513 * s == 1026 * s);
    lemma_mantissa_at_least(max, c, 512);
    assert(2 * 512 * s == 1024 * s);
    if mantissa(max, c) <= 511 {
        lemma_least_fitting_is(max, 0, c);
    } else {
        assert(2 * max + s >= 1024 * s);
        assert(c < 31);
        let s2 = step_units(c + 1);
        lemma_pow2_unfold(c + 126);
        assert(s2 == 2 * s);
        lemma_mantissa_at_least(max, c + 1, 256);
        assert(2 * 256 * s2 == 512 * s2);
        lemma_mantissa_at_least(max, c + 1, 257);
        assert(2 * 257 * s2 == 514 * s2);
        assert(mantissa(max, c + 1) == 256);
        lemma_least_fitting_is(max, 0, c + 1);
    }
}

/// The shared exponent is the smallest at which all three channels fit.
///
/// At the shared exponent of a pixel every channel's mantissa fits in nine
/// bits, and at no smaller exponent do all three fit.
pub proof fn lemma_shared_exponent_is_least(r: nat, g: nat, b: nat)
    requires
        r <= max_units(),
        g <= max_units(),
        b <= max_units(),
    ensures
        ({
            let e = shared_exponent(max3(r, g, b));
            &&& e <= 31
            &&& fits(r, e) && fits(g, e) && fits(b, e)
            &&& forall|smaller: nat|
                smaller < e ==> !(#[trigger] fits(r, smaller) && fits(g, smaller) && fits(
                    b,
                    smaller,
                ))
        }),
{
    let top = max3(r, g, b);
    let e = shared_exponent(top);
    lemma_shared_exponent(top);
    lemma_mantissa_monotonic(r, top, e);
    lemma_mantissa_monotonic(g, top, e);
    lemma_mantissa_monotonic(b, top, e);
    assert forall|smaller: nat| smaller < e implies !(#[trigger] fits(r, smaller) && fits(
        g,
        smaller,
    ) && fits(b, smaller)) by {
        assert(!fits(top, smaller));
    }
}

/// The largest of three fixed-point magnitudes.
fn largest(a: u64, b: u64, c: u64) -> (m: u64)
    ensures
        m == max3(a as nat, b as nat, c as nat),
{
    if a >= b && a >= c {
        a
    } else if b >= c {
        b
    } else {
        c
    }
}

/// Taking the fixed-point form commutes with taking the largest channel.
proof fn lemma_fixed_of_max(r: nat, g: nat, b: nat)
    ensures
        fixed_of_units(max3(r, g, b)) == max3(
            fixed_of_units(r),
            fixed_of_units(g),
            fixed_of_units(b),
        ),
{
    let p = pow2(124) as int;
    lemma_pow2_pos(124);
    let m = max3(r, g, b);
    lemma_div_is_ordered(r as int, m as int, p);
    lemma_div_is_ordered(g as int, m as int, p);
    lemma_div_is_ordered(b as int, m as int, p);
}

/// Finds the candidate exponent of a magnitude from its fixed-point form.
fn candidate_of_fixed(q: u64, Ghost(units): Ghost<nat>) -> (e: u32)
    requires
        q == fixed_of_units(units),
    ensures
        e == candidate_exponent(units),
        e <= 31,
{
    let mut e: u32 = 0;
    let mut bound: u64 = 0x400;
    proof {
        lemma2_to64();
        lemma_pow2_pos(124);
    }
    while e < 31 && q >= bound
        invariant
            e <= 31,
            bound == pow2((e + 10) as nat),
            q == fixed_of_units(units),
            candidate_exponent(units) == least_holding(units, e as nat),
            pow2(124) > 0,
        decreases 31 - e,
    {
        proof {
            lemma_quotient_at_least(units, pow2(124), pow2((e + 10) as nat));
            lemma_pow2_adds((e + 10) as nat, 124);
            lemma_pow2_unfold((e + 11) as nat);
            lemma_pow2_strictly_increases((e + 11) as nat, 64);
            lemma2_to64();
            assert(units >= pow2((e + 134) as nat));
        }
        bound = bound * 2;
        e = e + 1;
    }
    proof {
        lemma_quotient_at_least(units, pow2(124), pow2((e + 10) as nat));
        lemma_pow2_adds((e + 10) as nat, 124);
    }
    e
}

/// Rounds a magnitude in fixed-point form to its mantissa at exponent `e`.
fn round_fixed(q: u64, e: u32, Ghost(units): Ghost<nat>) -> (m: u64)
    requires
        q == fixed_of_units(units),
        q <= FIXED_MAX,
        e <= 31,
    ensures
        m == mantissa(units, e as nat),
{
    proof {
        lemma2_to64();
        lemma_pow2_pos(e as nat);
        if e < 31 {
            lemma_pow2_strictly_increases(e as nat, 31);
        }
        lemma_u64_shl_is_mul(1, e as u64);
        lemma_mantissa_of_fixed(units, e as nat);
    }
    let half: u64 = 1u64 << (e as u64);
    let sum: u64 = q + half;
    proof {
        lemma_u64_shr_is_div(sum, (e + 1) as u64);
    }
    sum >> ((e + 1) as u64)
}

/// Encodes one pixel, given by the binary32 patterns of its red, green and
/// blue samples, as an RGB9E5 word.
pub fn encode_pixel(red: u32, green: u32, blue: u32) -> (word: u32)
    ensures
        word == encoded_word(red, green, blue),
{
    let rq = clamped_fixed(red);
    let gq = clamped_fixed(green);
    let bq = clamped_fixed(blue);
    let ghost r = clamped_units(red);
    let ghost g = clamped_units(green);
    let ghost b = clamped_units(blue);
    let ghost top = max3(r, g, b);
    let top_q = largest(rq, gq, bq);
    proof {
        lemma_fixed_of_max(r, g, b);
        lemma_shared_exponent(top);
    }
    let candidate = candidate_of_fixed(top_q, Ghost(top));
    let top_m = round_fixed(top_q, candidate, Ghost(top));
    let e: u32 = if top_m > 511 {
        candidate + 1
    } else {
        candidate
    };
    assert(e == shared_exponent(top));
    let rm = round_fixed(rq, e, Ghost(r));
    let gm = round_fixed(gq, e, Ghost(g));
    let bm = round_fixed(bq, e, Ghost(b));
    proof {
        lemma_mantissa_monotonic(r, top, e as nat);
        lemma_mantissa_monotonic(g, top, e as nat);
        lemma_mantissa_monotonic(b, top, e as nat);
    }
    let word: u64 = rm + 0x200 * gm + 0x4_0000 * bm + 0x800_0000 * (e as u64);
    word as u32
}

} // verus!
