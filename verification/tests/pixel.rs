use rgb9e5_ktx2::decode::{decode_channel, decode_pixel, unpack, Fields};
use rgb9e5_ktx2::binary32::{clamped_fixed, compose, FIXED_MAX};
use rgb9e5_ktx2::rgb9e5::encode_pixel;

fn encode(red: f32, green: f32, blue: f32) -> u32 {
    encode_pixel(red.to_bits(), green.to_bits(), blue.to_bits())
}

fn word(red: u32, green: u32, blue: u32, exponent: u32) -> u32 {
    red | green << 9 | blue << 18 | exponent << 27
}

#[test]
fn zero_pixel_encodes_to_zero_word() {
    assert_eq!(encode_pixel(0, 0, 0), 0);
    assert_eq!(encode(0.0, 0.0, 0.0), 0);
}

#[test]
fn negative_zero_encodes_to_zero_word() {
    assert_eq!(encode(-0.0, -0.0, -0.0), 0);
}

#[test]
fn unit_white_pixel() {
    assert_eq!(encode(1.0, 1.0, 1.0), word(256, 256, 256, 16));
    assert_eq!(encode(1.0, 1.0, 1.0), 0x8402_0100);
}

#[test]
fn channels_share_the_exponent_of_the_largest() {
    assert_eq!(encode(1.0, 0.5, 0.25), word(256, 128, 64, 16));
    assert_eq!(encode(0.5, 0.25, 0.125), word(256, 128, 64, 15));
    assert_eq!(encode(100.0, 1000.0, 10000.0), word(3, 31, 313, 29));
    assert_eq!(encode(0.1, 0.2, 0.3), word(102, 205, 307, 14));
}

#[test]
fn encoding_is_deterministic() {
    let samples = [0.1f32, 0.9995, 3.5, 1.0e-6, 65000.0, 7.25];
    for &r in samples.iter() {
        for &g in samples.iter() {
            for &b in samples.iter() {
                assert_eq!(encode(r, g, b), encode(r, g, b));
            }
        }
    }
}

#[test]
fn mantissa_that_rounds_to_512_raises_the_exponent() {
    // 0.9995 * 2^9 = 511.744 rounds to 512 at exponent 15
    assert_eq!(encode(0.9995, 0.0, 0.0), word(256, 0, 0, 16));
    // 255.75 * 2 = 511.5 rounds to 512 at exponent 23
    assert_eq!(encode(255.75, 1.0, 0.0), word(256, 1, 0, 24));
    assert_eq!(encode(511.5, 0.0, 0.0), word(256, 0, 0, 25));
    // just below the half: stays at the candidate exponent
    assert_eq!(encode(511.0, 0.0, 0.0), word(511, 0, 0, 24));
}

#[test]
fn mantissas_never_leave_their_fields() {
    let mut bits: u32 = 0x3000_0000;
    while bits < 0x4800_0000 {
        let fields = unpack(encode_pixel(bits, bits / 3, bits / 7));
        assert!(fields.red <= 511);
        assert!(fields.green <= 511);
        assert!(fields.blue <= 511);
        assert!(fields.exponent <= 31);
        bits += 0x0000_7fff;
    }
}

#[test]
fn halves_round_up() {
    // at exponent 16 one step is 2^-8
    assert_eq!(encode(1.0, 1.5 / 256.0, 0.5 / 256.0), word(256, 2, 1, 16));
    assert_eq!(encode(1.0, 0.49 / 256.0, 2.5 / 256.0), word(256, 0, 3, 16));
}

#[test]
fn values_at_or_above_the_maximum_saturate() {
    let max = word(511, 0, 0, 31);
    assert_eq!(encode(65408.0, 0.0, 0.0), max);
    assert_eq!(encode(1.0e6, 1.0, 0.0), max);
    assert_eq!(encode(f32::MAX, 0.0, 0.0), max);
    assert_eq!(encode(65407.9, 65000.0, 0.0), word(511, 508, 0, 31));
}

#[test]
fn negative_and_non_finite_channels_count_as_zero() {
    assert_eq!(encode(-1.0, 2.0, 0.0), word(0, 256, 0, 17));
    assert_eq!(encode(f32::INFINITY, 1.0, 0.0), word(0, 256, 0, 16));
    assert_eq!(encode(f32::NAN, f32::NAN, 2.0), word(0, 0, 256, 17));
    assert_eq!(encode(f32::NEG_INFINITY, -0.0, 0.5), word(0, 0, 256, 15));
    assert_eq!(encode(f32::NAN, f32::INFINITY, -3.0), 0);
}

#[test]
fn smallest_magnitudes() {
    // one step at exponent 0 is 2^-24
    assert_eq!(encode(2.0f32.powi(-25), 0.0, 0.0), word(1, 0, 0, 0));
    assert_eq!(encode(2.0f32.powi(-26), 0.0, 0.0), 0);
    let step = 2.0f32.powi(-24);
    assert_eq!(encode(0.75 * step, 1.5 * step, 2.49 * step), word(1, 2, 2, 0));
    // subnormal samples vanish
    assert_eq!(encode_pixel(1, 1, 1), 0);
    assert_eq!(encode_pixel(0x007f_ffff, 0, 0), 0);
}

#[test]
fn clamped_fixed_keeps_25_fractional_bits() {
    assert_eq!(clamped_fixed(1.0f32.to_bits()), 1 << 25);
    assert_eq!(clamped_fixed(0.5f32.to_bits()), 1 << 24);
    assert_eq!(clamped_fixed(1.5f32.to_bits()), 3 << 24);
    assert_eq!(clamped_fixed(2.0f32.powi(-25).to_bits()), 1);
    assert_eq!(clamped_fixed(2.0f32.powi(-26).to_bits()), 0);
    assert_eq!(clamped_fixed(65408.0f32.to_bits()), FIXED_MAX);
    assert_eq!(clamped_fixed(70000.0f32.to_bits()), FIXED_MAX);
    // the largest sample below the maximum: 65408 - 2^-8
    assert_eq!(clamped_fixed(0x477f_7fff), FIXED_MAX - (1 << 17));
    assert_eq!(clamped_fixed((-1.0f32).to_bits()), 0);
    assert_eq!(clamped_fixed(f32::NAN.to_bits()), 0);
    assert_eq!(clamped_fixed(f32::INFINITY.to_bits()), 0);
}

#[test]
fn compose_normalises_the_significand() {
    assert_eq!(f32::from_bits(compose(3, 149)), 3.0);
    assert_eq!(f32::from_bits(compose(1, 149)), 1.0);
    assert_eq!(f32::from_bits(compose(0x60, 144)), 3.0);
    assert_eq!(compose(1, 23), 0x0080_0000);
    assert_eq!(compose(0x80_0000, 23), 0x0c00_0000);
    assert_eq!(compose(0xff_ffff, 253), f32::MAX.to_bits());
}

#[test]
fn unpack_splits_the_word() {
    assert_eq!(
        unpack(0xece4_3e03),
        Fields { red: 3, green: 31, blue: 313, exponent: 29 }
    );
    assert_eq!(
        unpack(0xffff_ffff),
        Fields { red: 511, green: 511, blue: 511, exponent: 31 }
    );
    assert_eq!(unpack(0), Fields { red: 0, green: 0, blue: 0, exponent: 0 });
}

#[test]
fn decode_channel_gives_mantissa_times_step() {
    assert_eq!(f32::from_bits(decode_channel(256, 16)), 1.0);
    assert_eq!(f32::from_bits(decode_channel(511, 31)), 65408.0);
    assert_eq!(f32::from_bits(decode_channel(1, 0)), 2.0f32.powi(-24));
    assert_eq!(f32::from_bits(decode_channel(3, 24)), 3.0);
    assert_eq!(decode_channel(0, 17), 0);
    assert_eq!(f32::from_bits(decode_channel(313, 29)), 10016.0);
}

#[test]
fn decode_pixel_reads_all_three_channels() {
    let (r, g, b) = decode_pixel(word(256, 128, 64, 16));
    assert_eq!(f32::from_bits(r), 1.0);
    assert_eq!(f32::from_bits(g), 0.5);
    assert_eq!(f32::from_bits(b), 0.25);
}

#[test]
fn round_trip_stays_within_half_a_step() {
    let samples = [
        0.0f32, 1.0e-9, 3.0e-8, 1.0e-5, 0.001, 0.1, 0.2, 0.3, 0.9995, 1.0, 1.7, 255.75, 1000.0,
        30000.0, 65407.9, 65408.0,
    ];
    for &r in samples.iter() {
        for &g in samples.iter() {
            for &b in samples.iter() {
                let packed = encode(r, g, b);
                let exponent = unpack(packed).exponent as i32;
                let half_step = 2.0f64.powi(exponent - 25);
                let top = r.max(g).max(b) as f64;
                let (dr, dg, db) = decode_pixel(packed);
                for (sample, decoded) in [(r, dr), (g, dg), (b, db)] {
                    let error = (f32::from_bits(decoded) as f64 - sample as f64).abs();
                    assert!(error <= half_step);
                    if top >= 2.0f64.powi(-16) {
                        assert!(511.0 * error <= top);
                    }
                }
            }
        }
    }
}

#[test]
fn round_trip_of_clamped_values() {
    let (r, g, b) = decode_pixel(encode(1.0e9, -5.0, f32::NAN));
    assert_eq!(f32::from_bits(r), 65408.0);
    assert_eq!(f32::from_bits(g), 0.0);
    assert_eq!(f32::from_bits(b), 0.0);
}

/// The encoding as it is usually written down, with floating-point
/// arithmetic: every step is exact in binary64 for binary32 samples.
fn encode_with_floats(red: u32, green: u32, blue: u32) -> u32 {
    let clamp = |bits: u32| -> f64 {
        let value = f32::from_bits(bits);
        if !value.is_finite() || value <= 0.0 {
            0.0
        } else if value >= 65408.0 {
            65408.0
        } else {
            value as f64
        }
    };
    let (r, g, b) = (clamp(red), clamp(green), clamp(blue));
    let top = r.max(g).max(b);
    // floor(log2(top)), read off the exponent field of the binary32 value
    let log2 = (((top as f32).to_bits() >> 23) & 0xff) as i32 - 127;
    let mut exponent = log2.max(-16) + 1 + 15;
    let mut step = 2.0f64.powi(exponent - 15 - 9);
    if (top / step + 0.5).floor() == 512.0 {
        step *= 2.0;
        exponent += 1;
    }
    let mantissa = |value: f64| -> u32 { (value / step + 0.5).floor() as u32 };
    mantissa(r) | mantissa(g) << 9 | mantissa(b) << 18 | (exponent as u32) << 27
}

#[test]
fn encode_pixel_agrees_with_the_float_algorithm() {
    let mut state: u64 = 0x9e37_79b9_7f4a_7c15;
    let mut next = move || -> u32 {
        state = state.wrapping_mul(6364136223846793005).wrapping_add(1442695040888963407);
        (state >> 32) as u32
    };
    for _ in 0..200_000 {
        // any patterns at all, then patterns in the range that the format resolves
        let (r, g, b) = (next(), next(), next());
        assert_eq!(encode_pixel(r, g, b), encode_with_floats(r, g, b));
        let near = |bits: u32| 0x3000_0000 + bits % 0x1800_0000;
        let (r, g, b) = (near(next()), near(next()), near(next()));
        assert_eq!(encode_pixel(r, g, b), encode_with_floats(r, g, b));
    }
}

#[test]
fn encode_pixel_agrees_with_the_float_algorithm_at_the_edges() {
    let mut edges: Vec<u32> = vec![0, 1, 0x007f_ffff, 0x0080_0000, 0x7f7f_ffff, 0x7f80_0000, 0x7fc0_0000];
    for exponent in 100u32..146 {
        for fraction in [0u32, 1, 0x3f_ffff, 0x40_0000, 0x7f_7fff, 0x7f_8000, 0x7f_bfff, 0x7f_c000, 0x7f_ffff] {
            edges.push(exponent << 23 | fraction);
        }
    }
    for &r in edges.iter().step_by(3) {
        for &g in edges.iter().step_by(5) {
            for &b in edges.iter().step_by(7) {
                assert_eq!(encode_pixel(r, g, b), encode_with_floats(r, g, b));
                assert_eq!(encode_pixel(g, b, r), encode_with_floats(g, b, r));
            }
        }
    }
    for &top in edges.iter() {
        assert_eq!(encode_pixel(top, 0, 0), encode_with_floats(top, 0, 0));
        assert_eq!(encode_pixel(0, top, top), encode_with_floats(0, top, top));
    }
}
