use cube2hdr::float32::Float32;
use cube2hdr::rgbe::{exp2i, float_to_rgbe, BLACK_LEVEL};

fn bits(v: f32) -> Float32 {
    Float32::from_bits(v.to_bits())
}

fn encode(r: f32, g: f32, b: f32) -> [u8; 4] {
    float_to_rgbe(bits(r), bits(g), bits(b))
}

/// Reference RGBE decode, used to check the round trip.
fn rgbe_to_float(p: [u8; 4]) -> [f32; 3] {
    if p[3] == 0 {
        return [0.0; 3];
    }
    let f = f32::from_bits(exp2i(p[3] as i32 - 128).to_bits()) / 256.0;
    [
        (p[0] as f32 + 0.5) * f,
        (p[1] as f32 + 0.5) * f,
        (p[2] as f32 + 0.5) * f,
    ]
}

#[test]
fn rgbe_round_trip_is_within_one_percent() {
    for &v in &[1e-3f32, 0.018, 0.5, 1.0, 12.5, 400.0, 65504.0] {
        let enc = encode(v, v * 0.5, v * 0.25);
        let dec = rgbe_to_float(enc);
        let err = (dec[0] - v).abs() / v;
        assert!(err < 0.01, "v={v} dec={:?} err={err}", dec);
    }
}

#[test]
fn zero_and_nan_encode_to_black() {
    assert_eq!(encode(0.0, 0.0, 0.0), [0, 0, 0, 0]);
    assert_eq!(encode(f32::NAN, 0.0, 0.0), [0, 0, 0, 0]);
    assert_eq!(encode(-1.0, -1.0, -1.0), [0, 0, 0, 0]);
}

#[test]
fn exact_pixels() {
    assert_eq!(encode(1.0, 0.5, 0.25), [128, 64, 32, 129]);
    assert_eq!(encode(0.25, 1.0, 0.5), [32, 128, 64, 129]);
    assert_eq!(encode(0.0, 0.0, 3.0), [0, 0, 192, 130]);
    assert_eq!(encode(0.75, 0.01, 0.0), [192, 2, 0, 128]);
}

#[test]
fn channels_that_are_negative_or_nan_vanish() {
    assert_eq!(encode(1.0, -5.0, f32::NAN), [128, 0, 0, 129]);
    assert_eq!(encode(f32::NAN, 2.0, f32::NEG_INFINITY), [0, 128, 0, 130]);
    assert_eq!(encode(-0.0, 2.0, 1e-40), [0, 128, 0, 130]);
}

#[test]
fn black_level_is_exclusive() {
    assert_eq!(BLACK_LEVEL, 1e-32f32.to_bits());
    assert_eq!(encode(1e-32, 0.0, 0.0), [0, 0, 0, 0]);
    let above = f32::from_bits(BLACK_LEVEL + 1);
    // 1e-32 lies between 2^-107 and 2^-106.
    assert_eq!(encode(above, 0.0, 0.0)[3], 22);
    assert!(encode(above, 0.0, 0.0)[0] >= 128);
}

#[test]
fn just_below_a_power_of_two_keeps_its_exponent() {
    assert_eq!(encode(65535.996, 0.0, 0.0), [255, 0, 0, 144]);
    assert_eq!(encode(65536.0, 0.0, 0.0), [128, 0, 0, 145]);
}

#[test]
fn largest_values_are_clamped() {
    assert_eq!(encode(f32::MAX, 0.0, 0.0), [255, 0, 0, 255]);
    let two_to_126 = 2f32.powi(126);
    assert_eq!(encode(two_to_126, 0.0, 0.0), [128, 0, 0, 255]);
    assert_eq!(encode(f32::INFINITY, 1.0, 1.0), [0, 0, 0, 0]);
}

#[test]
fn agrees_with_native_arithmetic() {
    for i in 1..20000u32 {
        let r = i as f32 * 0.01;
        let (g, b) = (r * 0.37, r * 1.21 - 3.0);
        let max = r.max(g).max(b);
        let e = max.log2().floor() as i32 + 1;
        let scale = 256.0 / 2f32.powi(e);
        let expected = [
            (r * scale).clamp(0.0, 255.0) as u8,
            (g * scale).clamp(0.0, 255.0) as u8,
            (b * scale).clamp(0.0, 255.0) as u8,
            (e + 128) as u8,
        ];
        assert_eq!(encode(r, g, b), expected, "{r} {g} {b}");
    }
}

#[test]
fn every_channel_is_within_half_a_step() {
    for i in 1..5000u32 {
        let c = [i as f32 * 0.7, i as f32 * 0.031, 5.0];
        let enc = encode(c[0], c[1], c[2]);
        let dec = rgbe_to_float(enc);
        let step = 2f32.powi(enc[3] as i32 - 128 - 8);
        for k in 0..3 {
            assert!((dec[k] - c[k]).abs() <= step / 2.0, "{c:?} {dec:?}");
        }
    }
}

#[test]
fn powers_of_two_are_exact() {
    for e in -126..=127 {
        assert_eq!(f32::from_bits(exp2i(e).to_bits()), 2f32.powi(e));
    }
}
