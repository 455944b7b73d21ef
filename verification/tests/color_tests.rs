use cube2hdr::color::{srgb_to_linear, Transfer, TOE_END};
use cube2hdr::float32::Float32;

fn bits(v: f32) -> Float32 {
    Float32::from_bits(v.to_bits())
}

fn native(v: Float32) -> f32 {
    f32::from_bits(v.to_bits())
}

fn toe(c: Float32) -> Float32 {
    bits(native(c) / 12.92)
}

fn power(c: Float32) -> Float32 {
    bits(((native(c) + 0.055) / 1.055).powf(2.4))
}

fn normalise(byte: u8) -> Float32 {
    bits(byte as f32 / 255.0)
}

fn reference(c: f32) -> f32 {
    if c <= 0.040_448_237 {
        c / 12.92
    } else {
        ((c + 0.055) / 1.055).powf(2.4)
    }
}

#[test]
fn toe_ends_where_the_curve_says() {
    assert_eq!(TOE_END, 0.040_448_237f32.to_bits());
    let mark_toe = |_: Float32| bits(1.0);
    let mark_power = |_: Float32| bits(2.0);
    let segment = |c: f32| native(srgb_to_linear(bits(c), &mark_toe, &mark_power));
    assert_eq!(segment(0.0), 1.0);
    assert_eq!(segment(-3.0), 1.0);
    assert_eq!(segment(0.040_448_237), 1.0);
    assert_eq!(segment(f32::from_bits(TOE_END + 1)), 2.0);
    assert_eq!(segment(1.0), 2.0);
    assert_eq!(segment(f32::NAN), 2.0);
}

#[test]
fn curve_is_the_native_curve() {
    for i in 0..2000 {
        let c = i as f32 * 0.0007;
        assert_eq!(native(srgb_to_linear(bits(c), &toe, &power)), reference(c));
        assert_eq!(native(Transfer::Srgb.apply(bits(c), &toe, &power)), reference(c));
    }
    assert_eq!(native(srgb_to_linear(bits(1.0), &toe, &power)), 1.0);
}

#[test]
fn linear_passes_through() {
    for &c in &[0.0f32, -1.0, 0.3, 1.0, 70.0] {
        assert_eq!(native(Transfer::Linear.apply(bits(c), &toe, &power)), c);
    }
}

#[test]
fn lut_is_exact_for_bytes() {
    let srgb = Transfer::Srgb.lut(&normalise, &toe, &power);
    let linear = Transfer::Linear.lut(&normalise, &toe, &power);
    for i in 0..256 {
        assert_eq!(native(srgb[i]), reference(i as f32 / 255.0));
        assert_eq!(native(linear[i]), i as f32 / 255.0);
    }
}

#[test]
fn lut_looks_up_what_apply_computes() {
    for transfer in [Transfer::Srgb, Transfer::Linear] {
        let lut = transfer.lut(&normalise, &toe, &power);
        for i in 0..=255u8 {
            assert_eq!(lut[i as usize], transfer.apply(normalise(i), &toe, &power));
        }
    }
}

#[test]
fn lut_runs_from_dark_to_bright() {
    for transfer in [Transfer::Srgb, Transfer::Linear] {
        let lut = transfer.lut(&normalise, &toe, &power);
        assert_eq!(native(lut[0]), 0.0);
        assert_eq!(native(lut[255]), 1.0);
        for i in 1..256 {
            assert!(native(lut[i - 1]) < native(lut[i]));
        }
    }
}
