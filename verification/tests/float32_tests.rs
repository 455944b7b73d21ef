use cube2hdr::float32::Float32;

fn bits(v: f32) -> Float32 {
    Float32::from_bits(v.to_bits())
}

fn values() -> Vec<f32> {
    let mut v = vec![
        0.0,
        -0.0,
        1.0,
        -1.0,
        0.5,
        -0.5,
        1.5,
        -1.5,
        0.99999994,
        -0.99999994,
        1e-45,
        -1e-45,
        f32::MIN_POSITIVE,
        f32::MAX,
        f32::MIN,
        f32::INFINITY,
        f32::NEG_INFINITY,
        f32::NAN,
        -f32::NAN,
        8388607.5,
        -8388607.5,
        8388608.0,
        16777216.0,
        -16777216.0,
        2147483520.0,
        2147483648.0,
        -2147483648.0,
        -2147483904.0,
        3e9,
        -3e9,
    ];
    let mut state: u32 = 1;
    for _ in 0..300 {
        state = state.wrapping_mul(1664525).wrapping_add(1013904223);
        v.push(f32::from_bits(state));
    }
    for i in -40..40 {
        v.push(i as f32 * 0.25);
        v.push(i as f32 * 1234.567);
    }
    v
}

#[test]
fn order_is_the_native_order() {
    for &a in &values() {
        for &b in &values() {
            assert_eq!(bits(a).less(bits(b)), a < b, "{a} < {b}");
            assert_eq!(bits(a).at_most(bits(b)), a <= b, "{a} <= {b}");
        }
    }
}

#[test]
fn max_is_the_native_max() {
    for &a in &values() {
        for &b in &values() {
            let m = f32::from_bits(bits(a).max(bits(b)).to_bits());
            let n = a.max(b);
            assert!(m == n || (m.is_nan() && n.is_nan()), "{a} {b}");
        }
    }
}

#[test]
fn signs_and_classes_are_native() {
    for &a in &values() {
        assert_eq!(bits(a).abs().to_bits(), a.abs().to_bits());
        assert_eq!(bits(a).neg().to_bits(), (-a).to_bits());
        assert_eq!(bits(a).is_nan(), a.is_nan());
        assert_eq!(bits(a).is_finite(), a.is_finite());
    }
}

#[test]
fn floor_is_the_native_floor() {
    for &a in &values() {
        assert_eq!(bits(a).floor_to_i32(), a.floor() as i32, "{a}");
    }
    assert_eq!(bits(-0.25).floor_to_i32(), -1);
    assert_eq!(bits(f32::NAN).floor_to_i32(), 0);
    assert_eq!(bits(1e20).floor_to_i32(), i32::MAX);
    assert_eq!(bits(-1e20).floor_to_i32(), i32::MIN);
}
