use cube2hdr::float32::Float32;
use cube2hdr::render::{
    check_sampling, check_threads, output_size, render, render_pixel, render_row, Output, SettingsError,
};

fn bits(v: f32) -> Float32 {
    Float32::from_bits(v.to_bits())
}

fn native(v: Float32) -> f32 {
    f32::from_bits(v.to_bits())
}

fn plus(a: Float32, b: Float32) -> Float32 {
    bits(native(a) + native(b))
}

fn color(x: usize, y: usize, sx: u32, sy: u32) -> [f32; 3] {
    [
        x as f32 * 10.0 + sx as f32,
        y as f32 * 10.0 + sy as f32,
        (x * 3 + y * 5) as f32 + (sx * 7 + sy * 11) as f32,
    ]
}

fn shade(x: usize, y: usize, sx: u32, sy: u32) -> [Float32; 3] {
    color(x, y, sx, sy).map(bits)
}

fn expected(x: usize, y: usize, samples: u32, norm: f32) -> [f32; 3] {
    let mut acc = [0.0f32; 3];
    for sy in 0..samples {
        for sx in 0..samples {
            let c = color(x, y, sx, sy);
            for k in 0..3 {
                acc[k] += c[k];
            }
        }
    }
    acc.map(|v| v * norm)
}

#[test]
fn threads_must_not_be_zero() {
    assert_eq!(check_threads(None), Ok(()));
    assert_eq!(check_threads(Some(1)), Ok(()));
    assert_eq!(check_threads(Some(0)), Err(SettingsError::Threads));
    assert_eq!(SettingsError::Threads.message(), "--threads must be at least 1");
}

#[test]
fn samples_must_be_in_range() {
    for n in 1..=8 {
        assert_eq!(check_sampling(n, bits(1.0)), Ok(()));
    }
    assert_eq!(check_sampling(0, bits(1.0)), Err(SettingsError::Samples));
    assert_eq!(check_sampling(9, bits(-1.0)), Err(SettingsError::Samples));
    assert_eq!(SettingsError::Samples.message(), "--samples must be between 1 and 8");
}

#[test]
fn exposure_must_be_positive_and_finite() {
    assert_eq!(check_sampling(2, bits(1e-40)), Ok(()));
    assert_eq!(check_sampling(2, bits(f32::MAX)), Ok(()));
    for bad in [0.0, -0.0, -1.0, f32::INFINITY, f32::NEG_INFINITY, f32::NAN] {
        assert_eq!(check_sampling(2, bits(bad)), Err(SettingsError::Exposure));
    }
    assert_eq!(
        SettingsError::Exposure.message(),
        "--exposure must be a positive, finite number"
    );
}

#[test]
fn default_width_is_four_faces() {
    assert_eq!(output_size(512, None), Ok(Output { width: 2048, height: 1024, values: 6291456 }));
    assert_eq!(output_size(1, None), Ok(Output { width: 4, height: 2, values: 24 }));
}

#[test]
fn requested_width_is_kept() {
    assert_eq!(output_size(512, Some(2)), Ok(Output { width: 2, height: 1, values: 6 }));
    assert_eq!(output_size(0, Some(100)), Ok(Output { width: 100, height: 50, values: 15000 }));
}

#[test]
fn width_must_be_two_at_least() {
    assert_eq!(output_size(512, Some(0)), Err(SettingsError::NarrowWidth));
    assert_eq!(output_size(512, Some(1)), Err(SettingsError::NarrowWidth));
    assert_eq!(output_size(0, None), Err(SettingsError::NarrowWidth));
    assert_eq!(SettingsError::NarrowWidth.message(), "--width must be at least 2");
}

#[test]
fn width_must_be_even() {
    assert_eq!(output_size(512, Some(101)), Err(SettingsError::OddWidth));
    // Four times the side no longer fits, and the widest width is odd.
    assert_eq!(output_size(u32::MAX, None), Err(SettingsError::OddWidth));
    assert_eq!(
        SettingsError::OddWidth.message(),
        "--width must be even so that height = width/2 is exact"
    );
}

#[test]
fn output_must_fit_into_memory() {
    assert_eq!(output_size(1, Some(u32::MAX - 1)), Err(SettingsError::Overflow));
    assert_eq!(
        SettingsError::Overflow.message(),
        "output dimensions overflow addressable memory"
    );
}

#[test]
fn height_is_half_the_width() {
    for w in (2..2000).step_by(2) {
        let out = output_size(7, Some(w)).unwrap();
        assert_eq!(out.width, 2 * out.height);
        assert_eq!(out.values, out.width as usize * out.height as usize * 3);
    }
}

#[test]
fn pixels_add_up_their_subsamples() {
    let scale = |v: Float32| bits(native(v) * 0.25);
    for samples in 1..=4 {
        let got = render_pixel(3, 5, samples, &shade, &plus, &scale).map(native);
        assert_eq!(got, expected(3, 5, samples, 0.25));
    }
}

#[test]
fn subsamples_come_row_by_row() {
    let last = |_: Float32, b: Float32| b;
    let same = |v: Float32| v;
    let got = render_pixel(0, 0, 3, &shade, &last, &same).map(native);
    assert_eq!(got, color(0, 0, 2, 2));
    let weigh = |a: Float32, b: Float32| bits(native(a) * 10.0 + native(b));
    let got = render_pixel(0, 0, 2, &shade, &weigh, &same).map(native);
    assert_eq!((got[0], got[1]), (101.0, 11.0));
}

#[test]
fn rows_are_rendered_pixel_by_pixel() {
    let scale = |v: Float32| bits(native(v) * 0.5);
    let mut row = vec![bits(-1.0); 12];
    render_row(&mut row, 6, 4, 2, &shade, &plus, &scale);
    for x in 0..4 {
        let got = [native(row[3 * x]), native(row[3 * x + 1]), native(row[3 * x + 2])];
        assert_eq!(got, expected(x, 6, 2, 0.5));
    }
}

#[test]
fn images_are_rendered_row_by_row() {
    let output = output_size(3, Some(10)).unwrap();
    let scale = |v: Float32| bits(native(v) * 2.0);
    let data = render(output, 2, &shade, &plus, &scale);
    assert_eq!(data.len(), 150);
    for y in 0..5 {
        for x in 0..10 {
            let o = (y * 10 + x) * 3;
            let got = [native(data[o]), native(data[o + 1]), native(data[o + 2])];
            assert_eq!(got, expected(x, y, 2, 2.0));
        }
    }
}
