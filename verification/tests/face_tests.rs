use cube2hdr::color::Transfer;
use cube2hdr::face::{face_side, linearise_bytes, linearise_values, load_face, Face, FaceError, PixelLayout};
use cube2hdr::float32::Float32;
use image::DynamicImage;

fn bits(v: f32) -> Float32 {
    Float32::from_bits(v.to_bits())
}

fn native(v: Float32) -> f32 {
    f32::from_bits(v.to_bits())
}

fn toe(c: Float32) -> Float32 {
    bits(native(c) / 12.92)
}

fn power(c: Float32) -> Float32 {
    bits(((native(c) + 0.055) / 1.055).powf(2.4))
}

fn normalise(byte: u8) -> Float32 {
    bits(byte as f32 / 255.0)
}

fn load(img: &DynamicImage, transfer: Transfer) -> Result<Face, FaceError> {
    load_face(img, transfer, &normalise, &toe, &power)
}

fn data(face: &Face) -> Vec<f32> {
    face.data.iter().map(|&v| native(v)).collect()
}

#[test]
fn rgb_bytes_are_kept() {
    let raw: Vec<u8> = vec![0, 51, 255, 10, 20, 30, 40, 50, 60, 70, 80, 90];
    let img = DynamicImage::ImageRgb8(image::RgbImage::from_raw(2, 2, raw.clone()).unwrap());
    let face = load(&img, Transfer::Linear).ok().unwrap();
    assert_eq!(face.size, 2);
    let expected: Vec<f32> = raw.iter().map(|&b| b as f32 / 255.0).collect();
    assert_eq!(data(&face), expected);
}

#[test]
fn gray_bytes_fill_three_channels() {
    let img = DynamicImage::ImageLuma8(image::GrayImage::from_raw(1, 1, vec![51]).unwrap());
    let face = load(&img, Transfer::Linear).ok().unwrap();
    assert_eq!(data(&face), vec![0.2, 0.2, 0.2]);
}

#[test]
fn alpha_is_dropped() {
    let rgba = image::RgbaImage::from_raw(1, 1, vec![255, 0, 51, 7]).unwrap();
    let face = load(&DynamicImage::ImageRgba8(rgba), Transfer::Linear).ok().unwrap();
    assert_eq!(data(&face), vec![1.0, 0.0, 0.2]);
    let gray = image::GrayAlphaImage::from_raw(1, 1, vec![51, 7]).unwrap();
    let face = load(&DynamicImage::ImageLumaA8(gray), Transfer::Linear).ok().unwrap();
    assert_eq!(data(&face), vec![0.2, 0.2, 0.2]);
}

#[test]
fn bytes_are_linearised() {
    let img = DynamicImage::ImageRgb8(image::RgbImage::from_raw(1, 1, vec![0, 255, 188]).unwrap());
    let face = load(&img, Transfer::Srgb).ok().unwrap();
    let c = 188.0f32 / 255.0;
    assert_eq!(data(&face), vec![0.0, 1.0, ((c + 0.055) / 1.055).powf(2.4)]);
}

#[test]
fn deep_images_keep_their_precision() {
    let deep = image::ImageBuffer::<image::Rgb<u16>, Vec<u16>>::from_raw(1, 1, vec![0, 65535, 257])
        .unwrap();
    let img = DynamicImage::ImageRgb16(deep);
    let expected = img.to_rgb32f().into_raw();
    let face = load(&img, Transfer::Linear).ok().unwrap();
    assert_eq!(data(&face), expected);
    assert_eq!(expected[0], 0.0);
    assert_eq!(expected[1], 1.0);
    assert!((expected[2] - 257.0 / 65535.0).abs() < 1e-7);

    let float = image::Rgb32FImage::from_raw(1, 1, vec![0.25, 7.5, -1.0]).unwrap();
    let face = load(&DynamicImage::ImageRgb32F(float), Transfer::Linear).ok().unwrap();
    assert_eq!(data(&face), vec![0.25, 7.5, -1.0]);
}

#[test]
fn deep_images_are_linearised() {
    let float = image::Rgb32FImage::from_raw(1, 1, vec![0.5, 0.01, 1.0]).unwrap();
    let face = load(&DynamicImage::ImageRgb32F(float), Transfer::Srgb).ok().unwrap();
    let half = ((0.5f32 + 0.055) / 1.055).powf(2.4);
    assert_eq!(data(&face), vec![half, 0.01f32 / 12.92, 1.0]);
}

#[test]
fn faces_must_be_square() {
    let img = DynamicImage::ImageRgb8(image::RgbImage::new(3, 2));
    let e = load(&img, Transfer::Srgb).err().unwrap();
    assert_eq!(e, FaceError::NotSquare { width: 3, height: 2 });
    assert_eq!(e.message("a.png"), "a.png: faces must be square, got 3x2");
}

#[test]
fn faces_must_not_be_empty() {
    let img = DynamicImage::ImageRgb8(image::RgbImage::new(0, 0));
    let e = load(&img, Transfer::Srgb).err().unwrap();
    assert_eq!(e, FaceError::Empty);
    assert_eq!(e.message("b.jpg"), "b.jpg: empty image");
}

#[test]
fn sides_are_checked() {
    assert_eq!(face_side(4, 4), Ok(4));
    assert_eq!(face_side(0, 4), Err(FaceError::NotSquare { width: 0, height: 4 }));
    assert_eq!(face_side(0, 0), Err(FaceError::Empty));
}

#[test]
fn byte_layouts_are_told_apart() {
    assert!(PixelLayout::Luma8.is_eight_bit());
    assert!(PixelLayout::LumaA8.is_eight_bit());
    assert!(PixelLayout::Rgb8.is_eight_bit());
    assert!(PixelLayout::Rgba8.is_eight_bit());
    for deep in [
        PixelLayout::Luma16,
        PixelLayout::LumaA16,
        PixelLayout::Rgb16,
        PixelLayout::Rgba16,
        PixelLayout::Rgb32F,
        PixelLayout::Rgba32F,
        PixelLayout::Other,
    ] {
        assert!(!deep.is_eight_bit());
    }
}

#[test]
fn lookup_and_curve_agree() {
    let bytes: Vec<u8> = (0..=255).collect();
    let values: Vec<u32> = bytes.iter().map(|&b| (b as f32 / 255.0).to_bits()).collect();
    for transfer in [Transfer::Srgb, Transfer::Linear] {
        assert_eq!(
            linearise_bytes(&bytes, transfer, &normalise, &toe, &power),
            linearise_values(&values, transfer, &toe, &power)
        );
    }
}
