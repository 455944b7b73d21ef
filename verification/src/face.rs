//! One cube face, from a decoded image to linear light.

use crate::color::{total, Transfer};
use crate::float32::Float32;
use crate::text::{decimal, push_decimal};
use image::DynamicImage;
use vstd::prelude::*;
use vstd::string::StringExecFns;

verus! {

/// A decoded image of any pixel type.
#[verifier::external_type_specification]
#[verifier::external_body]
pub struct ExDynamicImage(image::DynamicImage);

/// How the pixels of a decoded image are stored.
#[derive(Copy, Clone, Debug, PartialEq, Eq, Structural)]
pub enum PixelLayout {
    Luma8,
    LumaA8,
    Rgb8,
    Rgba8,
    Luma16,
    LumaA16,
    Rgb16,
    Rgba16,
    Rgb32F,
    Rgba32F,
    /// A pixel type that is none of the above.
    Other,
}

/// The width of a decoded image, in pixels.
pub uninterp spec fn image_width(img: image::DynamicImage) -> u32;

/// The height of a decoded image, in pixels.
pub uninterp spec fn image_height(img: image::DynamicImage) -> u32;

/// How the pixels of a decoded image are stored.
pub uninterp spec fn image_layout(img: image::DynamicImage) -> PixelLayout;

/// The RGB channels of a decoded image as bytes, row-major and interleaved.
pub uninterp spec fn image_rgb8(img: image::DynamicImage) -> Seq<u8>;

/// The RGB channels of a decoded image as bit patterns of single-precision
/// values, row-major and interleaved.
pub uninterp spec fn image_rgb32f(img: image::DynamicImage) -> Seq<u32>;

/// `DynamicImage::width` gives the width that the image was made with.
pub assume_specification[ image::DynamicImage::width ](img: &image::DynamicImage) -> (r: u32)
    ensures
        r == image_width(*img),
;

/// `DynamicImage::height` gives the height that the image was made with.
pub assume_specification[ image::DynamicImage::height ](img: &image::DynamicImage) -> (r: u32)
    ensures
        r == image_height(*img),
;

/// Tells the variants of `DynamicImage` apart.
#[verifier::external_body]
fn pixel_layout(img: &DynamicImage) -> (r: PixelLayout)
    ensures
        r == image_layout(*img),
{
    match img {
        DynamicImage::ImageLuma8(_) => PixelLayout::Luma8,
        DynamicImage::ImageLumaA8(_) => PixelLayout::LumaA8,
        DynamicImage::ImageRgb8(_) => PixelLayout::Rgb8,
        DynamicImage::ImageRgba8(_) => PixelLayout::Rgba8,
        DynamicImage::ImageLuma16(_) => PixelLayout::Luma16,
        DynamicImage::ImageLumaA16(_) => PixelLayout::LumaA16,
        DynamicImage::ImageRgb16(_) => PixelLayout::Rgb16,
        DynamicImage::ImageRgba16(_) => PixelLayout::Rgba16,
        DynamicImage::ImageRgb32F(_) => PixelLayout::Rgb32F,
        DynamicImage::ImageRgba32F(_) => PixelLayout::Rgba32F,
        _ => PixelLayout::Other,
    }
}

/// `DynamicImage::to_rgb8`, and the buffer of the image that it returns: three
/// bytes for every pixel, at the least. How other pixel types become RGB bytes
/// is left unsaid, and so is what happens when memory runs out.
#[verifier::external_body]
fn to_rgb8(img: &DynamicImage) -> (r: Vec<u8>)
    ensures
        r@ == image_rgb8(*img),
        r@.len() >= 3 * image_width(*img) * image_height(*img),
{
    img.to_rgb8().into_raw()
}

/// `DynamicImage::to_rgb32f`, and the buffer of the image that it returns, value
/// by value as bit patterns: three for every pixel, at the least. How other
/// pixel types become single-precision values is left unsaid, and so is what
/// happens when memory runs out.
#[verifier::external_body]
fn to_rgb32f(img: &DynamicImage) -> (r: Vec<u32>)
    ensures
        r@ == image_rgb32f(*img),
        r@.len() >= 3 * image_width(*img) * image_height(*img),
{
    img.to_rgb32f().into_raw().into_iter().map(|v| v.to_bits()).collect()
}

impl PixelLayout {
    /// Whether every channel is one byte.
    pub open spec fn eight_bit(self) -> bool {
        ||| self == PixelLayout::Luma8
        ||| self == PixelLayout::LumaA8
        ||| self == PixelLayout::Rgb8
        ||| self == PixelLayout::Rgba8
    }

    /// Whether every channel is one byte.
    pub fn is_eight_bit(self) -> (r: bool)
        ensures
            r == self.eight_bit(),
    {
        match self {
            PixelLayout::Luma8 | PixelLayout::LumaA8 | PixelLayout::Rgb8 | PixelLayout::Rgba8 => true,
            _ => false,
        }
    }
}

/// A square face of linear light, row-major, RGB interleaved.
pub struct Face {
    pub data: Vec<Float32>,
    pub size: usize,
}

impl Face {
    /// Whether there is a pixel, and three values for each.
    pub open spec fn wf(self) -> bool {
        &&& self.size > 0
        &&& 3 * self.size * self.size <= self.data@.len()
    }
}

/// Why an image cannot be a face.
#[derive(Copy, Clone, Debug, PartialEq, Eq, Structural)]
pub enum FaceError {
    NotSquare { width: u32, height: u32 },
    Empty,
}

impl FaceError {
    /// What to tell the user about the image called `name`.
    pub open spec fn text(self, name: Seq<char>) -> Seq<char> {
        match self {
            FaceError::NotSquare { width, height } => name + ": faces must be square, got "@
                + decimal(width as nat) + "x"@ + decimal(height as nat),
            FaceError::Empty => name + ": empty image"@,
        }
    }

    /// What to tell the user about the image called `name`.
    pub fn message(&self, name: &str) -> (r: String)
        ensures
            r@ == self.text(name@),
    {
        let mut out: String = name.to_owned();
        match self {
            FaceError::NotSquare { width, height } => {
                out.append(": faces must be square, got ");
                push_decimal(&mut out, *width as u64);
                out.append("x");
                push_decimal(&mut out, *height as u64);
            },
            FaceError::Empty => {
                out.append(": empty image");
            },
        }
        out
    }
}

/// The side of a face, or why the dimensions are none.
pub open spec fn side_of(width: u32, height: u32) -> Result<u32, FaceError> {
    if width != height {
        Err(FaceError::NotSquare { width, height })
    } else if width == 0 {
        Err(FaceError::Empty)
    } else {
        Ok(width)
    }
}

/// The side of a face with these dimensions: they must agree and not be zero.
pub fn face_side(width: u32, height: u32) -> (r: Result<u32, FaceError>)
    ensures
        r == side_of(width, height),
{
    if width != height {
        return Err(FaceError::NotSquare { width, height });
    }
    if width == 0 {
        return Err(FaceError::Empty);
    }
    Ok(width)
}

/// Whether `data` is the linear light of 8-bit samples.
pub open spec fn linear_bytes<
    N: Fn(u8) -> Float32,
    L: Fn(Float32) -> Float32,
    P: Fn(Float32) -> Float32,
>(
    samples: Seq<u8>,
    transfer: Transfer,
    normalise: N,
    toe: L,
    power: P,
    data: Seq<Float32>,
) -> bool {
    &&& data.len() == samples.len()
    &&& forall|i: int|
        #![trigger data[i]]
        0 <= i < data.len() ==> transfer.linear_byte(samples[i], normalise, toe, power, data[i])
}

/// Whether `data` is the linear light of single-precision samples.
pub open spec fn linear_values<L: Fn(Float32) -> Float32, P: Fn(Float32) -> Float32>(
    samples: Seq<u32>,
    transfer: Transfer,
    toe: L,
    power: P,
    data: Seq<Float32>,
) -> bool {
    &&& data.len() == samples.len()
    &&& forall|i: int|
        #![trigger data[i]]
        0 <= i < data.len() ==> transfer.linear(
            Float32 { bits: samples[i] },
            toe,
            power,
            data[i],
        )
}

/// Linearise 8-bit samples through a lookup table, with no curve in the hot loop.
pub fn linearise_bytes<
    N: Fn(u8) -> Float32,
    L: Fn(Float32) -> Float32,
    P: Fn(Float32) -> Float32,
>(samples: &[u8], transfer: Transfer, normalise: &N, toe: &L, power: &P) -> (data: Vec<Float32>)
    requires
        forall|i: u8| call_requires(*normalise, (i,)),
        total(*toe, *power),
    ensures
        linear_bytes(samples@, transfer, *normalise, *toe, *power, data@),
{
    let lut: [Float32; 256] = transfer.lut(normalise, toe, power);
    let mut data: Vec<Float32> = Vec::with_capacity(samples.len());
    let mut i: usize = 0;
    while i < samples.len()
        invariant
            i <= samples@.len(),
            data@.len() == i,
            forall|k: u8|
                #![trigger lut@[k as int]]
                transfer.linear_byte(k, *normalise, *toe, *power, lut@[k as int]),
            forall|k: int|
                #![trigger data@[k]]
                0 <= k < i ==> transfer.linear_byte(
                    samples@[k],
                    *normalise,
                    *toe,
                    *power,
                    data@[k],
                ),
        decreases samples@.len() - i,
    {
        data.push(lut[samples[i] as usize]);
        i = i + 1;
    }
    data
}

/// Linearise single-precision samples one by one, at their full precision.
pub fn linearise_values<L: Fn(Float32) -> Float32, P: Fn(Float32) -> Float32>(
    samples: &[u32],
    transfer: Transfer,
    toe: &L,
    power: &P,
) -> (data: Vec<Float32>)
    requires
        total(*toe, *power),
    ensures
        linear_values(samples@, transfer, *toe, *power, data@),
{
    let mut data: Vec<Float32> = Vec::with_capacity(samples.len());
    let mut i: usize = 0;
    while i < samples.len()
        invariant
            i <= samples@.len(),
            data@.len() == i,
            total(*toe, *power),
            forall|k: int|
                #![trigger data@[k]]
                0 <= k < i ==> transfer.linear(
                    Float32 { bits: samples@[k] },
                    *toe,
                    *power,
                    data@[k],
                ),
        decreases samples@.len() - i,
    {
        data.push(transfer.apply(Float32 { bits: samples[i] }, toe, power));
        i = i + 1;
    }
    data
}

/// Turn a decoded image into a face of linear light.
///
/// 8-bit images go through a lookup table over `normalise`, which maps a byte to
/// the sample it stands for; deeper ones keep their precision. `toe` and `power`
/// are the two segments of the sRGB curve.
pub fn load_face<N: Fn(u8) -> Float32, L: Fn(Float32) -> Float32, P: Fn(Float32) -> Float32>(
    img: &DynamicImage,
    transfer: Transfer,
    normalise: &N,
    toe: &L,
    power: &P,
) -> (r: Result<Face, FaceError>)
    requires
        forall|i: u8| call_requires(*normalise, (i,)),
        total(*toe, *power),
    ensures
        match side_of(image_width(*img), image_height(*img)) {
            Err(e) => r == Err::<Face, FaceError>(e),
            Ok(side) => {
                &&& r matches Ok(face)
                &&& face.wf()
                &&& face.size == side
                &&& if image_layout(*img).eight_bit() {
                    linear_bytes(
                        image_rgb8(*img),
                        transfer,
                        *normalise,
                        *toe,
                        *power,
                        face.data@,
                    )
                } else {
                    linear_values(image_rgb32f(*img), transfer, *toe, *power, face.data@)
                }
            },
        },
{
    match face_side(img.width(), img.height()) {
        Err(e) => Err(e),
        Ok(side) => {
            let data: Vec<Float32> = if pixel_layout(img).is_eight_bit() {
                linearise_bytes(to_rgb8(img).as_slice(), transfer, normalise, toe, power)
            } else {
                linearise_values(to_rgb32f(img).as_slice(), transfer, toe, power)
            };
            Ok(Face { data, size: side as usize })
        },
    }
}

} // verus!
