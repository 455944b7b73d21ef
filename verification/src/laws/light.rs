//! Laws of linearising samples and of loading faces.

use crate::color::{srgb_to_linear, Transfer};
use crate::face::{
    face_side, image_height, image_layout, image_rgb32f, image_rgb8, image_width, linearise_bytes,
    linearise_values, load_face, Face, FaceError, PixelLayout,
};
use crate::float32::{function1, zero, Float32};
use crate::laws::coding::{is_decimal, lemma_is_decimal};
use crate::laws::number::law_units_of_bits;
use crate::text::{decimal, number};
use image::DynamicImage;
use vstd::prelude::*;

verus! {

/// Whether bytes stand for one sample each.
pub open spec fn function_of_byte<N: Fn(u8) -> Float32>(normalise: N) -> bool {
    forall|i: u8, r: Float32, s: Float32|
        #![trigger call_ensures(normalise, (i,), r), call_ensures(normalise, (i,), s)]
        call_ensures(normalise, (i,), r) && call_ensures(normalise, (i,), s) ==> r == s
}

/// The samples up to `0.040448237`, all negative ones included, are ordered
/// before the end of the toe.
proof fn lemma_toe(c: Float32)
    ensures
        crate::color::on_toe(c) <==> c.bits <= 0x3d25_ad0d || 0x8000_0000 <= c.bits <= 0xff80_0000,
{
    let end = Float32 { bits: 0x3d25_ad0d };
    if c.magnitude() > 0 && c.magnitude() <= 0x7f80_0000 {
        crate::float32::lemma_magnitude_monotone(0, c.magnitude());
    }
    crate::float32::lemma_magnitude_monotone(0, 0x3d25_ad0d);
    if c.bits < 0x3d25_ad0d {
        crate::float32::lemma_magnitude_monotone(c.bits as int, 0x3d25_ad0d);
    }
    if 0x3d25_ad0d < c.bits <= 0x7f80_0000 {
        crate::float32::lemma_magnitude_monotone(0x3d25_ad0d, c.bits as int);
    }
    law_units_of_bits(zero(), zero());
    assert(end.units() == crate::float32::magnitude_units(0x3d25_ad0d));
}

/// Up to `0.040448237` a sample goes along the straight toe, and above it along
/// the power segment: whatever holds of all results of a segment holds of the
/// curve there.
pub proof fn law_curve_has_two_segments<L: Fn(Float32) -> Float32, P: Fn(Float32) -> Float32>(
    c: Float32,
    toe: L,
    power: P,
    light: Float32,
    holds: spec_fn(Float32) -> bool,
)
    requires
        call_ensures(srgb_to_linear::<L, P>, (c, &toe, &power), light),
    ensures
        c.bits <= 0x3d25_ad0d || 0x8000_0000 <= c.bits <= 0xff80_0000 ==> (forall|r: Float32| #[trigger]
            call_ensures(toe, (c,), r) ==> holds(r)) ==> holds(light),
        0x3d25_ad0d < c.bits < 0x8000_0000 || c.bits > 0xff80_0000 ==> (forall|r: Float32| #[trigger]
            call_ensures(power, (c,), r) ==> holds(r)) ==> holds(light),
{
    lemma_toe(c);
}

/// The curve rises wherever its segments do: along the toe, along the power
/// segment, and from one to the other. Bit patterns below `0x7f80_0001` are the
/// samples from zero on, in order.
pub proof fn law_curve_rises<L: Fn(Float32) -> Float32, P: Fn(Float32) -> Float32>(
    c: Float32,
    d: Float32,
    toe: L,
    power: P,
    light: Float32,
    more: Float32,
)
    requires
        call_ensures(srgb_to_linear::<L, P>, (c, &toe, &power), light),
        call_ensures(srgb_to_linear::<L, P>, (d, &toe, &power), more),
        c.bits < d.bits <= 0x7f80_0000,
        forall|r: Float32, s: Float32|
            #![trigger call_ensures(toe, (c,), r), call_ensures(toe, (d,), s)]
            call_ensures(toe, (c,), r) && call_ensures(toe, (d,), s) ==> r.lt(s),
        forall|r: Float32, s: Float32|
            #![trigger call_ensures(power, (c,), r), call_ensures(power, (d,), s)]
            call_ensures(power, (c,), r) && call_ensures(power, (d,), s) ==> r.lt(s),
        forall|r: Float32, s: Float32|
            #![trigger call_ensures(toe, (c,), r), call_ensures(power, (d,), s)]
            call_ensures(toe, (c,), r) && call_ensures(power, (d,), s) ==> r.lt(s),
    ensures
        light.lt(more),
{
    lemma_toe(c);
    lemma_toe(d);
}

/// Linear samples pass through, whatever they are; sRGB samples go through the
/// curve.
pub proof fn law_transfers<L: Fn(Float32) -> Float32, P: Fn(Float32) -> Float32>(
    c: Float32,
    toe: L,
    power: P,
    linear: Float32,
    srgb: Float32,
    curve: Float32,
)
    requires
        function1(toe),
        function1(power),
        call_ensures(Transfer::apply::<L, P>, (Transfer::Linear, c, &toe, &power), linear),
        call_ensures(Transfer::apply::<L, P>, (Transfer::Srgb, c, &toe, &power), srgb),
        call_ensures(srgb_to_linear::<L, P>, (c, &toe, &power), curve),
    ensures
        linear == c,
        srgb == curve,
{
}

/// The table holds, for every byte, what the transfer gives for the sample that
/// the byte stands for.
pub proof fn law_table_applies_the_transfer<
    N: Fn(u8) -> Float32,
    L: Fn(Float32) -> Float32,
    P: Fn(Float32) -> Float32,
>(
    transfer: Transfer,
    byte: u8,
    normalise: N,
    toe: L,
    power: P,
    table: [Float32; 256],
    sample: Float32,
    light: Float32,
)
    requires
        function_of_byte(normalise),
        function1(toe),
        function1(power),
        call_ensures(Transfer::lut::<N, L, P>, (transfer, &normalise, &toe, &power), table),
        call_ensures(normalise, (byte,), sample),
        call_ensures(Transfer::apply::<L, P>, (transfer, sample, &toe, &power), light),
    ensures
        table@[byte as int] == light,
{
    let entry = table@[byte as int];
    assert(transfer.linear_byte(byte, normalise, toe, power, entry));
}

/// However many bytes there are, each becomes what the transfer gives for the
/// sample that it stands for, in its place.
pub proof fn law_bytes_are_linearised<
    N: Fn(u8) -> Float32,
    L: Fn(Float32) -> Float32,
    P: Fn(Float32) -> Float32,
>(
    samples: &[u8],
    i: int,
    transfer: Transfer,
    normalise: N,
    toe: L,
    power: P,
    data: Vec<Float32>,
    sample: Float32,
    light: Float32,
)
    requires
        function_of_byte(normalise),
        function1(toe),
        function1(power),
        call_ensures(
            linearise_bytes::<N, L, P>,
            (samples, transfer, &normalise, &toe, &power),
            data,
        ),
        0 <= i < samples@.len(),
        call_ensures(normalise, (samples@[i],), sample),
        call_ensures(Transfer::apply::<L, P>, (transfer, sample, &toe, &power), light),
    ensures
        data@.len() == samples@.len(),
        data@[i] == light,
{
    assert(transfer.linear_byte(samples@[i], normalise, toe, power, data@[i]));
}

/// What becomes of a byte has nothing to do with the other bytes, nor with how
/// many they are: alone, or at another place of another image, it becomes the same.
pub proof fn law_bytes_stand_alone<
    N: Fn(u8) -> Float32,
    L: Fn(Float32) -> Float32,
    P: Fn(Float32) -> Float32,
>(
    samples: &[u8],
    others: &[u8],
    i: int,
    k: int,
    transfer: Transfer,
    normalise: N,
    toe: L,
    power: P,
    data: Vec<Float32>,
    data2: Vec<Float32>,
)
    requires
        function_of_byte(normalise),
        function1(toe),
        function1(power),
        call_ensures(
            linearise_bytes::<N, L, P>,
            (samples, transfer, &normalise, &toe, &power),
            data,
        ),
        call_ensures(
            linearise_bytes::<N, L, P>,
            (others, transfer, &normalise, &toe, &power),
            data2,
        ),
        0 <= i < samples@.len(),
        0 <= k < others@.len(),
        samples@[i] == others@[k],
    ensures
        data@[i] == data2@[k],
{
    assert(transfer.linear_byte(samples@[i], normalise, toe, power, data@[i]));
    assert(transfer.linear_byte(others@[k], normalise, toe, power, data2@[k]));
}

/// Bytes that already hold linear light become the samples that they stand for,
/// and sRGB bytes those samples along the curve.
pub proof fn law_bytes_under_both_transfers<
    N: Fn(u8) -> Float32,
    L: Fn(Float32) -> Float32,
    P: Fn(Float32) -> Float32,
>(
    samples: &[u8],
    i: int,
    normalise: N,
    toe: L,
    power: P,
    linear: Vec<Float32>,
    srgb: Vec<Float32>,
    curve: Float32,
)
    requires
        function1(toe),
        function1(power),
        call_ensures(
            linearise_bytes::<N, L, P>,
            (samples, Transfer::Linear, &normalise, &toe, &power),
            linear,
        ),
        call_ensures(
            linearise_bytes::<N, L, P>,
            (samples, Transfer::Srgb, &normalise, &toe, &power),
            srgb,
        ),
        function_of_byte(normalise),
        0 <= i < samples@.len(),
        call_ensures(srgb_to_linear::<L, P>, (linear@[i], &toe, &power), curve),
    ensures
        call_ensures(normalise, (samples@[i],), linear@[i]),
        srgb@[i] == curve,
{
    assert(Transfer::Linear.linear_byte(samples@[i], normalise, toe, power, linear@[i]));
    assert(Transfer::Srgb.linear_byte(samples@[i], normalise, toe, power, srgb@[i]));
}

/// However many single-precision samples there are, each becomes what the
/// transfer gives for it, in its place.
pub proof fn law_values_are_linearised<L: Fn(Float32) -> Float32, P: Fn(Float32) -> Float32>(
    samples: &[u32],
    i: int,
    transfer: Transfer,
    toe: L,
    power: P,
    data: Vec<Float32>,
    light: Float32,
)
    requires
        function1(toe),
        function1(power),
        call_ensures(linearise_values::<L, P>, (samples, transfer, &toe, &power), data),
        0 <= i < samples@.len(),
        call_ensures(
            Transfer::apply::<L, P>,
            (transfer, (Float32 { bits: samples@[i] }), &toe, &power),
            light,
        ),
    ensures
        data@.len() == samples@.len(),
        data@[i] == light,
        transfer == Transfer::Linear ==> data@[i].bits == samples@[i],
{
    let v = data@[i];
}

/// What becomes of a single-precision sample has nothing to do with the others.
pub proof fn law_values_stand_alone<L: Fn(Float32) -> Float32, P: Fn(Float32) -> Float32>(
    samples: &[u32],
    others: &[u32],
    i: int,
    k: int,
    transfer: Transfer,
    toe: L,
    power: P,
    data: Vec<Float32>,
    data2: Vec<Float32>,
)
    requires
        function1(toe),
        function1(power),
        call_ensures(linearise_values::<L, P>, (samples, transfer, &toe, &power), data),
        call_ensures(linearise_values::<L, P>, (others, transfer, &toe, &power), data2),
        0 <= i < samples@.len(),
        0 <= k < others@.len(),
        samples@[i] == others@[k],
    ensures
        data@[i] == data2@[k],
{
    let (v, w) = (data@[i], data2@[k]);
}

/// A face has a side exactly where its width and height agree and are not zero.
/// Where they disagree both are named, and only an image without pixels is empty.
pub proof fn law_faces_are_square(width: u32, height: u32, side: Result<u32, FaceError>)
    requires
        call_ensures(face_side, (width, height), side),
    ensures
        match side {
            Ok(n) => n > 0 && n == width && n == height,
            Err(FaceError::NotSquare { width: w, height: h }) => w != h && w == width && h
                == height,
            Err(FaceError::Empty) => width == 0 && height == 0,
        },
{
}

/// The layouts that are not eight bits deep are the deeper ones and the unknown.
pub proof fn law_deep_layouts(layout: PixelLayout, eight: bool)
    requires
        call_ensures(PixelLayout::is_eight_bit, (layout,), eight),
    ensures
        !eight <==> {
            ||| layout is Luma16
            ||| layout is LumaA16
            ||| layout is Rgb16
            ||| layout is Rgba16
            ||| layout is Rgb32F
            ||| layout is Rgba32F
            ||| layout is Other
        },
{
}

/// A square image with pixels becomes a face of its size, and no other image
/// becomes one.
pub proof fn law_square_images_are_loaded<
    N: Fn(u8) -> Float32,
    L: Fn(Float32) -> Float32,
    P: Fn(Float32) -> Float32,
>(
    img: DynamicImage,
    transfer: Transfer,
    normalise: N,
    toe: L,
    power: P,
    loaded: Result<Face, FaceError>,
)
    requires
        call_ensures(
            load_face::<N, L, P>,
            (&img, transfer, &normalise, &toe, &power),
            loaded,
        ),
    ensures
        ({
            let (w, h) = (image_width(img), image_height(img));
            match loaded {
                Ok(face) => w == h && w > 0 && face.size == w && face.data@.len() >= 3 * w * h,
                Err(FaceError::NotSquare { width, height }) => w != h && width == w && height == h,
                Err(FaceError::Empty) => w == 0 && h == 0,
            }
        }),
{
}

/// A face that is loaded holds what its samples are linearised to: bytes where
/// the image has one byte for each channel, and single-precision values where it
/// is deeper.
pub proof fn law_faces_hold_linear_light<
    N: Fn(u8) -> Float32,
    L: Fn(Float32) -> Float32,
    P: Fn(Float32) -> Float32,
>(
    img: DynamicImage,
    transfer: Transfer,
    normalise: N,
    toe: L,
    power: P,
    face: Face,
    i: int,
    sample: Float32,
    light: Float32,
)
    requires
        function_of_byte(normalise),
        function1(toe),
        function1(power),
        call_ensures(
            load_face::<N, L, P>,
            (&img, transfer, &normalise, &toe, &power),
            Ok::<Face, FaceError>(face),
        ),
        0 <= i < face.data@.len(),
        match image_layout(img) {
            PixelLayout::Luma8 | PixelLayout::LumaA8 | PixelLayout::Rgb8 | PixelLayout::Rgba8 => {
                call_ensures(normalise, (image_rgb8(img)[i],), sample)
            },
            _ => sample.bits == image_rgb32f(img)[i],
        },
        call_ensures(Transfer::apply::<L, P>, (transfer, sample, &toe, &power), light),
    ensures
        face.data@[i] == light,
        match image_layout(img) {
            PixelLayout::Luma8 | PixelLayout::LumaA8 | PixelLayout::Rgb8 | PixelLayout::Rgba8 => {
                face.data@.len() == image_rgb8(img).len()
            },
            _ => face.data@.len() == image_rgb32f(img).len(),
        },
{
    let v = face.data@[i];
    if image_layout(img).eight_bit() {
        assert(transfer.linear_byte(image_rgb8(img)[i], normalise, toe, power, v));
    }
}

/// The message about an image starts with its name; where the image is not
/// square, its width and height stand in it in decimal, in that order.
pub proof fn law_face_errors_are_told(error: FaceError, name: &str, message: String)
    requires
        call_ensures(FaceError::message, (&error, name), message),
    ensures
        match error {
            FaceError::Empty => message@ == name@ + ": empty image"@,
            FaceError::NotSquare { width, height } => exists|w: Seq<char>, h: Seq<char>|
                {
                    &&& #[trigger] is_decimal(w) && number(w) == width
                    &&& #[trigger] is_decimal(h) && number(h) == height
                    &&& message@ == name@ + ": faces must be square, got "@ + w + "x"@ + h
                },
        },
{
    if let FaceError::NotSquare { width, height } = error {
        lemma_is_decimal(width as nat);
        lemma_is_decimal(height as nat);
        assert(is_decimal(decimal(width as nat)) && is_decimal(decimal(height as nat)));
    }
}

} // verus!
