//! Laws of settings, of output dimensions and of rendering.

use crate::float32::{function1, function2, lemma_magnitude_monotone, Float32};
use crate::panorama::lemma_exposed_is_fixed;
use crate::render::{
    added, check_sampling, check_threads, exposed, output_size, render, render_pixel, render_row,
    rendered, rendered_at, rendered_image, shaded, Output, SettingsError,
};
use vstd::arithmetic::power2::lemma2_to64;
use vstd::prelude::*;

verus! {

/// The number of threads is refused exactly where none are asked for.
pub proof fn law_threads(threads: Option<usize>, checked: Result<(), SettingsError>)
    requires
        call_ensures(check_threads, (threads,), checked),
    ensures
        match checked {
            Ok(()) => threads matches Some(n) ==> n >= 1,
            Err(e) => e is Threads && threads == Some(0usize),
        },
{
}

/// Grids from one to eight are accepted, with any exposure that is above zero and
/// finite: as a bit pattern, one from `1` to `0x7f7f_ffff`.
pub proof fn law_sampling(samples: u32, exposure: Float32, checked: Result<(), SettingsError>)
    requires
        call_ensures(check_sampling, (samples, exposure), checked),
    ensures
        match checked {
            Ok(()) => 1 <= samples <= 8 && 1 <= exposure.bits <= 0x7f7f_ffff,
            Err(SettingsError::Samples) => samples < 1 || samples > 8,
            Err(SettingsError::Exposure) => 1 <= samples <= 8 && (exposure.bits == 0 || exposure.bits
                > 0x7f7f_ffff),
            Err(_) => false,
        },
{
    lemma2_to64();
    if 0 < exposure.magnitude() <= 0x7f80_0000 {
        lemma_magnitude_monotone(0, exposure.magnitude());
    }
}

/// An output is as wide as it is asked to be, or four times as wide as a face, and
/// half as high; three values stand for each pixel. Refused are widths below two,
/// odd ones, and those whose values cannot be counted, in that order.
pub proof fn law_output_dimensions(
    face_size: u32,
    width: Option<u32>,
    sized: Result<Output, SettingsError>,
    asked: u32,
)
    requires
        call_ensures(output_size, (face_size, width), sized),
        match width {
            Some(w) => asked == w,
            None => asked == 4 * face_size || asked == u32::MAX && 4 * face_size > u32::MAX,
        },
    ensures
        match sized {
            Ok(out) => {
                &&& out.width == asked
                &&& 2 * out.height == out.width
                &&& out.height >= 1
                &&& out.values == 3 * out.width * out.height
            },
            Err(SettingsError::NarrowWidth) => asked == 0 || asked == 1,
            Err(SettingsError::OddWidth) => asked >= 3 && asked % 2 == 1,
            Err(SettingsError::Overflow) => asked >= 2 && asked % 2 == 0 && 3 * (asked * (asked
                / 2)) > usize::MAX,
            Err(_) => false,
        },
{
    let w = asked as int;
    assert(3 * (w * (w / 2)) == 3 * w * (w / 2)) by (nonlinear_arith);
}

/// Whether a way of shading gives one color for each subsample.
pub open spec fn function_of_place<S: Fn(usize, usize, u32, u32) -> [Float32; 3]>(shade: S) -> bool {
    forall|x: usize, y: usize, sx: u32, sy: u32, r: [Float32; 3], s: [Float32; 3]|
        #![trigger call_ensures(shade, (x, y, sx, sy), r), call_ensures(shade, (x, y, sx, sy), s)]
        call_ensures(shade, (x, y, sx, sy), r) && call_ensures(shade, (x, y, sx, sy), s) ==> r == s
}

/// A pixel is what is seen at its subsamples, row by row and left to right, added
/// up from zero on and scaled, in each channel by itself.
pub proof fn law_pixels_are_sums<
    S: Fn(usize, usize, u32, u32) -> [Float32; 3],
    A: Fn(Float32, Float32) -> Float32,
    N: Fn(Float32) -> Float32,
>(
    x: usize,
    y: usize,
    samples: u32,
    shade: S,
    plus: A,
    scale: N,
    pixel: [Float32; 3],
    colors: Seq<[Float32; 3]>,
    sums: Seq<Float32>,
    value: Float32,
    c: int,
)
    requires
        call_ensures(
            render_pixel::<S, A, N>,
            (x, y, samples, &shade, &plus, &scale),
            pixel,
        ),
        function_of_place(shade),
        function2(plus),
        function1(scale),
        colors.len() == samples * samples,
        forall|k: int|
            #![trigger colors[k]]
            0 <= k < colors.len() ==> call_ensures(
                shade,
                (x, y, (k % (samples as int)) as u32, (k / (samples as int)) as u32),
                colors[k],
            ),
        sums.len() == colors.len() + 1,
        sums[0].bits == 0,
        forall|k: int|
            #![trigger sums[k + 1]]
            0 <= k < colors.len() ==> call_ensures(plus, (sums[k], colors[k]@[c]), sums[k + 1]),
        call_ensures(scale, (sums.last(),), value),
        0 <= c < 3,
    ensures
        pixel@[c] == value,
{
    assert forall|k: int| #![trigger sums[k]] 1 <= k < sums.len() implies call_ensures(
        plus,
        (sums[k - 1], colors[k - 1]@[c]),
        sums[k],
    ) by {
        assert(sums[(k - 1) + 1] == sums[k]);
    }
    assert(added(plus, colors, c, sums));
    assert(exposed(plus, scale, colors, c, value));
    let own = choose|colors: Seq<[Float32; 3]>|
        #![trigger shaded(shade, x, y, samples, colors)]
        {
            &&& colors.len() == samples * samples
            &&& shaded(shade, x, y, samples, colors)
            &&& exposed(plus, scale, colors, 0, pixel@[0])
            &&& exposed(plus, scale, colors, 1, pixel@[1])
            &&& exposed(plus, scale, colors, 2, pixel@[2])
        };
    assert forall|k: int| 0 <= k < own.len() implies #[trigger] own[k]@[c] == colors[k]@[c] by {
        assert(own[k] == colors[k]);
    }
    lemma_exposed_is_fixed(plus, scale, own, colors, c, pixel@[c], value);
}

/// Two renderings of one pixel are the same.
proof fn lemma_rendering_is_fixed<
    S: Fn(usize, usize, u32, u32) -> [Float32; 3],
    A: Fn(Float32, Float32) -> Float32,
    N: Fn(Float32) -> Float32,
>(
    x: usize,
    y: usize,
    samples: u32,
    shade: S,
    plus: A,
    scale: N,
    p: (Float32, Float32, Float32),
    q: (Float32, Float32, Float32),
)
    requires
        function_of_place(shade),
        function2(plus),
        function1(scale),
        rendered(shade, plus, scale, x, y, samples, p.0, p.1, p.2),
        rendered(shade, plus, scale, x, y, samples, q.0, q.1, q.2),
    ensures
        p == q,
{
    let colors = choose|colors: Seq<[Float32; 3]>|
        #![trigger shaded(shade, x, y, samples, colors)]
        {
            &&& colors.len() == samples * samples
            &&& shaded(shade, x, y, samples, colors)
            &&& exposed(plus, scale, colors, 0, p.0)
            &&& exposed(plus, scale, colors, 1, p.1)
            &&& exposed(plus, scale, colors, 2, p.2)
        };
    let colors2 = choose|colors: Seq<[Float32; 3]>|
        #![trigger shaded(shade, x, y, samples, colors)]
        {
            &&& colors.len() == samples * samples
            &&& shaded(shade, x, y, samples, colors)
            &&& exposed(plus, scale, colors, 0, q.0)
            &&& exposed(plus, scale, colors, 1, q.1)
            &&& exposed(plus, scale, colors, 2, q.2)
        };
    assert forall|k: int| 0 <= k < colors.len() implies #[trigger] colors[k] == colors2[k] by {}
    assert(colors =~= colors2);
    lemma_exposed_is_fixed(plus, scale, colors, colors2, 0, p.0, q.0);
    lemma_exposed_is_fixed(plus, scale, colors, colors2, 1, p.1, q.1);
    lemma_exposed_is_fixed(plus, scale, colors, colors2, 2, p.2, q.2);
}

/// A row holds its pixels from left to right, three values for each.
pub proof fn law_rows_hold_their_pixels<
    S: Fn(usize, usize, u32, u32) -> [Float32; 3],
    A: Fn(Float32, Float32) -> Float32,
    N: Fn(Float32) -> Float32,
>(
    row: &mut [Float32],
    x: usize,
    y: usize,
    width: usize,
    samples: u32,
    shade: S,
    plus: A,
    scale: N,
    pixel: [Float32; 3],
    c: int,
)
    requires
        call_ensures(
            render_row::<S, A, N>,
            (row, y, width, samples, &shade, &plus, &scale),
            (),
        ),
        call_ensures(
            render_pixel::<S, A, N>,
            (x, y, samples, &shade, &plus, &scale),
            pixel,
        ),
        function_of_place(shade),
        function2(plus),
        function1(scale),
        x < width,
        0 <= c < 3,
    ensures
        final(row)@.len() == 3 * width,
        final(row)@[3 * x + c] == pixel@[c],
{
    let r = final(row)@;
    let first = r[3 * x];
    assert(rendered(shade, plus, scale, x, y, samples, r[3 * x], r[3 * x + 1], r[3 * x + 2]));
    lemma_rendering_is_fixed(
        x,
        y,
        samples,
        shade,
        plus,
        scale,
        (r[3 * x], r[3 * x + 1], r[3 * x + 2]),
        (pixel@[0], pixel@[1], pixel@[2]),
    );
}

/// An image holds its pixels row by row from the top, each row from left to right,
/// three values for each pixel.
pub proof fn law_images_hold_their_pixels<
    S: Fn(usize, usize, u32, u32) -> [Float32; 3] + Sync,
    A: Fn(Float32, Float32) -> Float32 + Sync,
    N: Fn(Float32) -> Float32 + Sync,
>(
    output: Output,
    samples: u32,
    shade: S,
    plus: A,
    scale: N,
    data: Vec<Float32>,
    x: usize,
    y: usize,
    pixel: [Float32; 3],
    c: int,
)
    requires
        call_ensures(render::<S, A, N>, (output, samples, &shade, &plus, &scale), data),
        call_ensures(
            render_pixel::<S, A, N>,
            (x, y, samples, &shade, &plus, &scale),
            pixel,
        ),
        function_of_place(shade),
        function2(plus),
        function1(scale),
        x < output.width,
        y < output.height,
        0 <= c < 3,
    ensures
        data@.len() == output.width * output.height * 3,
        data@[3 * (y * output.width + x) + c] == pixel@[c],
{
    let stride = 3 * output.width as int;
    assert(y * stride + 3 * x == 3 * (y * output.width + x)) by (nonlinear_arith)
        requires
            stride == 3 * output.width,
    ;
    let o = y * stride + 3 * x;
    assert(rendered_image(shade, plus, scale, data@, output, samples));
    assert(rendered_at(shade, plus, scale, data@, 3 * output.width, x, y, samples));
    lemma_rendering_is_fixed(
        x,
        y,
        samples,
        shade,
        plus,
        scale,
        (data@[o], data@[o + 1], data@[o + 2]),
        (pixel@[0], pixel@[1], pixel@[2]),
    );
}

} // verus!
