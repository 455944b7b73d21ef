//! Settings of a conversion, and the supersampled rendering of its rows.

use crate::float32::{zero, Float32, INFINITE};
use rayon::iter::{IndexedParallelIterator, ParallelIterator};
use rayon::slice::ParallelSliceMut;
use vstd::arithmetic::div_mod::lemma_fundamental_div_mod_converse;
use vstd::prelude::*;

verus! {

/// Finest supersampling grid.
pub const MAX_SAMPLES: u32 = 8;

/// Texels of output per texel of face side, unless a width is asked for: keeps
/// the equatorial band at roughly the source sampling rate.
pub const DEFAULT_SCALE: u32 = 4;

/// Why a conversion cannot be carried out as asked.
#[derive(Copy, Clone, Debug, PartialEq, Eq, Structural)]
pub enum SettingsError {
    Threads,
    Samples,
    Exposure,
    NarrowWidth,
    OddWidth,
    Overflow,
}

impl SettingsError {
    /// What to tell the user.
    pub open spec fn text(self) -> Seq<char> {
        match self {
            SettingsError::Threads => "--threads must be at least 1"@,
            SettingsError::Samples => "--samples must be between 1 and 8"@,
            SettingsError::Exposure => "--exposure must be a positive, finite number"@,
            SettingsError::NarrowWidth => "--width must be at least 2"@,
            SettingsError::OddWidth => "--width must be even so that height = width/2 is exact"@,
            SettingsError::Overflow => "output dimensions overflow addressable memory"@,
        }
    }

    /// What to tell the user.
    pub fn message(&self) -> (r: &'static str)
        ensures
            r@ == self.text(),
    {
        match self {
            SettingsError::Threads => "--threads must be at least 1",
            SettingsError::Samples => "--samples must be between 1 and 8",
            SettingsError::Exposure => "--exposure must be a positive, finite number",
            SettingsError::NarrowWidth => "--width must be at least 2",
            SettingsError::OddWidth => "--width must be even so that height = width/2 is exact",
            SettingsError::Overflow => "output dimensions overflow addressable memory",
        }
    }
}

/// A number of worker threads, where one is asked for, must not be zero.
pub fn check_threads(threads: Option<usize>) -> (r: Result<(), SettingsError>)
    ensures
        r == if threads == Some(0usize) {
            Err(SettingsError::Threads)
        } else {
            Ok::<(), SettingsError>(())
        },
{
    match threads {
        Some(n) => if n == 0 {
            Err(SettingsError::Threads)
        } else {
            Ok(())
        },
        None => Ok(()),
    }
}

/// The supersampling grid and the exposure must be in range; of two bad
/// settings, the grid is named.
pub fn check_sampling(samples: u32, exposure: Float32) -> (r: Result<(), SettingsError>)
    ensures
        r == if !(1 <= samples <= MAX_SAMPLES) {
            Err(SettingsError::Samples)
        } else if !(zero().lt(exposure) && exposure.magnitude() < INFINITE) {
            Err(SettingsError::Exposure)
        } else {
            Ok::<(), SettingsError>(())
        },
{
    if samples < 1 || samples > MAX_SAMPLES {
        return Err(SettingsError::Samples);
    }
    let nothing: Float32 = Float32 { bits: 0 };
    if !exposure.is_finite() || !nothing.less(exposure) {
        return Err(SettingsError::Exposure);
    }
    Ok(())
}

/// The dimensions of the output, and the number of values that it holds.
#[derive(Copy, Clone, Debug, PartialEq, Eq, Structural)]
pub struct Output {
    pub width: u32,
    pub height: u32,
    pub values: usize,
}

/// The width that is asked for, or four times the face side, as far as it goes.
pub open spec fn requested_width(face_size: u32, width: Option<u32>) -> int {
    match width {
        Some(w) => w as int,
        None => if DEFAULT_SCALE * face_size > u32::MAX {
            u32::MAX as int
        } else {
            DEFAULT_SCALE * face_size
        },
    }
}

/// The output for faces of a size and a requested width. The height is half the
/// width, three values make a pixel.
pub open spec fn output_of(face_size: u32, width: Option<u32>) -> Result<Output, SettingsError> {
    let w = requested_width(face_size, width);
    let values = 3 * (w * (w / 2));
    if w < 2 {
        Err(SettingsError::NarrowWidth)
    } else if w % 2 != 0 {
        Err(SettingsError::OddWidth)
    } else if values > usize::MAX {
        Err(SettingsError::Overflow)
    } else {
        Ok(Output { width: w as u32, height: (w / 2) as u32, values: values as usize })
    }
}

/// The height of an output is exactly half its width, and neither is zero.
pub proof fn law_height_is_half(face_size: u32, width: Option<u32>)
    ensures
        output_of(face_size, width) matches Ok(out) ==> {
            &&& out.width == 2 * out.height
            &&& out.height >= 1
            &&& out.values == 3 * out.width * out.height
        },
{
    let w = requested_width(face_size, width);
    assert(3 * (w * (w / 2)) == 3 * w * (w / 2)) by (nonlinear_arith);
}

/// Without a requested width, faces of less than a quarter of the widest image
/// give an output of four times their side, where it fits into memory.
pub proof fn law_default_width(face_size: u32)
    requires
        0 < face_size < 0x4000_0000,
        24 * face_size * face_size <= usize::MAX,
    ensures
        output_of(face_size, None) matches Ok(out) && out.width == 4 * face_size && out.height == 2
            * face_size,
{
    let w = requested_width(face_size, None);
    assert(w == 4 * face_size);
    assert(3 * (w * (w / 2)) == 24 * face_size * face_size) by (nonlinear_arith)
        requires
            w == 4 * face_size,
            w / 2 == 2 * face_size,
    ;
}

/// Choose the dimensions of the output.
pub fn output_size(face_size: u32, width: Option<u32>) -> (r: Result<Output, SettingsError>)
    ensures
        r == output_of(face_size, width),
{
    let width: u32 = match width {
        Some(w) => w,
        None => match face_size.checked_mul(DEFAULT_SCALE) {
            Some(w) => w,
            None => u32::MAX,
        },
    };
    if width < 2 {
        return Err(SettingsError::NarrowWidth);
    }
    if width % 2 != 0 {
        return Err(SettingsError::OddWidth);
    }
    let height: u32 = width / 2;
    match (width as usize).checked_mul(height as usize) {
        None => Err(SettingsError::Overflow),
        Some(pixels) => match pixels.checked_mul(3) {
            None => Err(SettingsError::Overflow),
            Some(values) => Ok(Output { width, height, values }),
        },
    }
}

/// Whether `colors` are what is seen at the subsamples of pixel `(x, y)`: a grid
/// of `samples` by `samples`, row by row.
pub open spec fn shaded<S: Fn(usize, usize, u32, u32) -> [Float32; 3]>(
    shade: S,
    x: usize,
    y: usize,
    samples: u32,
    colors: Seq<[Float32; 3]>,
) -> bool {
    forall|k: int|
        #![trigger colors[k]]
        0 <= k < colors.len() ==> call_ensures(
            shade,
            (x, y, (k % (samples as int)) as u32, (k / (samples as int)) as u32),
            colors[k],
        )
}

/// Whether `sums` starts with zero and goes on by adding one channel of the
/// colors in order.
pub open spec fn added<A: Fn(Float32, Float32) -> Float32>(
    plus: A,
    colors: Seq<[Float32; 3]>,
    c: int,
    sums: Seq<Float32>,
) -> bool {
    &&& sums.len() == colors.len() + 1
    &&& sums[0] == zero()
    &&& forall|n: int|
        #![trigger sums[n]]
        1 <= n < sums.len() ==> call_ensures(plus, (sums[n - 1], colors[n - 1]@[c]), sums[n])
}

/// Whether `r` is one channel of the colors, added up and scaled.
pub open spec fn exposed<A: Fn(Float32, Float32) -> Float32, N: Fn(Float32) -> Float32>(
    plus: A,
    scale: N,
    colors: Seq<[Float32; 3]>,
    c: int,
    r: Float32,
) -> bool {
    exists|sums: Seq<Float32>|
        #![trigger added(plus, colors, c, sums)]
        added(plus, colors, c, sums) && call_ensures(scale, (sums.last(),), r)
}

/// Whether the pixel at `(x, y)` holds, in each channel, what is seen at all its
/// subsamples, added up and scaled.
pub open spec fn rendered<
    S: Fn(usize, usize, u32, u32) -> [Float32; 3],
    A: Fn(Float32, Float32) -> Float32,
    N: Fn(Float32) -> Float32,
>(
    shade: S,
    plus: A,
    scale: N,
    x: usize,
    y: usize,
    samples: u32,
    r: Float32,
    g: Float32,
    b: Float32,
) -> bool {
    exists|colors: Seq<[Float32; 3]>|
        #![trigger shaded(shade, x, y, samples, colors)]
        {
            &&& colors.len() == samples * samples
            &&& shaded(shade, x, y, samples, colors)
            &&& exposed(plus, scale, colors, 0, r)
            &&& exposed(plus, scale, colors, 1, g)
            &&& exposed(plus, scale, colors, 2, b)
        }
}

/// Render one pixel: what `shade(x, y, sx, sy)` sees at the subsamples of a grid
/// of `samples` by `samples`, added up with `plus` and brought down by `scale`.
#[inline]
pub fn render_pixel<
    S: Fn(usize, usize, u32, u32) -> [Float32; 3],
    A: Fn(Float32, Float32) -> Float32,
    N: Fn(Float32) -> Float32,
>(x: usize, y: usize, samples: u32, shade: &S, plus: &A, scale: &N) -> (color: [Float32; 3])
    requires
        forall|x: usize, y: usize, sx: u32, sy: u32| call_requires(*shade, (x, y, sx, sy)),
        forall|a: Float32, b: Float32| call_requires(*plus, (a, b)),
        forall|a: Float32| call_requires(*scale, (a,)),
    ensures
        rendered(*shade, *plus, *scale, x, y, samples, color@[0], color@[1], color@[2]),
{
    let mut r: Float32 = Float32 { bits: 0 };
    let mut g: Float32 = Float32 { bits: 0 };
    let mut b: Float32 = Float32 { bits: 0 };
    let ghost mut colors: Seq<[Float32; 3]> = Seq::empty();
    let ghost mut rs: Seq<Float32> = seq![zero()];
    let ghost mut gs: Seq<Float32> = seq![zero()];
    let ghost mut bs: Seq<Float32> = seq![zero()];
    let mut sy: u32 = 0;
    while sy < samples
        invariant
            sy <= samples,
            forall|x: usize, y: usize, sx: u32, sy: u32| call_requires(*shade, (x, y, sx, sy)),
            forall|a: Float32, b: Float32| call_requires(*plus, (a, b)),
            colors.len() == sy * samples,
            shaded(*shade, x, y, samples, colors),
            added(*plus, colors, 0, rs),
            added(*plus, colors, 1, gs),
            added(*plus, colors, 2, bs),
            rs.last() == r,
            gs.last() == g,
            bs.last() == b,
        decreases samples - sy,
    {
        let mut sx: u32 = 0;
        while sx < samples
            invariant
                sx <= samples,
                sy < samples,
                forall|x: usize, y: usize, sx: u32, sy: u32| call_requires(*shade, (x, y, sx, sy)),
                forall|a: Float32, b: Float32| call_requires(*plus, (a, b)),
                colors.len() == sy * samples + sx,
                shaded(*shade, x, y, samples, colors),
                added(*plus, colors, 0, rs),
                added(*plus, colors, 1, gs),
                added(*plus, colors, 2, bs),
                rs.last() == r,
                gs.last() == g,
                bs.last() == b,
            decreases samples - sx,
        {
            let color: [Float32; 3] = shade(x, y, sx, sy);
            let ghost before = colors;
            r = plus(r, color[0]);
            g = plus(g, color[1]);
            b = plus(b, color[2]);
            proof {
                let k = colors.len() as int;
                lemma_fundamental_div_mod_converse(k, samples as int, sy as int, sx as int);
                colors = before.push(color);
                assert forall|i: int| #![trigger colors[i]] 0 <= i < colors.len() implies call_ensures(
                    *shade,
                    (x, y, (i % (samples as int)) as u32, (i / (samples as int)) as u32),
                    colors[i],
                ) by {
                    if i < k {
                        assert(colors[i] == before[i]);
                    }
                }
                lemma_added_push(*plus, before, color, 0, rs, r);
                lemma_added_push(*plus, before, color, 1, gs, g);
                lemma_added_push(*plus, before, color, 2, bs, b);
                rs = rs.push(r);
                gs = gs.push(g);
                bs = bs.push(b);
            }
            sx = sx + 1;
        }
        proof {
            assert((sy + 1) * samples == sy * samples + samples) by (nonlinear_arith);
        }
        sy = sy + 1;
    }
    let out: [Float32; 3] = [scale(r), scale(g), scale(b)];
    proof {
        assert(exposed(*plus, *scale, colors, 0, out@[0]));
        assert(exposed(*plus, *scale, colors, 1, out@[1]));
        assert(exposed(*plus, *scale, colors, 2, out@[2]));
    }
    out
}

/// One more color adds one more sum.
proof fn lemma_added_push<A: Fn(Float32, Float32) -> Float32>(
    plus: A,
    colors: Seq<[Float32; 3]>,
    color: [Float32; 3],
    c: int,
    sums: Seq<Float32>,
    sum: Float32,
)
    requires
        0 <= c < 3,
        added(plus, colors, c, sums),
        call_ensures(plus, (sums.last(), color@[c]), sum),
    ensures
        added(plus, colors.push(color), c, sums.push(sum)),
{
    let (more, longer) = (colors.push(color), sums.push(sum));
    assert forall|n: int| #![trigger longer[n]] 1 <= n < longer.len() implies call_ensures(
        plus,
        (longer[n - 1], more[n - 1]@[c]),
        longer[n],
    ) by {
        assert(longer[n - 1] == sums[n - 1]);
        if n < sums.len() {
            assert(longer[n] == sums[n]);
            assert(more[n - 1] == colors[n - 1]);
        }
    }
}

/// Render row `y` of the output, three values for each pixel.
pub fn render_row<
    S: Fn(usize, usize, u32, u32) -> [Float32; 3],
    A: Fn(Float32, Float32) -> Float32,
    N: Fn(Float32) -> Float32,
>(row: &mut [Float32], y: usize, width: usize, samples: u32, shade: &S, plus: &A, scale: &N)
    requires
        old(row)@.len() == 3 * width,
        forall|x: usize, y: usize, sx: u32, sy: u32| call_requires(*shade, (x, y, sx, sy)),
        forall|a: Float32, b: Float32| call_requires(*plus, (a, b)),
        forall|a: Float32| call_requires(*scale, (a,)),
    ensures
        final(row)@.len() == 3 * width,
        forall|x: usize|
            #![trigger final(row)@[3 * x]]
            x < width ==> rendered(
                *shade,
                *plus,
                *scale,
                x,
                y,
                samples,
                final(row)@[3 * x],
                final(row)@[3 * x + 1],
                final(row)@[3 * x + 2],
            ),
{
    let len: usize = row.len();
    let mut x: usize = 0;
    while x < width
        invariant
            len == row@.len() == 3 * width,
            x <= width,
            forall|x: usize, y: usize, sx: u32, sy: u32| call_requires(*shade, (x, y, sx, sy)),
            forall|a: Float32, b: Float32| call_requires(*plus, (a, b)),
            forall|a: Float32| call_requires(*scale, (a,)),
            forall|k: usize|
                #![trigger row@[3 * k]]
                k < x ==> rendered(
                    *shade,
                    *plus,
                    *scale,
                    k,
                    y,
                    samples,
                    row@[3 * k],
                    row@[3 * k + 1],
                    row@[3 * k + 2],
                ),
        decreases width - x,
    {
        let color: [Float32; 3] = render_pixel(x, y, samples, shade, plus, scale);
        let o: usize = 3 * x;
        row[o] = color[0];
        row[o + 1] = color[1];
        row[o + 2] = color[2];
        x = x + 1;
    }
}

/// Whether the pixel at `(x, y)` of a row-major image is rendered.
pub open spec fn rendered_at<
    S: Fn(usize, usize, u32, u32) -> [Float32; 3],
    A: Fn(Float32, Float32) -> Float32,
    N: Fn(Float32) -> Float32,
>(
    shade: S,
    plus: A,
    scale: N,
    data: Seq<Float32>,
    stride: int,
    x: usize,
    y: usize,
    samples: u32,
) -> bool {
    rendered(
        shade,
        plus,
        scale,
        x,
        y,
        samples,
        data[y * stride + 3 * x],
        data[y * stride + 3 * x + 1],
        data[y * stride + 3 * x + 2],
    )
}

/// Whether every pixel of a row-major image is rendered.
pub open spec fn rendered_image<
    S: Fn(usize, usize, u32, u32) -> [Float32; 3],
    A: Fn(Float32, Float32) -> Float32,
    N: Fn(Float32) -> Float32,
>(
    shade: S,
    plus: A,
    scale: N,
    data: Seq<Float32>,
    output: Output,
    samples: u32,
) -> bool {
    forall|x: usize, y: usize|
        x < output.width && y < output.height ==> #[trigger] rendered_at(
            shade,
            plus,
            scale,
            data,
            3 * output.width,
            x,
            y,
            samples,
        )
}

/// Renders the rows of an image on all cores, through `par_chunks_mut`,
/// `enumerate` and `for_each` of `rayon`.
///
/// Believed of them: the slice is cut into consecutive chunks of `stride`
/// values, and the closure is called on each of them once, with its number. What
/// holds of every row after [`render_row`] then holds of the image.
#[verifier::external_body]
fn render_rows<
    S: Fn(usize, usize, u32, u32) -> [Float32; 3] + Sync,
    A: Fn(Float32, Float32) -> Float32 + Sync,
    N: Fn(Float32) -> Float32 + Sync,
>(
    data: &mut [Float32],
    stride: usize,
    width: usize,
    samples: u32,
    shade: &S,
    plus: &A,
    scale: &N,
)
    requires
        stride > 0,
        stride == 3 * width,
        old(data)@.len() % (stride as nat) == 0,
        forall|x: usize, y: usize, sx: u32, sy: u32| call_requires(*shade, (x, y, sx, sy)),
        forall|a: Float32, b: Float32| call_requires(*plus, (a, b)),
        forall|a: Float32| call_requires(*scale, (a,)),
    ensures
        final(data)@.len() == old(data)@.len(),
        forall|x: usize, y: usize|
            x < width && (y + 1) * stride <= final(data)@.len() ==> #[trigger] rendered_at(
                *shade,
                *plus,
                *scale,
                final(data)@,
                stride as int,
                x,
                y,
                samples,
            ),
{
    data.par_chunks_mut(stride).enumerate().for_each(
        |(y, row)| render_row(row, y, width, samples, shade, plus, scale),
    );
}

/// Render an image of `width * height * 3` values, row-major, top row first.
///
/// Every pixel is what `shade(x, y, sx, sy)` sees at the subsamples of a grid of
/// `samples` by `samples`, added up with `plus` and brought down by `scale`.
pub fn render<
    S: Fn(usize, usize, u32, u32) -> [Float32; 3] + Sync,
    A: Fn(Float32, Float32) -> Float32 + Sync,
    N: Fn(Float32) -> Float32 + Sync,
>(output: Output, samples: u32, shade: &S, plus: &A, scale: &N) -> (data: Vec<Float32>)
    requires
        output.width > 0,
        output.height > 0,
        output.values == 3 * output.width * output.height,
        forall|x: usize, y: usize, sx: u32, sy: u32| call_requires(*shade, (x, y, sx, sy)),
        forall|a: Float32, b: Float32| call_requires(*plus, (a, b)),
        forall|a: Float32| call_requires(*scale, (a,)),
    ensures
        data@.len() == output.width * output.height * 3,
        rendered_image(*shade, *plus, *scale, data@, output, samples),
        forall|x: usize, y: usize|
            x < output.width && y < output.height ==> #[trigger] rendered_at(
                *shade,
                *plus,
                *scale,
                data@,
                3 * output.width,
                x,
                y,
                samples,
            ),
{
    let ghost stride = 3 * output.width as int;
    let ghost height = output.height as int;
    proof {
        assert(output.values == stride * height);
        assert(output.values == output.width * output.height * 3) by (nonlinear_arith)
            requires
                output.values == 3 * output.width * output.height,
        ;
        assert(stride <= stride * height) by (nonlinear_arith)
            requires
                stride >= 0,
                height >= 1,
        ;
        assert((stride * height) % stride == 0) by (nonlinear_arith)
            requires
                stride > 0,
        ;
    }
    let width: usize = output.width as usize;
    let mut data: Vec<Float32> = vec![Float32 { bits: 0 };output.values];
    render_rows(data.as_mut_slice(), 3 * width, width, samples, shade, plus, scale);
    proof {
        assert forall|x: usize, y: usize|
            x < output.width && y < output.height implies #[trigger] rendered_at(
            *shade,
            *plus,
            *scale,
            data@,
            stride,
            x,
            y,
            samples,
        ) by {
            assert((y + 1) * stride <= stride * height) by (nonlinear_arith)
                requires
                    y + 1 <= height,
                    stride > 0,
            ;
        }
    }
    data
}

} // verus!
