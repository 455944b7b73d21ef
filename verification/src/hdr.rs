//! Radiance RGBE (`.hdr`) writer.
//!
//! Output uses new-style adaptive RLE (the `2 2 hi lo` scanline marker), which
//! typically halves file size on real panoramas.

use crate::float32::Float32;
use crate::rgbe::{float_to_rgbe, rgbe};
use crate::rle::{encode_component, law_rle_round_trips, read_component, rle};
use crate::text::{decimal, law_decimal_is_delimited, push_decimal};
use rayon::iter::ParallelIterator;
use rayon::slice::ParallelSlice;
use vstd::prelude::*;
use vstd::string::StringExecFns;
use vstd::utf8::encode_utf8;

verus! {

/// Narrowest image whose scanlines may be run-length coded.
pub const MIN_RLE_WIDTH: usize = 8;

/// Widest image whose scanlines may be run-length coded.
pub const MAX_RLE_WIDTH: usize = 0x7fff;

/// Whether scanlines of this width are run-length coded.
pub open spec fn uses_rle(rle: bool, width: int) -> bool {
    rle && MIN_RLE_WIDTH <= width <= MAX_RLE_WIDTH
}

/// The four bytes of the pixel at column `x` of a row of RGB triples.
pub open spec fn pixel(row: Seq<Float32>, x: int) -> Seq<u8> {
    rgbe(row[3 * x], row[3 * x + 1], row[3 * x + 2])
}

/// The pixels of a row.
pub open spec fn pixels(row: Seq<Float32>, width: nat) -> Seq<Seq<u8>> {
    Seq::new(width, |x: int| pixel(row, x))
}

/// One of the four components of a row, as a plane.
pub open spec fn plane(row: Seq<Float32>, width: nat, c: int) -> Seq<u8> {
    Seq::new(width, |x: int| pixel(row, x)[c])
}

/// The marker that opens a run-length coded scanline.
pub open spec fn marker(width: nat) -> Seq<u8> {
    seq![2u8, 2u8, (width / 256) as u8, (width % 256) as u8]
}

/// The bytes of one scanline: the marker and the four coded planes, or the
/// pixels one after the other.
pub open spec fn scanline(row: Seq<Float32>, width: nat, use_rle: bool) -> Seq<u8> {
    if use_rle {
        marker(width) + rle(plane(row, width, 0)) + rle(plane(row, width, 1)) + rle(
            plane(row, width, 2),
        ) + rle(plane(row, width, 3))
    } else {
        Seq::new(4 * width, |k: int| pixel(row, k / 4)[k % 4])
    }
}

/// The scanlines of an image, top row first.
pub open spec fn scanlines(data: Seq<Float32>, width: nat, height: nat, use_rle: bool) -> Seq<u8>
    decreases height,
{
    if height == 0 {
        Seq::empty()
    } else {
        scanline(data.take(3 * width as int), width, use_rle) + scanlines(
            data.skip(3 * width as int),
            width,
            (height - 1) as nat,
            use_rle,
        )
    }
}

/// The text that opens a file.
pub open spec fn header(width: nat, height: nat) -> Seq<char> {
    "#?RADIANCE\n"@ + "# Created by cube2hdr\n"@ + "FORMAT=32-bit_rle_rgbe\n"@ + "EXPOSURE=1.0\n"@
        + "\n"@ + "-Y "@ + decimal(height) + " +X "@ + decimal(width) + "\n"@
}

/// The bytes of a file.
pub open spec fn file(data: Seq<Float32>, width: nat, height: nat, rle: bool) -> Seq<u8> {
    encode_utf8(header(width, height)) + scanlines(
        data,
        width,
        height,
        uses_rle(rle, width as int),
    )
}

/// What a reader makes of the bytes of one scanline: its pixels and the input
/// that follows, or nothing where the bytes are no such scanline.
pub open spec fn read_scanline(s: Seq<u8>, width: nat, use_rle: bool) -> Option<
    (Seq<Seq<u8>>, Seq<u8>),
> {
    if !use_rle {
        if s.len() < 4 * width {
            None
        } else {
            Some(
                (
                    Seq::new(width, |x: int| s.subrange(4 * x, 4 * x + 4)),
                    s.skip(4 * width as int),
                ),
            )
        }
    } else if s.len() < 4 || s.take(4) != marker(width) {
        None
    } else {
        match read_component(s.skip(4), width) {
            None => None,
            Some((r, s)) => match read_component(s, width) {
                None => None,
                Some((g, s)) => match read_component(s, width) {
                    None => None,
                    Some((b, s)) => match read_component(s, width) {
                        None => None,
                        Some((e, s)) => Some(
                            (Seq::new(width, |x: int| seq![r[x], g[x], b[x], e[x]]), s),
                        ),
                    },
                },
            },
        }
    }
}

/// What a reader makes of the bytes of `height` scanlines: the rows of pixels,
/// top row first, and the input that follows.
pub open spec fn read_scanlines(s: Seq<u8>, width: nat, height: nat, use_rle: bool) -> Option<
    (Seq<Seq<Seq<u8>>>, Seq<u8>),
>
    decreases height,
{
    if height == 0 {
        Some((Seq::empty(), s))
    } else {
        match read_scanline(s, width, use_rle) {
            None => None,
            Some((row, s)) => match read_scanlines(s, width, (height - 1) as nat, use_rle) {
                None => None,
                Some((rows, s)) => Some((seq![row] + rows, s)),
            },
        }
    }
}

/// Reading back a scanline gives its pixels, coded or flat, whatever follows it.
pub proof fn law_scanline_round_trips(
    row: Seq<Float32>,
    width: nat,
    use_rle: bool,
    rest: Seq<u8>,
)
    ensures
        read_scanline(scanline(row, width, use_rle) + rest, width, use_rle) == Some(
            (pixels(row, width), rest),
        ),
{
    let s = scanline(row, width, use_rle) + rest;
    if use_rle {
        let (r, g, b, e) = (
            plane(row, width, 0),
            plane(row, width, 1),
            plane(row, width, 2),
            plane(row, width, 3),
        );
        let s3 = rle(e) + rest;
        let s2 = rle(b) + s3;
        let s1 = rle(g) + s2;
        assert(s.take(4) =~= marker(width));
        assert(s.skip(4) =~= rle(r) + s1);
        law_rle_round_trips(r, s1);
        law_rle_round_trips(g, s2);
        law_rle_round_trips(b, s3);
        law_rle_round_trips(e, rest);
        let read = Seq::new(width, |x: int| seq![r[x], g[x], b[x], e[x]]);
        assert forall|x: int| 0 <= x < width implies #[trigger] read[x] == pixel(row, x) by {
            assert(read[x] =~= pixel(row, x));
        }
        assert(read =~= pixels(row, width));
    } else {
        let read = Seq::new(width, |x: int| s.subrange(4 * x, 4 * x + 4));
        assert forall|x: int| 0 <= x < width implies #[trigger] read[x] == pixel(row, x) by {
            assert(read[x] =~= pixel(row, x)) by {
                assert forall|c: int| 0 <= c < 4 implies #[trigger] read[x][c] == pixel(row, x)[c] by {
                    assert(s[4 * x + c] == scanline(row, width, use_rle)[4 * x + c]);
                    assert((4 * x + c) / 4 == x && (4 * x + c) % 4 == c);
                }
            }
        }
        assert(read =~= pixels(row, width));
        assert(s.skip(4 * width as int) =~= rest);
    }
}

/// Reading back the scanlines of an image gives the pixels of every row, top row first.
pub proof fn law_image_round_trips(
    data: Seq<Float32>,
    width: nat,
    height: nat,
    use_rle: bool,
    rest: Seq<u8>,
)
    requires
        data.len() == width * height * 3,
    ensures
        read_scanlines(scanlines(data, width, height, use_rle) + rest, width, height, use_rle)
            == Some(
            (
                Seq::new(
                    height,
                    |y: int|
                        pixels(data.subrange(y * (3 * width), (y + 1) * (3 * width)), width),
                ),
                rest,
            ),
        ),
    decreases height,
{
    let s = scanlines(data, width, height, use_rle) + rest;
    let stride = 3 * width as int;
    let expected = Seq::new(
        height,
        |y: int| pixels(data.subrange(y * (3 * width), (y + 1) * (3 * width)), width),
    );
    if height == 0 {
        assert(s =~= rest);
        assert(expected =~= Seq::empty());
    } else {
        assert(data.len() == stride * height) by (nonlinear_arith)
            requires
                data.len() == width * height * 3,
                stride == 3 * width,
        ;
        assert(stride * height >= stride) by (nonlinear_arith)
            requires
                stride >= 0,
                height >= 1,
        ;
        let tail = data.skip(stride);
        let below = (height - 1) as nat;
        assert(tail.len() == width * below * 3) by (nonlinear_arith)
            requires
                tail.len() == width * height * 3 - 3 * width,
                below == height - 1,
        ;
        let s1 = scanlines(tail, width, below, use_rle) + rest;
        assert(s =~= scanline(data.take(stride), width, use_rle) + s1);
        law_scanline_round_trips(data.take(stride), width, use_rle, s1);
        law_image_round_trips(tail, width, below, use_rle, rest);
        let rows = Seq::new(
            below,
            |y: int| pixels(tail.subrange(y * (3 * width), (y + 1) * (3 * width)), width),
        );
        let read = seq![pixels(data.take(stride), width)] + rows;
        assert forall|y: int| 0 <= y < height implies #[trigger] read[y] == expected[y] by {
            if y == 0 {
                assert(data.take(stride) =~= data.subrange(0 * stride, (0 + 1) * stride));
            } else {
                let k = y - 1;
                assert(read[y] == rows[k]);
                assert(0 <= k * stride && (k + 1) * stride <= tail.len()) by (nonlinear_arith)
                    requires
                        tail.len() == stride * height - stride,
                        0 <= k < height - 1,
                        stride >= 0,
                ;
                assert(y * stride == k * stride + stride) by (nonlinear_arith)
                    requires
                        y == k + 1,
                ;
                assert((y + 1) * stride == y * stride + stride) by (nonlinear_arith);
                assert(tail.subrange(k * stride, (k + 1) * stride) =~= data.subrange(
                    y * stride,
                    (y + 1) * stride,
                ));
            }
        }
        assert(read =~= expected);
    }
}

/// Behind its header, a file reads back as the pixels of every row, and ends there.
pub proof fn law_file_round_trips(data: Seq<Float32>, width: nat, height: nat, rle: bool)
    requires
        data.len() == width * height * 3,
    ensures
        ({
            let bytes = file(data, width, height, rle);
            let opening = encode_utf8(header(width, height));
            let rows = Seq::new(
                height,
                |y: int| pixels(data.subrange(y * (3 * width), (y + 1) * (3 * width)), width),
            );
            &&& bytes.len() >= opening.len()
            &&& bytes.take(opening.len() as int) == opening
            &&& read_scanlines(
                bytes.skip(opening.len() as int),
                width,
                height,
                uses_rle(rle, width as int),
            ) == Some((rows, Seq::<u8>::empty()))
        }),
{
    let bytes = file(data, width, height, rle);
    let opening = encode_utf8(header(width, height));
    let body = scanlines(data, width, height, uses_rle(rle, width as int));
    assert(bytes.take(opening.len() as int) =~= opening);
    assert(bytes.skip(opening.len() as int) =~= body + Seq::<u8>::empty());
    law_image_round_trips(data, width, height, uses_rle(rle, width as int), Seq::empty());
}

/// Flat scanlines take four bytes for every pixel.
proof fn lemma_flat_len(data: Seq<Float32>, width: nat, height: nat)
    ensures
        scanlines(data, width, height, false).len() == 4 * width * height,
    decreases height,
{
    if height == 0 {
        assert(4 * width * height == 0) by (nonlinear_arith)
            requires
                height == 0,
        ;
    } else {
        let below = (height - 1) as nat;
        lemma_flat_len(data.skip(3 * width as int), width, below);
        assert(4 * width * height == 4 * width + 4 * width * below) by (nonlinear_arith)
            requires
                height == below + 1,
        ;
    }
}

/// Compression is lossless: with and without it a file has the same header and
/// reads back as the same pixels. Without it, four bytes follow for every pixel;
/// where the width rules run-length coding out, there is no difference at all.
pub proof fn law_compression_is_lossless(data: Seq<Float32>, width: nat, height: nat)
    requires
        data.len() == width * height * 3,
    ensures
        ({
            let (packed, flat) = (file(data, width, height, true), file(data, width, height, false));
            let opening = encode_utf8(header(width, height));
            let n = opening.len() as int;
            &&& packed.len() >= n && packed.take(n) == opening
            &&& flat.len() == n + 4 * width * height && flat.take(n) == opening
            &&& read_scanlines(packed.skip(n), width, height, uses_rle(true, width as int))
                is Some
            &&& read_scanlines(packed.skip(n), width, height, uses_rle(true, width as int))
                == read_scanlines(flat.skip(n), width, height, false)
            &&& !(MIN_RLE_WIDTH <= width <= MAX_RLE_WIDTH) ==> packed == flat
        }),
{
    law_file_round_trips(data, width, height, true);
    law_file_round_trips(data, width, height, false);
    lemma_flat_len(data, width, height);
}

/// The header tells the dimensions: no two images of different size share one.
pub proof fn law_header_tells_dimensions(width: nat, height: nat, width2: nat, height2: nat)
    requires
        header(width, height) == header(width2, height2),
    ensures
        width == width2,
        height == height2,
{
    let fixed = "#?RADIANCE\n"@ + "# Created by cube2hdr\n"@ + "FORMAT=32-bit_rle_rgbe\n"@
        + "EXPOSURE=1.0\n"@ + "\n"@ + "-Y "@;
    let n = fixed.len() as int;
    let (a, b) = (header(width, height), header(width2, height2));
    let middle = " +X "@;
    let end = "\n"@;
    reveal_strlit(" +X ");
    reveal_strlit("\n");
    let (s, t) = (decimal(width) + end, decimal(width2) + end);
    assert(a.skip(n) =~= decimal(height) + (middle + s));
    assert(b.skip(n) =~= decimal(height2) + (middle + t));
    law_decimal_is_delimited(height, height2, middle + s, middle + t);
    assert((middle + s).skip(4) =~= s);
    assert((middle + t).skip(4) =~= t);
    law_decimal_is_delimited(width, width2, end, end);
}

/// Encode one row of RGB triples.
pub fn encode_scanline(row: &[Float32], width: usize, use_rle: bool) -> (out: Vec<u8>)
    requires
        row@.len() == width * 3,
        use_rle ==> MIN_RLE_WIDTH <= width <= MAX_RLE_WIDTH,
    ensures
        out@ == scanline(row@, width as nat, use_rle),
{
    let len: usize = row.len();
    let mut out: Vec<u8> = Vec::new();
    if !use_rle {
        let mut x: usize = 0;
        while x < width
            invariant
                len == row@.len() == width * 3,
                x <= width,
                out@.len() == 4 * x,
                forall|k: int| 0 <= k < 4 * x ==> #[trigger] out@[k] == pixel(row@, k / 4)[k % 4],
            decreases width - x,
        {
            let rgbe: [u8; 4] = float_to_rgbe(row[3 * x], row[3 * x + 1], row[3 * x + 2]);
            let ghost before = out@;
            out.push(rgbe[0]);
            out.push(rgbe[1]);
            out.push(rgbe[2]);
            out.push(rgbe[3]);
            proof {
                assert(rgbe@ == pixel(row@, x as int));
                assert(out@ =~= before + rgbe@);
            }
            x = x + 1;
        }
        proof {
            assert(out@ =~= scanline(row@, width as nat, use_rle));
        }
        return out;
    }
    // Adaptive RLE is applied per component, so split the pixels into four planes.
    let mut red: Vec<u8> = Vec::new();
    let mut green: Vec<u8> = Vec::new();
    let mut blue: Vec<u8> = Vec::new();
    let mut exponent: Vec<u8> = Vec::new();
    let mut x: usize = 0;
    while x < width
        invariant
            len == row@.len() == width * 3,
            x <= width,
            red@ =~= plane(row@, x as nat, 0),
            green@ =~= plane(row@, x as nat, 1),
            blue@ =~= plane(row@, x as nat, 2),
            exponent@ =~= plane(row@, x as nat, 3),
        decreases width - x,
    {
        let rgbe: [u8; 4] = float_to_rgbe(row[3 * x], row[3 * x + 1], row[3 * x + 2]);
        proof {
            assert(rgbe@ == pixel(row@, x as int));
        }
        red.push(rgbe[0]);
        green.push(rgbe[1]);
        blue.push(rgbe[2]);
        exponent.push(rgbe[3]);
        x = x + 1;
    }
    out.push(2);
    out.push(2);
    out.push((width / 256) as u8);
    out.push((width % 256) as u8);
    proof {
        assert(out@ =~= marker(width as nat));
    }
    encode_component(&mut out, red.as_slice());
    encode_component(&mut out, green.as_slice());
    encode_component(&mut out, blue.as_slice());
    encode_component(&mut out, exponent.as_slice());
    out
}

/// Encodes the rows of an image on all cores, through `par_chunks_exact`, `map`
/// and `collect` of `rayon`.
///
/// Believed of them: the slice is cut into consecutive chunks of exactly
/// `stride` values, what is left over at the end is passed over, the closure is
/// called on each chunk, and its results come back in the order of the chunks.
#[verifier::external_body]
fn encode_rows(data: &[Float32], stride: usize, width: usize, use_rle: bool) -> (lines: Vec<Vec<u8>>)
    requires
        stride > 0,
        stride == 3 * width,
        use_rle ==> MIN_RLE_WIDTH <= width <= MAX_RLE_WIDTH,
    ensures
        lines@.len() == data@.len() / (stride as nat),
        forall|y: int|
            #![trigger lines@[y]]
            0 <= y < lines@.len() ==> exists|row: &[Float32]|
                #![trigger call_ensures(encode_scanline, (row, width, use_rle), lines@[y])]
                row@ == data@.subrange(y * stride, (y + 1) * stride) && call_ensures(
                    encode_scanline,
                    (row, width, use_rle),
                    lines@[y],
                ),
{
    data.par_chunks_exact(stride).map(|row| encode_scanline(row, width, use_rle)).collect()
}

/// The text that opens a file.
fn header_text(width: u32, height: u32) -> (out: String)
    ensures
        out@ == header(width as nat, height as nat),
{
    let mut out: String = String::new();
    out.append("#?RADIANCE\n");
    out.append("# Created by cube2hdr\n");
    out.append("FORMAT=32-bit_rle_rgbe\n");
    out.append("EXPOSURE=1.0\n");
    out.append("\n");
    // -Y first means the first scanline stored is the top of the image.
    out.append("-Y ");
    push_decimal(&mut out, height as u64);
    out.append(" +X ");
    push_decimal(&mut out, width as u64);
    out.append("\n");
    proof {
        assert(Seq::<char>::empty() + "#?RADIANCE\n"@ =~= "#?RADIANCE\n"@);
    }
    out
}

/// The bytes of a Radiance `.hdr` file that holds a linear-light RGB buffer.
///
/// `data` are `width * height * 3` values, row-major, top row first. RLE is only
/// legal for some widths; others fall back to flat scanlines.
pub fn write_hdr(width: u32, height: u32, data: &[Float32], rle: bool) -> (out: Vec<u8>)
    requires
        width > 0,
        width * 3 <= usize::MAX,
        data@.len() == width * height * 3,
    ensures
        out@ == file(data@, width as nat, height as nat, rle),
{
    let w: usize = width as usize;
    let h: usize = height as usize;
    let use_rle: bool = rle && MIN_RLE_WIDTH <= w && w <= MAX_RLE_WIDTH;
    let lines: Vec<Vec<u8>> = encode_rows(data, w * 3, w, use_rle);
    let text: String = header_text(width, height);
    let mut out: Vec<u8> = Vec::new();
    out.extend_from_slice(text.as_str().as_bytes());
    let ghost opening = encode_utf8(header(width as nat, height as nat));
    let ghost stride = 3 * w as int;
    proof {
        assert(out@ =~= opening);
        assert(data@.len() == stride * height) by (nonlinear_arith)
            requires
                data@.len() == width * height * 3,
                stride == 3 * width,
        ;
        assert((stride * height) / stride == height) by (nonlinear_arith)
            requires
                stride > 0,
        ;
        assert(data@.skip(0) =~= data@);
    }
    let mut y: usize = 0;
    while y < h
        invariant
            w == width,
            h == height,
            stride == 3 * w,
            stride > 0,
            data@.len() == stride * h,
            y <= h,
            lines@.len() == h,
            forall|y: int|
                #![trigger lines@[y]]
                0 <= y < lines@.len() ==> lines@[y]@ == scanline(
                    data@.subrange(y * stride, (y + 1) * stride),
                    w as nat,
                    use_rle,
                ),
            out@ + scanlines(data@.skip(y * stride), w as nat, (h - y) as nat, use_rle) == opening
                + scanlines(data@, w as nat, h as nat, use_rle),
        decreases h - y,
    {
        let ghost before = out@;
        let ghost here = data@.skip(y * stride);
        out.extend_from_slice(lines[y].as_slice());
        proof {
            assert(0 <= y * stride && (y + 1) * stride <= stride * h) by (nonlinear_arith)
                requires
                    0 <= y < h,
                    stride > 0,
            ;
            assert((y + 1) * stride == y * stride + stride) by (nonlinear_arith);
            assert(out@ =~= before + lines@[y as int]@);
            assert(here.take(stride) =~= data@.subrange(y * stride, (y + 1) * stride));
            assert(here.skip(stride) =~= data@.skip((y + 1) * stride));
            let rest = scanlines(data@.skip((y + 1) * stride), w as nat, (h - y - 1) as nat, use_rle);
            assert(out@ + rest =~= before + (lines@[y as int]@ + rest));
        }
        y = y + 1;
    }
    proof {
        assert(out@ + Seq::<u8>::empty() =~= out@);
    }
    out
}

} // verus!
