//! Laws of run-length coding, of numbers in text and of files.

use crate::float32::Float32;
use crate::hdr::{encode_scanline, file, header, pixel, plane, scanline, scanlines, write_hdr};
use crate::rgbe::float_to_rgbe;
use crate::rle::{encode_component, literal_length, rle, run_length, starts_run};
use crate::text::{decimal, law_decimal_reads_back, number, push_decimal};
use vstd::arithmetic::div_mod::lemma_div_denominator;
use vstd::arithmetic::power::{lemma_pow0, lemma_pow1, lemma_pow_adds, lemma_pow_positive, pow};
use vstd::prelude::*;
use vstd::utf8::encode_utf8;

verus! {

/// A run that goes on for `n` bytes is measured as `n` bytes.
proof fn lemma_run_is_measured(d: Seq<u8>, k: int, n: int)
    requires
        1 <= k <= n <= 127,
        n <= d.len(),
        forall|i: int| 0 <= i < n ==> #[trigger] d[i] == d[0],
        n == 127 || n == d.len() || d[n] != d[0],
    ensures
        run_length(d, k) == n,
    decreases n - k,
{
    if k < n {
        assert(d[k] == d[0]);
        lemma_run_is_measured(d, k + 1, n);
    }
}

/// A stretch without a run is measured up to where it stops.
proof fn lemma_literals_are_measured(d: Seq<u8>, k: int, n: int)
    requires
        0 <= k <= n <= 128,
        n <= d.len(),
        forall|i: int| #![trigger d[i]] k <= i < n ==> !starts_run(d, i),
        n == 128 || n == d.len() || starts_run(d, n),
    ensures
        literal_length(d, k) == n,
    decreases n - k,
{
    if k < n {
        let v = d[k];
        lemma_literals_are_measured(d, k + 1, n);
    }
}

/// A run is shorter than four bytes where no run of four starts.
proof fn lemma_short_run(d: Seq<u8>)
    requires
        d.len() > 0,
        !starts_run(d, 0),
    ensures
        run_length(d, 1) < 4,
{
    reveal_with_fuel(run_length, 4);
}

/// What a plane is coded as goes behind what was there before, and nothing of
/// that is changed. A plane without bytes is coded as nothing.
pub proof fn law_code_is_appended(
    out: &mut Vec<u8>,
    out2: &mut Vec<u8>,
    data: &[u8],
)
    requires
        call_ensures(encode_component, (out, data), ()),
        call_ensures(encode_component, (out2, data), ()),
    ensures
        final(out)@.len() >= old(out)@.len(),
        final(out)@.take(old(out)@.len() as int) == old(out)@,
        final(out)@.skip(old(out)@.len() as int) == final(out2)@.skip(old(out2)@.len() as int),
        data@.len() == 0 ==> final(out)@ == old(out)@,
{
    assert(final(out)@.take(old(out)@.len() as int) =~= old(out)@);
    assert(final(out)@.skip(old(out)@.len() as int) =~= rle(data@));
    assert(final(out2)@.skip(old(out2)@.len() as int) =~= rle(data@));
    assert(rle(Seq::<u8>::empty()) =~= Seq::<u8>::empty());
    if data@.len() == 0 {
        assert(data@ =~= Seq::<u8>::empty());
        assert(final(out)@ =~= old(out)@);
    }
}

/// A plane that starts with a run of `n` bytes, from four to 127 and as long as it
/// can be, is coded as `128 + n`, the byte, and the code of what follows the run.
pub proof fn law_runs_are_coded(
    out: &mut Vec<u8>,
    rest: &mut Vec<u8>,
    data: &[u8],
    behind: &[u8],
    n: int,
)
    requires
        call_ensures(encode_component, (out, data), ()),
        call_ensures(encode_component, (rest, behind), ()),
        4 <= n <= 127,
        n <= data@.len(),
        forall|i: int| 0 <= i < n ==> #[trigger] data@[i] == data@[0],
        n == 127 || n == data@.len() || data@[n] != data@[0],
        behind@ == data@.skip(n),
    ensures
        final(out)@ == old(out)@ + seq![(128 + n) as u8, data@[0]] + final(rest)@.skip(
            old(rest)@.len() as int,
        ),
{
    lemma_run_is_measured(data@, 1, n);
    assert(final(rest)@.skip(old(rest)@.len() as int) =~= rle(behind@));
    assert(final(out)@ =~= old(out)@ + seq![(128 + n) as u8, data@[0]] + rle(behind@));
}

/// A plane that starts with `n` bytes before a run of four, its end, or the limit
/// of 128 bytes is coded as `n`, these bytes, and the code of what follows them.
pub proof fn law_literals_are_coded(
    out: &mut Vec<u8>,
    rest: &mut Vec<u8>,
    data: &[u8],
    behind: &[u8],
    n: int,
)
    requires
        call_ensures(encode_component, (out, data), ()),
        call_ensures(encode_component, (rest, behind), ()),
        1 <= n <= 128,
        n <= data@.len(),
        forall|i: int|
            #![trigger data@[i]]
            0 <= i < n ==> !(i + 3 < data@.len() && data@[i] == data@[i + 1] && data@[i] == data@[i
                + 2] && data@[i] == data@[i + 3]),
        n == 128 || n == data@.len() || (n + 3 < data@.len() && data@[n] == data@[n + 1] && data@[n]
            == data@[n + 2] && data@[n] == data@[n + 3]),
        behind@ == data@.skip(n),
    ensures
        final(out)@ == old(out)@ + seq![n as u8] + data@.take(n) + final(rest)@.skip(
            old(rest)@.len() as int,
        ),
{
    let d = data@;
    let first = d[0];
    assert(!starts_run(d, 0));
    lemma_short_run(d);
    lemma_literals_are_measured(d, 1, n);
    assert(final(rest)@.skip(old(rest)@.len() as int) =~= rle(behind@));
    assert(final(out)@ =~= old(out)@ + seq![n as u8] + d.take(n) + rle(behind@));
}

/// One digit after another: a further digit counts once, and all before it ten
/// times as much.
pub proof fn law_numbers_are_read_digit_by_digit(s: Seq<char>, c: char)
    ensures
        number(s.push(c)) == 10 * number(s) + (c as int - 48),
        s.len() == 0 ==> number(s) == 0,
{
    assert(s.push(c).drop_last() =~= s);
}

/// Every digit of a decimal is the number, without the digits behind it, modulo
/// ten, and there is no digit too many.
proof fn lemma_digits(n: nat, k: nat)
    ensures
        k < decimal(n).len() ==> decimal(n)[decimal(n).len() - 1 - k] as int == 48 + (n as int
            / pow(10, k)) % 10,
        n < pow(10, decimal(n).len()),
        decimal(n).len() > 0,
        decimal(n).len() == 1 || n >= pow(10, (decimal(n).len() - 1) as nat),
    decreases n,
{
    lemma_pow0(10);
    lemma_pow1(10);
    if n >= 10 {
        let m = n / 10;
        let l = decimal(m).len();
        if k > 0 {
            lemma_digits(m, (k - 1) as nat);
            let p = pow(10, (k - 1) as nat);
            lemma_pow_positive(10, (k - 1) as nat);
            lemma_pow_adds(10, 1, (k - 1) as nat);
            lemma_div_denominator(n as int, 10, p);
            if k < decimal(n).len() {
                assert(decimal(n)[decimal(n).len() - 1 - k] == decimal(m)[l - 1 - (k - 1)]);
            }
        } else {
            lemma_digits(m, 0);
        }
        lemma_pow_adds(10, 1, l);
        assert(n < 10 * pow(10, l));
        if l > 1 {
            lemma_pow_adds(10, 1, (l - 1) as nat);
        }
        lemma_pow_positive(10, l);
    }
}

/// A number is appended as its decimal digits, the last for the ones and each
/// before it for ten times as much, without leading zeros, and what was there
/// before stays.
pub proof fn law_decimal_digits(out: &mut String, n: u64, k: nat)
    requires
        call_ensures(push_decimal, (out, n), ()),
    ensures
        ({
            let (before, after) = (old(out)@, final(out)@);
            let count = after.len() - before.len();
            &&& count > 0
            &&& after.take(before.len() as int) == before
            &&& n < pow(10, count as nat)
            &&& count == 1 || n >= pow(10, (count - 1) as nat)
            &&& k < count ==> after[after.len() - 1 - k] as int == 48 + (n as int / pow(10, k)) % 10
        }),
{
    lemma_digits(n as nat, k);
    assert(final(out)@.take(old(out)@.len() as int) =~= old(out)@);
}

/// A number that is appended reads back.
pub proof fn law_appended_numbers_read_back(out: &mut String, n: u64)
    requires
        call_ensures(push_decimal, (out, n), ()),
    ensures
        number(final(out)@.skip(old(out)@.len() as int)) == n,
{
    law_decimal_reads_back(n as nat);
    assert(final(out)@.skip(old(out)@.len() as int) =~= decimal(n as nat));
}

/// In a flat scanline, pixel `x` of the row takes the four bytes from `4 * x` on.
pub proof fn law_flat_scanlines(row: &[Float32], width: usize, x: int, k: int, line: Vec<u8>, bytes: [u8; 4])
    requires
        call_ensures(encode_scanline, (row, width, false), line),
        0 <= x < width,
        0 <= k < 4,
        call_ensures(float_to_rgbe, (row@[3 * x], row@[3 * x + 1], row@[3 * x + 2]), bytes),
    ensures
        line@.len() == 4 * width,
        line@[4 * x + k] == bytes@[k],
{
    assert((4 * x + k) / 4 == x && (4 * x + k) % 4 == k);
    assert(pixel(row@, x) == bytes@);
}

/// A coded scanline opens with two bytes of two and the width in two bytes; then
/// come the codes of its four planes: red, green, blue and exponent of all pixels,
/// left to right.
pub proof fn law_coded_scanlines(
    row: &[Float32],
    width: usize,
    line: Vec<u8>,
    bytes: Seq<[u8; 4]>,
    planes: (&[u8], &[u8], &[u8], &[u8]),
    red: &mut Vec<u8>,
    green: &mut Vec<u8>,
    blue: &mut Vec<u8>,
    exponent: &mut Vec<u8>,
)
    requires
        call_ensures(encode_scanline, (row, width, true), line),
        8 <= width <= 0x7fff,
        bytes.len() == width,
        forall|x: int|
            #![trigger bytes[x]]
            0 <= x < width ==> call_ensures(
                float_to_rgbe,
                (row@[3 * x], row@[3 * x + 1], row@[3 * x + 2]),
                bytes[x],
            ),
        planes.0@ == Seq::new(width as nat, |x: int| bytes[x]@[0]),
        planes.1@ == Seq::new(width as nat, |x: int| bytes[x]@[1]),
        planes.2@ == Seq::new(width as nat, |x: int| bytes[x]@[2]),
        planes.3@ == Seq::new(width as nat, |x: int| bytes[x]@[3]),
        old(red)@.len() == 0,
        old(green)@.len() == 0,
        old(blue)@.len() == 0,
        old(exponent)@.len() == 0,
        call_ensures(encode_component, (red, planes.0), ()),
        call_ensures(encode_component, (green, planes.1), ()),
        call_ensures(encode_component, (blue, planes.2), ()),
        call_ensures(encode_component, (exponent, planes.3), ()),
    ensures
        line@.len() >= 4,
        line@[0] == 2,
        line@[1] == 2,
        256 * line@[2] + line@[3] == width,
        line@.skip(4) == final(red)@ + final(green)@ + final(blue)@ + final(exponent)@,
{
    let w = width as nat;
    assert forall|x: int| 0 <= x < width implies pixel(row@, x) == (#[trigger] bytes[x])@ by {}
    assert(plane(row@, w, 0) =~= planes.0@);
    assert(plane(row@, w, 1) =~= planes.1@);
    assert(plane(row@, w, 2) =~= planes.2@);
    assert(plane(row@, w, 3) =~= planes.3@);
    assert(old(red)@ + rle(planes.0@) =~= rle(planes.0@));
    assert(old(green)@ + rle(planes.1@) =~= rle(planes.1@));
    assert(old(blue)@ + rle(planes.2@) =~= rle(planes.2@));
    assert(old(exponent)@ + rle(planes.3@) =~= rle(planes.3@));
    assert(line@.skip(4) =~= rle(planes.0@) + rle(planes.1@) + rle(planes.2@) + rle(planes.3@));
}

/// Whether a string is a number in decimal: digits alone, and no zero before others.
pub open spec fn is_decimal(s: Seq<char>) -> bool {
    &&& s.len() > 0
    &&& forall|i: int| 0 <= i < s.len() ==> '0' <= #[trigger] s[i] <= '9'
    &&& s.len() > 1 ==> s[0] != '0'
}

/// Decimals are digits without leading zeros.
pub proof fn lemma_is_decimal(n: nat)
    ensures
        is_decimal(decimal(n)),
        number(decimal(n)) == n,
        decimal(n)[0] == '0' ==> n == 0,
    decreases n,
{
    law_decimal_reads_back(n);
    if n >= 10 {
        lemma_is_decimal(n / 10);
    }
}

/// A file tells its dimensions: a reader that skips the fixed lines finds the
/// height between `-Y ` and ` +X `, and the width between that and the end of the
/// line, both in decimal, however large.
pub proof fn law_files_tell_dimensions(
    width: u32,
    height: u32,
    data: &[Float32],
    rle: bool,
    out: Vec<u8>,
)
    requires
        call_ensures(write_hdr, (width, height, data, rle), out),
    ensures
        exists|h: Seq<char>, w: Seq<char>|
            {
                let opening = encode_utf8(
                    "#?RADIANCE\n"@ + "# Created by cube2hdr\n"@ + "FORMAT=32-bit_rle_rgbe\n"@
                        + "EXPOSURE=1.0\n"@ + "\n"@ + "-Y "@ + h + " +X "@ + w + "\n"@,
                );
                &&& #[trigger] is_decimal(h)
                &&& #[trigger] is_decimal(w)
                &&& number(h) == height
                &&& number(w) == width
                &&& out@.len() >= opening.len()
                &&& out@.take(opening.len() as int) == opening
            },
{
    let (h, w) = (decimal(height as nat), decimal(width as nat));
    lemma_is_decimal(height as nat);
    lemma_is_decimal(width as nat);
    let opening = encode_utf8(header(width as nat, height as nat));
    assert(out@.take(opening.len() as int) =~= opening);
    assert(is_decimal(h) && is_decimal(w));
}

/// Scanlines follow one another.
proof fn lemma_scanlines_are_flat(
    data: Seq<Float32>,
    width: nat,
    height: nat,
    use_rle: bool,
    lines: Seq<Seq<u8>>,
)
    requires
        lines.len() == height,
        data.len() == width * height * 3,
        forall|y: int|
            #![trigger lines[y]]
            0 <= y < height ==> lines[y] == scanline(
                data.subrange(y * (3 * width), (y + 1) * (3 * width)),
                width,
                use_rle,
            ),
    ensures
        scanlines(data, width, height, use_rle) == lines.flatten(),
    decreases height,
{
    if height > 0 {
        let stride = 3 * width as int;
        let below = (height - 1) as nat;
        let tail = data.skip(stride);
        let rest = lines.drop_first();
        assert(data.len() == stride * height) by (nonlinear_arith)
            requires
                data.len() == width * height * 3,
                stride == 3 * width,
        ;
        assert(stride * height == stride + stride * below) by (nonlinear_arith)
            requires
                height == below + 1,
        ;
        assert(stride * below >= 0) by (nonlinear_arith)
            requires
                stride >= 0,
                below >= 0,
        ;
        assert(tail.len() == width * below * 3) by (nonlinear_arith)
            requires
                tail.len() == stride * below,
                stride == 3 * width,
        ;
        assert forall|y: int| #![trigger rest[y]] 0 <= y < below implies rest[y] == scanline(
            tail.subrange(y * (3 * width), (y + 1) * (3 * width)),
            width,
            use_rle,
        ) by {
            assert(rest[y] == lines[y + 1]);
            assert(0 <= y * stride && (y + 1) * stride <= tail.len()) by (nonlinear_arith)
                requires
                    tail.len() == stride * below,
                    0 <= y < below,
                    stride >= 0,
            ;
            assert((y + 1) * stride == y * stride + stride) by (nonlinear_arith);
            assert((y + 2) * stride == y * stride + 2 * stride) by (nonlinear_arith);
            assert(tail.subrange(y * stride, (y + 1) * stride) =~= data.subrange(
                (y + 1) * stride,
                (y + 2) * stride,
            ));
        }
        lemma_scanlines_are_flat(tail, width, below, use_rle, rest);
        assert(lines[0] == scanline(data.subrange(0, stride), width, use_rle));
        assert(data.subrange(0, stride) =~= data.take(stride));
    }
}

/// Behind the line with the dimensions the rows follow, top row first, each as
/// the scanline that it is encoded as: run-length coded where that is asked for and
/// the width is from 8 to 32767, and flat otherwise.
pub proof fn law_files_hold_all_rows(
    width: u32,
    height: u32,
    data: &[Float32],
    rle: bool,
    out: Vec<u8>,
    rows: Seq<&[Float32]>,
    lines: Seq<Vec<u8>>,
)
    requires
        call_ensures(write_hdr, (width, height, data, rle), out),
        data@.len() == width * height * 3,
        rows.len() == height,
        lines.len() == height,
        forall|y: int|
            #![trigger rows[y]]
            0 <= y < height ==> rows[y]@ == data@.subrange(
                y * (3 * width),
                (y + 1) * (3 * width),
            ),
        forall|y: int|
            #![trigger lines[y]]
            0 <= y < height ==> call_ensures(
                encode_scanline,
                (rows[y], width as usize, rle && 8 <= width <= 32767),
                lines[y],
            ),
    ensures
        exists|h: Seq<char>, w: Seq<char>|
            #![trigger is_decimal(h), is_decimal(w)]
            {
                &&& is_decimal(h) && number(h) == height
                &&& is_decimal(w) && number(w) == width
                &&& out@ == encode_utf8(
                    "#?RADIANCE\n"@ + "# Created by cube2hdr\n"@ + "FORMAT=32-bit_rle_rgbe\n"@
                        + "EXPOSURE=1.0\n"@ + "\n"@ + "-Y "@ + h + " +X "@ + w + "\n"@,
                ) + Seq::new(height as nat, |y: int| lines[y]@).flatten()
            },
{
    let (h, w) = (decimal(height as nat), decimal(width as nat));
    lemma_is_decimal(height as nat);
    lemma_is_decimal(width as nat);
    let use_rle = rle && 8 <= width <= 32767;
    let all = Seq::new(height as nat, |y: int| lines[y]@);
    assert forall|y: int| #![trigger all[y]] 0 <= y < height implies all[y] == scanline(
        data@.subrange(y * (3 * width), (y + 1) * (3 * width)),
        width as nat,
        use_rle,
    ) by {
        let row = rows[y];
        let line = lines[y];
        assert(line@ == scanline(row@, width as nat, use_rle));
    }
    lemma_scanlines_are_flat(data@, width as nat, height as nat, use_rle, all);
    assert(is_decimal(h) && is_decimal(w));
    assert(out@ == file(data@, width as nat, height as nat, rle));
}

} // verus!
