//! What sampling keeps: borders, texel centres, single colours and single faces.
//!
//! Sampling is made of arithmetic that the caller hands in, so most laws ask
//! something of that arithmetic, on the values that occur.

use crate::cubemap::{clamped, running_sums, weighted_sum, Arithmetic, CubeMap, Filter};
use crate::float32::{function1, function3, zero, Float32};
use vstd::prelude::*;

verus! {

/// Beyond a border the outermost texel is seen again.
pub proof fn law_border_repeats(cube: CubeMap, face: int, x: int, y: int, c: int)
    requires
        cube.side() > 0,
    ensures
        ({
            let last = cube.side() - 1;
            &&& x <= 0 ==> cube.channel(face, x, y, c) == cube.channel(face, 0, y, c)
            &&& x >= last ==> cube.channel(face, x, y, c) == cube.channel(face, last, y, c)
            &&& y <= 0 ==> cube.channel(face, x, y, c) == cube.channel(face, x, 0, c)
            &&& y >= last ==> cube.channel(face, x, y, c) == cube.channel(face, x, last, c)
        }),
{
}

/// Whether `lerp` is settled on the values that `ok` admits: between them it stays
/// among them, between equal ones it gives that value, and at zero the first.
/// `unit` admits the distances that it is asked at.
pub open spec fn settled<L: Fn(Float32, Float32, Float32) -> Float32>(
    lerp: L,
    ok: spec_fn(Float32) -> bool,
    unit: spec_fn(Float32) -> bool,
) -> bool {
    forall|a: Float32, b: Float32, t: Float32, r: Float32|
        #![trigger call_ensures(lerp, (a, b, t), r)]
        ok(a) && ok(b) && unit(t) && call_ensures(lerp, (a, b, t), r) ==> {
            &&& ok(r)
            &&& a == b ==> r == a
            &&& t == zero() ==> r == a
        }
}

/// Whether every distance that `frac` gives at `x` is one that `unit` admits.
pub open spec fn within<F: Fn(Float32) -> Float32>(
    frac: F,
    x: Float32,
    unit: spec_fn(Float32) -> bool,
) -> bool {
    forall|t: Float32| #[trigger] call_ensures(frac, (x,), t) ==> unit(t)
}

/// Whether `x` is a texel centre to `frac`: there is no distance.
pub open spec fn centred<F: Fn(Float32) -> Float32>(frac: F, x: Float32) -> bool {
    forall|t: Float32| #[trigger] call_ensures(frac, (x,), t) ==> t == zero()
}

/// Whether `inner` is `x`, clamped to the span from the first texel centre to the last.
pub open spec fn clamped_to<F: Fn(Float32) -> Float32>(
    frac: F,
    x: Float32,
    inner: Float32,
    side: int,
) -> bool {
    if x.cell() < 0 {
        inner.cell() == 0 && centred(frac, inner)
    } else if x.cell() >= side - 1 {
        inner.cell() == side - 1 && centred(frac, inner)
    } else {
        inner == x
    }
}

/// A face of one colour gives that colour everywhere.
pub proof fn law_bilinear_keeps_one_color<
    F: Fn(Float32) -> Float32,
    L: Fn(Float32, Float32, Float32) -> Float32,
>(
    cube: CubeMap,
    face: int,
    x: Float32,
    y: Float32,
    frac: F,
    lerp: L,
    color: Seq<Float32>,
    c: int,
    value: Float32,
    ok: spec_fn(Float32) -> bool,
    unit: spec_fn(Float32) -> bool,
)
    requires
        cube.bilinear_at(face, x, y, frac, lerp, color),
        0 <= c < 3,
        forall|i: int, j: int| #[trigger] cube.channel(face, i, j, c) == value,
        ok(value),
        settled(lerp, ok, unit),
        within(frac, x, unit),
        within(frac, y, unit),
    ensures
        color[c] == value,
{
    let v = color[c];
    let (i, j) = (x.cell(), y.cell());
    assert(cube.channel(face, i, j, c) == value);
    assert(cube.channel(face, i + 1, j, c) == value);
    assert(cube.channel(face, i, j + 1, c) == value);
    assert(cube.channel(face, i + 1, j + 1, c) == value);
}

/// At a texel centre the texel is given back.
pub proof fn law_bilinear_at_texel<
    F: Fn(Float32) -> Float32,
    L: Fn(Float32, Float32, Float32) -> Float32,
>(
    cube: CubeMap,
    face: int,
    x: Float32,
    y: Float32,
    frac: F,
    lerp: L,
    color: Seq<Float32>,
    c: int,
    ok: spec_fn(Float32) -> bool,
    unit: spec_fn(Float32) -> bool,
)
    requires
        cube.bilinear_at(face, x, y, frac, lerp, color),
        0 <= c < 3,
        forall|i: int, j: int| ok(#[trigger] cube.channel(face, i, j, c)),
        settled(lerp, ok, unit),
        unit(zero()),
        centred(frac, x),
        centred(frac, y),
    ensures
        color[c] == cube.channel(face, x.cell(), y.cell(), c),
{
    let v = color[c];
    let (i, j) = (x.cell(), y.cell());
    assert(ok(cube.channel(face, i, j, c)));
    assert(ok(cube.channel(face, i + 1, j, c)));
    assert(ok(cube.channel(face, i, j + 1, c)));
    assert(ok(cube.channel(face, i + 1, j + 1, c)));
}

/// Along a row, a coordinate and its clamped form interpolate to one value.
proof fn lemma_row_clamps<
    F: Fn(Float32) -> Float32,
    L: Fn(Float32, Float32, Float32) -> Float32,
>(
    cube: CubeMap,
    face: int,
    x: Float32,
    x2: Float32,
    row: int,
    frac: F,
    lerp: L,
    c: int,
    fx: Float32,
    fx2: Float32,
    p: Float32,
    p2: Float32,
    ok: spec_fn(Float32) -> bool,
    unit: spec_fn(Float32) -> bool,
)
    requires
        cube.side() > 0,
        clamped_to(frac, x, x2, cube.side() as int),
        call_ensures(frac, (x,), fx),
        call_ensures(frac, (x2,), fx2),
        call_ensures(
            lerp,
            (cube.channel(face, x.cell(), row, c), cube.channel(face, x.cell() + 1, row, c), fx),
            p,
        ),
        call_ensures(
            lerp,
            (cube.channel(face, x2.cell(), row, c), cube.channel(face, x2.cell() + 1, row, c), fx2),
            p2,
        ),
        forall|i: int, j: int| ok(#[trigger] cube.channel(face, i, j, c)),
        settled(lerp, ok, unit),
        function1(frac),
        function3(lerp),
        within(frac, x, unit),
        within(frac, x2, unit),
    ensures
        p == p2,
        ok(p),
{
    let last = cube.side() - 1;
    assert(ok(cube.channel(face, x.cell(), row, c)));
    assert(ok(cube.channel(face, x.cell() + 1, row, c)));
    assert(ok(cube.channel(face, x2.cell(), row, c)));
    assert(ok(cube.channel(face, x2.cell() + 1, row, c)));
    if x2 == x {
        assert(fx == fx2);
    } else if x.cell() < 0 && x2.cell() == 0 && centred(frac, x2) {
        law_border_repeats(cube, face, x.cell(), row, c);
        law_border_repeats(cube, face, x.cell() + 1, row, c);
        assert(fx2 == zero());
    } else {
        law_border_repeats(cube, face, x.cell(), row, c);
        law_border_repeats(cube, face, x.cell() + 1, row, c);
        law_border_repeats(cube, face, x2.cell() + 1, row, c);
    }
}

/// Coordinates beyond the outermost texel centres give what the clamped
/// coordinates give: at the border the outermost texel is used again.
pub proof fn law_bilinear_clamps<
    F: Fn(Float32) -> Float32,
    L: Fn(Float32, Float32, Float32) -> Float32,
>(
    cube: CubeMap,
    face: int,
    at: (Float32, Float32),
    inner: (Float32, Float32),
    frac: F,
    lerp: L,
    color: Seq<Float32>,
    color2: Seq<Float32>,
    c: int,
    ok: spec_fn(Float32) -> bool,
    unit: spec_fn(Float32) -> bool,
)
    requires
        cube.side() > 0,
        clamped_to(frac, at.0, inner.0, cube.side() as int),
        clamped_to(frac, at.1, inner.1, cube.side() as int),
        cube.bilinear_at(face, at.0, at.1, frac, lerp, color),
        cube.bilinear_at(face, inner.0, inner.1, frac, lerp, color2),
        0 <= c < 3,
        forall|i: int, j: int| ok(#[trigger] cube.channel(face, i, j, c)),
        settled(lerp, ok, unit),
        function1(frac),
        function3(lerp),
        within(frac, at.0, unit),
        within(frac, at.1, unit),
        within(frac, inner.0, unit),
        within(frac, inner.1, unit),
    ensures
        color[c] == color2[c],
{
    let ((x, y), (x2, y2)) = (at, inner);
    let (i, j, i2, j2) = (x.cell(), y.cell(), x2.cell(), y2.cell());
    let last = cube.side() - 1;
    let (fx, fy) = choose|fx: Float32, fy: Float32|
        #![trigger call_ensures(frac, (x,), fx), call_ensures(frac, (y,), fy)]
        {
            &&& call_ensures(frac, (x,), fx)
            &&& call_ensures(frac, (y,), fy)
            &&& forall|c: int|
                #![trigger color[c]]
                0 <= c < 3 ==> cube.interpolated(face, i, j, fx, fy, lerp, c, color[c])
        };
    let (fx2, fy2) = choose|fx: Float32, fy: Float32|
        #![trigger call_ensures(frac, (x2,), fx), call_ensures(frac, (y2,), fy)]
        {
            &&& call_ensures(frac, (x2,), fx)
            &&& call_ensures(frac, (y2,), fy)
            &&& forall|c: int|
                #![trigger color2[c]]
                0 <= c < 3 ==> cube.interpolated(face, i2, j2, fx, fy, lerp, c, color2[c])
        };
    let (r, r2) = (color[c], color2[c]);
    let (top, bottom) = choose|top: Float32, bottom: Float32|
        #![trigger call_ensures(lerp, (top, bottom, fy), r)]
        {
            &&& call_ensures(
                lerp,
                (cube.channel(face, i, j, c), cube.channel(face, i + 1, j, c), fx),
                top,
            )
            &&& call_ensures(
                lerp,
                (cube.channel(face, i, j + 1, c), cube.channel(face, i + 1, j + 1, c), fx),
                bottom,
            )
            &&& call_ensures(lerp, (top, bottom, fy), r)
        };
    let (top2, bottom2) = choose|top: Float32, bottom: Float32|
        #![trigger call_ensures(lerp, (top, bottom, fy2), r2)]
        {
            &&& call_ensures(
                lerp,
                (cube.channel(face, i2, j2, c), cube.channel(face, i2 + 1, j2, c), fx2),
                top,
            )
            &&& call_ensures(
                lerp,
                (cube.channel(face, i2, j2 + 1, c), cube.channel(face, i2 + 1, j2 + 1, c), fx2),
                bottom,
            )
            &&& call_ensures(lerp, (top, bottom, fy2), r2)
        };
    assert(ok(cube.channel(face, i, j, c)) && ok(cube.channel(face, i + 1, j, c)));
    assert(ok(cube.channel(face, i, j + 1, c)) && ok(cube.channel(face, i + 1, j + 1, c)));
    assert(ok(cube.channel(face, i2, j2, c)) && ok(cube.channel(face, i2 + 1, j2, c)));
    assert(ok(cube.channel(face, i2, j2 + 1, c)) && ok(cube.channel(face, i2 + 1, j2 + 1, c)));
    assert(ok(top) && ok(bottom) && ok(top2) && ok(bottom2));
    if y2 == y {
        lemma_row_clamps(cube, face, x, x2, j, frac, lerp, c, fx, fx2, top, top2, ok, unit);
        lemma_row_clamps(cube, face, x, x2, j + 1, frac, lerp, c, fx, fx2, bottom, bottom2, ok, unit);
        assert(fy == fy2);
    } else if j < 0 && j2 == 0 && centred(frac, y2) {
        law_border_repeats(cube, face, i, j, c);
        law_border_repeats(cube, face, i + 1, j, c);
        law_border_repeats(cube, face, i, j + 1, c);
        law_border_repeats(cube, face, i + 1, j + 1, c);
        assert(top == bottom);
        lemma_row_clamps(cube, face, x, x2, 0, frac, lerp, c, fx, fx2, top, top2, ok, unit);
        assert(fy2 == zero());
    } else {
        law_border_repeats(cube, face, i, j, c);
        law_border_repeats(cube, face, i + 1, j, c);
        law_border_repeats(cube, face, i, j + 1, c);
        law_border_repeats(cube, face, i + 1, j + 1, c);
        law_border_repeats(cube, face, i2, j2 + 1, c);
        law_border_repeats(cube, face, i2 + 1, j2 + 1, c);
        assert(top == bottom);
        assert(top2 == bottom2);
        lemma_row_clamps(cube, face, x, x2, last, frac, lerp, c, fx, fx2, top, top2, ok, unit);
    }
}

/// Whether `madd` is settled on the values that `ok` admits: a weight of zero adds
/// nothing, and a weight of one puts the value in the place of zero.
pub open spec fn settled_sum<M: Fn(Float32, Float32, Float32) -> Float32>(
    madd: M,
    ok: spec_fn(Float32) -> bool,
    one: Float32,
) -> bool {
    &&& ok(zero())
    &&& forall|a: Float32, v: Float32, r: Float32|
        #![trigger call_ensures(madd, (a, v, zero()), r)]
        ok(a) && ok(v) && call_ensures(madd, (a, v, zero()), r) ==> r == a
    &&& forall|v: Float32, r: Float32|
        #![trigger call_ensures(madd, (zero(), v, one), r)]
        ok(v) && call_ensures(madd, (zero(), v, one), r) ==> r == v
}

/// Whether every place that a coordinate is put at is the centre of texel `i`.
pub open spec fn placed_at<
    T: Fn(Float32, usize) -> Float32,
    F: Fn(Float32) -> Float32,
    L: Fn(Float32, Float32, Float32) -> Float32,
    W: Fn(Float32) -> [Float32; 4],
    M: Fn(Float32, Float32, Float32) -> Float32,
>(ops: Arithmetic<T, F, L, W, M>, u: Float32, side: nat, i: int) -> bool {
    forall|x: Float32| #[trigger]
        call_ensures(ops.place, (u, side as usize), x) ==> x.cell() == i && centred(ops.frac, x)
}

/// Whether every place that a coordinate is put at lies beyond the outermost texel
/// centre, on the side of texel `i`.
pub open spec fn placed_beyond<
    T: Fn(Float32, usize) -> Float32,
    F: Fn(Float32) -> Float32,
    L: Fn(Float32, Float32, Float32) -> Float32,
    W: Fn(Float32) -> [Float32; 4],
    M: Fn(Float32, Float32, Float32) -> Float32,
>(
    ops: Arithmetic<T, F, L, W, M>,
    u: Float32,
    side: nat,
    i: int,
    unit: spec_fn(Float32) -> bool,
) -> bool {
    forall|x: Float32| #[trigger]
        call_ensures(ops.place, (u, side as usize), x) ==> {
            &&& x.cell() < 0 && i == 0 || x.cell() >= side - 1 && i == side - 1
            &&& within(ops.frac, x, unit)
        }
}

/// With the weights zero, one, zero, zero the second value is the sum.
proof fn lemma_sum_picks_second<M: Fn(Float32, Float32, Float32) -> Float32>(
    madd: M,
    values: Seq<Float32>,
    weights: Seq<Float32>,
    r: Float32,
    ok: spec_fn(Float32) -> bool,
    one: Float32,
)
    requires
        weighted_sum(madd, values, weights, r),
        values.len() == 4,
        forall|i: int| 0 <= i < 4 ==> ok(#[trigger] values[i]),
        weights == seq![zero(), one, zero(), zero()],
        settled_sum(madd, ok, one),
    ensures
        r == values[1],
{
    let sums = choose|sums: Seq<Float32>|
        #![trigger running_sums(madd, values, weights, sums)]
        {
            &&& running_sums(madd, values, weights, sums)
            &&& sums.len() == values.len() + 1
            &&& sums.last() == r
        };
    assert(ok(values[0]) && ok(values[1]) && ok(values[2]) && ok(values[3]));
    assert(call_ensures(madd, (sums[0], values[0], weights[0]), sums[1]));
    assert(call_ensures(madd, (sums[1], values[1], weights[1]), sums[2]));
    assert(call_ensures(madd, (sums[2], values[2], weights[2]), sums[3]));
    assert(call_ensures(madd, (sums[3], values[3], weights[3]), sums[4]));
    assert(sums[1] == zero());
    assert(sums[2] == values[1]);
    assert(sums[3] == values[1]);
}

/// At a texel centre bicubic reconstruction gives the texel back.
pub proof fn law_bicubic_at_texel<
    F: Fn(Float32) -> Float32,
    W: Fn(Float32) -> [Float32; 4],
    M: Fn(Float32, Float32, Float32) -> Float32,
>(
    cube: CubeMap,
    face: int,
    x: Float32,
    y: Float32,
    frac: F,
    weights: W,
    madd: M,
    color: Seq<Float32>,
    c: int,
    ok: spec_fn(Float32) -> bool,
    one: Float32,
)
    requires
        cube.bicubic_at(face, x, y, frac, weights, madd, color),
        0 <= c < 3,
        forall|i: int, j: int| ok(#[trigger] cube.channel(face, i, j, c)),
        zero().le(cube.channel(face, x.cell(), y.cell(), c)),
        centred(frac, x),
        centred(frac, y),
        forall|w: [Float32; 4]| #[trigger]
            call_ensures(weights, (zero(),), w) ==> w@ == seq![zero(), one, zero(), zero()],
        settled_sum(madd, ok, one),
    ensures
        color[c] == cube.channel(face, x.cell(), y.cell(), c),
{
    let (i, j) = (x.cell(), y.cell());
    let (fx, fy, wx, wy) = choose|fx: Float32, fy: Float32, wx: [Float32; 4], wy: [Float32; 4]|
        #![trigger call_ensures(weights, (fx,), wx), call_ensures(weights, (fy,), wy)]
        {
            &&& call_ensures(frac, (x,), fx)
            &&& call_ensures(frac, (y,), fy)
            &&& call_ensures(weights, (fx,), wx)
            &&& call_ensures(weights, (fy,), wy)
            &&& forall|c: int|
                #![trigger color[c]]
                0 <= c < 3 ==> cube.convolved(face, i - 1, j - 1, wx@, wy@, madd, c, color[c])
        };
    let r = color[c];
    let (sums, sum) = choose|sums: Seq<Float32>, sum: Float32|
        #![trigger weighted_sum(madd, sums, wy@, sum)]
        {
            &&& sums.len() == 4
            &&& cube.row_sums(face, i - 1, j - 1, wx@, madd, c, sums)
            &&& weighted_sum(madd, sums, wy@, sum)
            &&& r == sum.max_of(zero())
        };
    assert forall|k: int| 0 <= k < 4 implies #[trigger] sums[k] == cube.channel(
        face,
        i,
        j - 1 + k,
        c,
    ) by {
        let taps = cube.taps(face, i - 1, j - 1 + k, c);
        assert(taps[1] == cube.channel(face, i, j - 1 + k, c));
        lemma_sum_picks_second(madd, taps, wx@, sums[k], ok, one);
    }
    lemma_sum_picks_second(madd, sums, wy@, sum, ok, one);
}

/// At a texel centre a sample is the texel, with either filter.
pub proof fn law_sample_at_texel<
    T: Fn(Float32, usize) -> Float32,
    F: Fn(Float32) -> Float32,
    L: Fn(Float32, Float32, Float32) -> Float32,
    W: Fn(Float32) -> [Float32; 4],
    M: Fn(Float32, Float32, Float32) -> Float32,
>(
    cube: CubeMap,
    face: int,
    u: Float32,
    v: Float32,
    filter: Filter,
    ops: Arithmetic<T, F, L, W, M>,
    color: Seq<Float32>,
    i: int,
    j: int,
    c: int,
    ok: spec_fn(Float32) -> bool,
    unit: spec_fn(Float32) -> bool,
    one: Float32,
)
    requires
        cube.sampled(face, u, v, filter, ops, color),
        0 <= c < 3,
        placed_at(ops, u, cube.side(), i),
        placed_at(ops, v, cube.side(), j),
        forall|i: int, j: int| ok(#[trigger] cube.channel(face, i, j, c)),
        zero().le(cube.channel(face, i, j, c)),
        settled(ops.lerp, ok, unit),
        unit(zero()),
        forall|w: [Float32; 4]| #[trigger]
            call_ensures(ops.weights, (zero(),), w) ==> w@ == seq![zero(), one, zero(), zero()],
        settled_sum(ops.madd, ok, one),
    ensures
        color[c] == cube.channel(face, i, j, c),
{
    let (x, y) = choose|x: Float32, y: Float32|
        #![trigger call_ensures(ops.place, (u, cube.side() as usize), x), call_ensures(ops.place, (v, cube.side() as usize), y)]
        {
            &&& call_ensures(ops.place, (u, cube.side() as usize), x)
            &&& call_ensures(ops.place, (v, cube.side() as usize), y)
            &&& match filter {
                Filter::Bilinear => cube.bilinear_at(face, x, y, ops.frac, ops.lerp, color),
                Filter::Bicubic => cube.bicubic_at(
                    face,
                    x,
                    y,
                    ops.frac,
                    ops.weights,
                    ops.madd,
                    color,
                ),
            }
        };
    match filter {
        Filter::Bilinear => {
            law_bilinear_at_texel(cube, face, x, y, ops.frac, ops.lerp, color, c, ok, unit);
        },
        Filter::Bicubic => {
            law_bicubic_at_texel(
                cube,
                face,
                x,
                y,
                ops.frac,
                ops.weights,
                ops.madd,
                color,
                c,
                ok,
                one,
            );
        },
    }
}

/// Beyond the outermost texel centres both ways, a bilinear sample is the texel in
/// the corner.
pub proof fn law_sample_in_corner<
    T: Fn(Float32, usize) -> Float32,
    F: Fn(Float32) -> Float32,
    L: Fn(Float32, Float32, Float32) -> Float32,
    W: Fn(Float32) -> [Float32; 4],
    M: Fn(Float32, Float32, Float32) -> Float32,
>(
    cube: CubeMap,
    face: int,
    u: Float32,
    v: Float32,
    ops: Arithmetic<T, F, L, W, M>,
    color: Seq<Float32>,
    i: int,
    j: int,
    c: int,
    ok: spec_fn(Float32) -> bool,
    unit: spec_fn(Float32) -> bool,
)
    requires
        cube.side() > 0,
        cube.sampled(face, u, v, Filter::Bilinear, ops, color),
        0 <= c < 3,
        placed_beyond(ops, u, cube.side(), i, unit),
        placed_beyond(ops, v, cube.side(), j, unit),
        forall|i: int, j: int| ok(#[trigger] cube.channel(face, i, j, c)),
        settled(ops.lerp, ok, unit),
    ensures
        color[c] == cube.channel(face, i, j, c),
{
    let (x, y) = choose|x: Float32, y: Float32|
        #![trigger call_ensures(ops.place, (u, cube.side() as usize), x), call_ensures(ops.place, (v, cube.side() as usize), y)]
        {
            &&& call_ensures(ops.place, (u, cube.side() as usize), x)
            &&& call_ensures(ops.place, (v, cube.side() as usize), y)
            &&& cube.bilinear_at(face, x, y, ops.frac, ops.lerp, color)
        };
    let (a, b) = (x.cell(), y.cell());
    let r = color[c];
    let side = cube.side() as int;
    assert(clamped(a, side) == i && clamped(a + 1, side) == i);
    assert(clamped(b, side) == j && clamped(b + 1, side) == j);
    assert(clamped(i, side) == i && clamped(j, side) == j);
    assert(ok(cube.channel(face, i, j, c)));
    assert(cube.channel(face, a, b, c) == cube.channel(face, i, j, c));
    assert(cube.channel(face, a + 1, b, c) == cube.channel(face, i, j, c));
    assert(cube.channel(face, a, b + 1, c) == cube.channel(face, i, j, c));
    assert(cube.channel(face, a + 1, b + 1, c) == cube.channel(face, i, j, c));
}

/// What one cube shows, another with the same face shows too.
proof fn lemma_sample_carries_over<
    T: Fn(Float32, usize) -> Float32,
    F: Fn(Float32) -> Float32,
    L: Fn(Float32, Float32, Float32) -> Float32,
    W: Fn(Float32) -> [Float32; 4],
    M: Fn(Float32, Float32, Float32) -> Float32,
>(
    a: CubeMap,
    b: CubeMap,
    face: int,
    u: Float32,
    v: Float32,
    filter: Filter,
    ops: Arithmetic<T, F, L, W, M>,
    color: Seq<Float32>,
)
    requires
        a.side() == b.side(),
        a.values(face) == b.values(face),
        a.sampled(face, u, v, filter, ops, color),
    ensures
        b.sampled(face, u, v, filter, ops, color),
{
    let (x, y) = choose|x: Float32, y: Float32|
        #![trigger call_ensures(ops.place, (u, a.side() as usize), x), call_ensures(ops.place, (v, a.side() as usize), y)]
        {
            &&& call_ensures(ops.place, (u, a.side() as usize), x)
            &&& call_ensures(ops.place, (v, a.side() as usize), y)
            &&& match filter {
                Filter::Bilinear => a.bilinear_at(face, x, y, ops.frac, ops.lerp, color),
                Filter::Bicubic => a.bicubic_at(
                    face,
                    x,
                    y,
                    ops.frac,
                    ops.weights,
                    ops.madd,
                    color,
                ),
            }
        };
    let (i, j) = (x.cell(), y.cell());
    assert forall|p: int, q: int, c: int| #[trigger]
        a.channel(face, p, q, c) == b.channel(face, p, q, c) by {}
    match filter {
        Filter::Bilinear => {
            let (fx, fy) = choose|fx: Float32, fy: Float32|
                #![trigger call_ensures(ops.frac, (x,), fx), call_ensures(ops.frac, (y,), fy)]
                {
                    &&& call_ensures(ops.frac, (x,), fx)
                    &&& call_ensures(ops.frac, (y,), fy)
                    &&& forall|c: int|
                        #![trigger color[c]]
                        0 <= c < 3 ==> a.interpolated(face, i, j, fx, fy, ops.lerp, c, color[c])
                };
            assert forall|c: int| #![trigger color[c]] 0 <= c < 3 implies b.interpolated(
                face,
                i,
                j,
                fx,
                fy,
                ops.lerp,
                c,
                color[c],
            ) by {
                assert(a.interpolated(face, i, j, fx, fy, ops.lerp, c, color[c]));
                assert(a.channel(face, i, j, c) == b.channel(face, i, j, c));
                assert(a.channel(face, i + 1, j, c) == b.channel(face, i + 1, j, c));
                assert(a.channel(face, i, j + 1, c) == b.channel(face, i, j + 1, c));
                assert(a.channel(face, i + 1, j + 1, c) == b.channel(face, i + 1, j + 1, c));
            }
            assert(b.bilinear_at(face, x, y, ops.frac, ops.lerp, color));
        },
        Filter::Bicubic => {
            let (fx, fy, wx, wy) = choose|
                fx: Float32,
                fy: Float32,
                wx: [Float32; 4],
                wy: [Float32; 4],
            |
                #![trigger call_ensures(ops.weights, (fx,), wx), call_ensures(ops.weights, (fy,), wy)]
                {
                    &&& call_ensures(ops.frac, (x,), fx)
                    &&& call_ensures(ops.frac, (y,), fy)
                    &&& call_ensures(ops.weights, (fx,), wx)
                    &&& call_ensures(ops.weights, (fy,), wy)
                    &&& forall|c: int|
                        #![trigger color[c]]
                        0 <= c < 3 ==> a.convolved(
                            face,
                            i - 1,
                            j - 1,
                            wx@,
                            wy@,
                            ops.madd,
                            c,
                            color[c],
                        )
                };
            assert forall|c: int| #![trigger color[c]] 0 <= c < 3 implies b.convolved(
                face,
                i - 1,
                j - 1,
                wx@,
                wy@,
                ops.madd,
                c,
                color[c],
            ) by {
                let r = color[c];
                let (sums, sum) = choose|sums: Seq<Float32>, sum: Float32|
                    #![trigger weighted_sum(ops.madd, sums, wy@, sum)]
                    {
                        &&& sums.len() == 4
                        &&& a.row_sums(face, i - 1, j - 1, wx@, ops.madd, c, sums)
                        &&& weighted_sum(ops.madd, sums, wy@, sum)
                        &&& r == sum.max_of(zero())
                    };
                assert forall|k: int|
                    #![trigger sums[k]]
                    0 <= k < sums.len() implies weighted_sum(
                    ops.madd,
                    b.taps(face, i - 1, j - 1 + k, c),
                    wx@,
                    sums[k],
                ) by {
                    assert(a.taps(face, i - 1, j - 1 + k, c) =~= b.taps(
                        face,
                        i - 1,
                        j - 1 + k,
                        c,
                    ));
                }
                assert(b.row_sums(face, i - 1, j - 1, wx@, ops.madd, c, sums));
            }
            assert(b.bicubic_at(face, x, y, ops.frac, ops.weights, ops.madd, color));
        },
    }
}

/// A sample reads one face only: cubes that agree on it, whatever their other
/// faces hold, have the same samples there, at the edges too.
pub proof fn law_sample_reads_one_face<
    T: Fn(Float32, usize) -> Float32,
    F: Fn(Float32) -> Float32,
    L: Fn(Float32, Float32, Float32) -> Float32,
    W: Fn(Float32) -> [Float32; 4],
    M: Fn(Float32, Float32, Float32) -> Float32,
>(
    a: CubeMap,
    b: CubeMap,
    face: int,
    u: Float32,
    v: Float32,
    filter: Filter,
    ops: Arithmetic<T, F, L, W, M>,
    color: Seq<Float32>,
)
    requires
        a.side() == b.side(),
        a.values(face) == b.values(face),
    ensures
        a.sampled(face, u, v, filter, ops, color) == b.sampled(face, u, v, filter, ops, color),
{
    if a.sampled(face, u, v, filter, ops, color) {
        lemma_sample_carries_over(a, b, face, u, v, filter, ops, color);
    }
    if b.sampled(face, u, v, filter, ops, color) {
        lemma_sample_carries_over(b, a, face, u, v, filter, ops, color);
    }
}

/// Sums of the same values are the same, step by step.
proof fn lemma_sums_are_fixed<M: Fn(Float32, Float32, Float32) -> Float32>(
    madd: M,
    values: Seq<Float32>,
    weights: Seq<Float32>,
    sums: Seq<Float32>,
    sums2: Seq<Float32>,
    n: int,
)
    requires
        function3(madd),
        running_sums(madd, values, weights, sums),
        running_sums(madd, values, weights, sums2),
        0 <= n < sums.len(),
        n < sums2.len(),
    ensures
        sums[n] == sums2[n],
    decreases n,
{
    if n > 0 {
        lemma_sums_are_fixed(madd, values, weights, sums, sums2, n - 1);
    }
}

/// A weighted sum is fixed by its values and weights.
pub proof fn lemma_weighted_sum_is_fixed<M: Fn(Float32, Float32, Float32) -> Float32>(
    madd: M,
    values: Seq<Float32>,
    weights: Seq<Float32>,
    r: Float32,
    r2: Float32,
)
    requires
        function3(madd),
        weighted_sum(madd, values, weights, r),
        weighted_sum(madd, values, weights, r2),
    ensures
        r == r2,
{
    let sums = choose|sums: Seq<Float32>|
        #![trigger running_sums(madd, values, weights, sums)]
        {
            &&& running_sums(madd, values, weights, sums)
            &&& sums.len() == values.len() + 1
            &&& sums.last() == r
        };
    let sums2 = choose|sums: Seq<Float32>|
        #![trigger running_sums(madd, values, weights, sums)]
        {
            &&& running_sums(madd, values, weights, sums)
            &&& sums.len() == values.len() + 1
            &&& sums.last() == r2
        };
    lemma_sums_are_fixed(madd, values, weights, sums, sums2, values.len() as int);
}

/// A channel of a bicubic reconstruction is fixed by the texels and the weights.
proof fn lemma_convolution_is_fixed<M: Fn(Float32, Float32, Float32) -> Float32>(
    cube: CubeMap,
    face: int,
    x: int,
    y: int,
    wx: Seq<Float32>,
    wy: Seq<Float32>,
    madd: M,
    c: int,
    r: Float32,
    r2: Float32,
)
    requires
        function3(madd),
        cube.convolved(face, x, y, wx, wy, madd, c, r),
        cube.convolved(face, x, y, wx, wy, madd, c, r2),
    ensures
        r == r2,
{
    let (sums, sum) = choose|sums: Seq<Float32>, sum: Float32|
        #![trigger weighted_sum(madd, sums, wy, sum)]
        {
            &&& sums.len() == 4
            &&& cube.row_sums(face, x, y, wx, madd, c, sums)
            &&& weighted_sum(madd, sums, wy, sum)
            &&& r == sum.max_of(zero())
        };
    let (sums2, sum2) = choose|sums: Seq<Float32>, sum: Float32|
        #![trigger weighted_sum(madd, sums, wy, sum)]
        {
            &&& sums.len() == 4
            &&& cube.row_sums(face, x, y, wx, madd, c, sums)
            &&& weighted_sum(madd, sums, wy, sum)
            &&& r2 == sum.max_of(zero())
        };
    assert forall|j: int| 0 <= j < 4 implies #[trigger] sums[j] == sums2[j] by {
        lemma_weighted_sum_is_fixed(madd, cube.taps(face, x, y + j, c), wx, sums[j], sums2[j]);
    }
    assert(sums =~= sums2);
    lemma_weighted_sum_is_fixed(madd, sums, wy, sum, sum2);
}

/// A sample is fixed by its face, its place and the filter, where the arithmetic
/// gives one result: cubes that agree on the face, whatever their other faces
/// hold, give the same color there, at the edges too.
pub proof fn law_sample_is_fixed<
    T: Fn(Float32, usize) -> Float32,
    F: Fn(Float32) -> Float32,
    L: Fn(Float32, Float32, Float32) -> Float32,
    W: Fn(Float32) -> [Float32; 4],
    M: Fn(Float32, Float32, Float32) -> Float32,
>(
    a: CubeMap,
    b: CubeMap,
    face: int,
    u: Float32,
    v: Float32,
    filter: Filter,
    ops: Arithmetic<T, F, L, W, M>,
    color: Seq<Float32>,
    color2: Seq<Float32>,
    c: int,
)
    requires
        a.side() == b.side(),
        a.values(face) == b.values(face),
        ops.single(),
        a.sampled(face, u, v, filter, ops, color),
        b.sampled(face, u, v, filter, ops, color2),
        0 <= c < 3,
    ensures
        color[c] == color2[c],
{
    lemma_sample_carries_over(b, a, face, u, v, filter, ops, color2);
    let (r, r2) = (color[c], color2[c]);
    let side = a.side() as usize;
    let (x, y) = choose|x: Float32, y: Float32|
        #![trigger call_ensures(ops.place, (u, side), x), call_ensures(ops.place, (v, side), y)]
        {
            &&& call_ensures(ops.place, (u, side), x)
            &&& call_ensures(ops.place, (v, side), y)
            &&& match filter {
                Filter::Bilinear => a.bilinear_at(face, x, y, ops.frac, ops.lerp, color),
                Filter::Bicubic => a.bicubic_at(
                    face,
                    x,
                    y,
                    ops.frac,
                    ops.weights,
                    ops.madd,
                    color,
                ),
            }
        };
    let (x2, y2) = choose|x: Float32, y: Float32|
        #![trigger call_ensures(ops.place, (u, side), x), call_ensures(ops.place, (v, side), y)]
        {
            &&& call_ensures(ops.place, (u, side), x)
            &&& call_ensures(ops.place, (v, side), y)
            &&& match filter {
                Filter::Bilinear => a.bilinear_at(face, x, y, ops.frac, ops.lerp, color2),
                Filter::Bicubic => a.bicubic_at(
                    face,
                    x,
                    y,
                    ops.frac,
                    ops.weights,
                    ops.madd,
                    color2,
                ),
            }
        };
    assert(x == x2 && y == y2);
    let (i, j) = (x.cell(), y.cell());
    match filter {
        Filter::Bilinear => {
            let (fx, fy) = choose|fx: Float32, fy: Float32|
                #![trigger call_ensures(ops.frac, (x,), fx), call_ensures(ops.frac, (y,), fy)]
                {
                    &&& call_ensures(ops.frac, (x,), fx)
                    &&& call_ensures(ops.frac, (y,), fy)
                    &&& forall|c: int|
                        #![trigger color[c]]
                        0 <= c < 3 ==> a.interpolated(face, i, j, fx, fy, ops.lerp, c, color[c])
                };
            let (fx2, fy2) = choose|fx: Float32, fy: Float32|
                #![trigger call_ensures(ops.frac, (x,), fx), call_ensures(ops.frac, (y,), fy)]
                {
                    &&& call_ensures(ops.frac, (x,), fx)
                    &&& call_ensures(ops.frac, (y,), fy)
                    &&& forall|c: int|
                        #![trigger color2[c]]
                        0 <= c < 3 ==> a.interpolated(face, i, j, fx, fy, ops.lerp, c, color2[c])
                };
            assert(fx == fx2 && fy == fy2);
            assert(a.interpolated(face, i, j, fx, fy, ops.lerp, c, r));
            assert(a.interpolated(face, i, j, fx, fy, ops.lerp, c, r2));
        },
        Filter::Bicubic => {
            let (fx, fy, wx, wy) = choose|
                fx: Float32,
                fy: Float32,
                wx: [Float32; 4],
                wy: [Float32; 4],
            |
                #![trigger call_ensures(ops.weights, (fx,), wx), call_ensures(ops.weights, (fy,), wy)]
                {
                    &&& call_ensures(ops.frac, (x,), fx)
                    &&& call_ensures(ops.frac, (y,), fy)
                    &&& call_ensures(ops.weights, (fx,), wx)
                    &&& call_ensures(ops.weights, (fy,), wy)
                    &&& forall|c: int|
                        #![trigger color[c]]
                        0 <= c < 3 ==> a.convolved(
                            face,
                            i - 1,
                            j - 1,
                            wx@,
                            wy@,
                            ops.madd,
                            c,
                            color[c],
                        )
                };
            let (fx2, fy2, wx2, wy2) = choose|
                fx: Float32,
                fy: Float32,
                wx: [Float32; 4],
                wy: [Float32; 4],
            |
                #![trigger call_ensures(ops.weights, (fx,), wx), call_ensures(ops.weights, (fy,), wy)]
                {
                    &&& call_ensures(ops.frac, (x,), fx)
                    &&& call_ensures(ops.frac, (y,), fy)
                    &&& call_ensures(ops.weights, (fx,), wx)
                    &&& call_ensures(ops.weights, (fy,), wy)
                    &&& forall|c: int|
                        #![trigger color2[c]]
                        0 <= c < 3 ==> a.convolved(
                            face,
                            i - 1,
                            j - 1,
                            wx@,
                            wy@,
                            ops.madd,
                            c,
                            color2[c],
                        )
                };
            assert(fx == fx2 && fy == fy2);
            assert(wx == wx2 && wy == wy2);
            lemma_convolution_is_fixed(a, face, i - 1, j - 1, wx@, wy@, ops.madd, c, r, r2);
        },
    }
}

} // verus!
