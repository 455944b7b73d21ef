//! Laws of putting a cube together and of sampling its faces.

use crate::cubemap::{clamped, running_sums, weighted_sum, Arithmetic, CubeMap, Filter, SizeMismatch};
use crate::face::Face;
use crate::float32::{function1, function2, function3, zero, Float32};
use crate::laws::coding::{is_decimal, lemma_is_decimal};
use crate::projection::dir_to_face_uv;
use crate::sampling::{centred, law_sample_is_fixed, lemma_weighted_sum_is_fixed, settled};
use crate::text::{decimal, number};
use vstd::arithmetic::div_mod::lemma_fundamental_div_mod_converse;
use vstd::arithmetic::power2::{lemma_pow2_pos, pow2};
use vstd::prelude::*;

verus! {

/// Six faces make a cube exactly where they are of one size, which is then the
/// size of the cube. Otherwise the first face of another size than the first of
/// all is named, with both sizes.
pub proof fn law_cubes_have_one_size(faces: Vec<Face>, loaded: Result<CubeMap, SizeMismatch>, size: usize)
    requires
        call_ensures(CubeMap::load, (faces,), loaded),
        loaded matches Ok(cube) ==> call_ensures(CubeMap::size, (&cube,), size),
    ensures
        loaded is Ok <==> forall|f: int| 0 <= f < 6 ==> (#[trigger] faces@[f]).size == faces@[0].size,
        loaded is Ok ==> size == faces@[0].size,
        loaded matches Err(e) ==> {
            &&& e.face < 6
            &&& e.size == faces@[e.face as int].size
            &&& e.expected == faces@[0].size
            &&& e.size != e.expected
            &&& forall|f: int| 0 <= f < e.face ==> (#[trigger] faces@[f]).size == e.expected
        },
{
}

/// The message about faces of different size tells the name and the size of both.
pub proof fn law_mismatches_are_told(error: SizeMismatch, name: &str, first: &str, message: String)
    requires
        call_ensures(SizeMismatch::message, (&error, name, first), message),
    ensures
        exists|a: Seq<char>, b: Seq<char>|
            {
                &&& #[trigger] is_decimal(a) && number(a) == error.size
                &&& #[trigger] is_decimal(b) && number(b) == error.expected
                &&& message@ == "face size mismatch: "@ + name@ + " is "@ + a + "x"@ + a + ", but "@
                    + first@ + " is "@ + b + "x"@ + b
            },
{
    lemma_is_decimal(error.size as nat);
    lemma_is_decimal(error.expected as nat);
    assert(is_decimal(decimal(error.size as nat)) && is_decimal(decimal(error.expected as nat)));
}

/// A texel is the pixel of its face at its column and row, as the face was handed
/// in: faces keep their order, rows go from top to bottom, columns from left to right.
pub proof fn law_texels_are_pixels(
    faces: Vec<Face>,
    cube: CubeMap,
    face: usize,
    x: i64,
    y: i64,
    texel: [Float32; 3],
    c: int,
)
    requires
        call_ensures(CubeMap::load, (faces,), Ok::<CubeMap, SizeMismatch>(cube)),
        call_ensures(CubeMap::texel, (&cube, face, x, y), texel),
        face < 6,
        0 <= x < faces@[0].size,
        0 <= y < faces@[0].size,
        0 <= c < 3,
    ensures
        texel@[c] == faces@[face as int].data@[3 * (y * faces@[0].size + x) + c],
{
}

/// Beyond the border the nearest texel of the border is seen again.
pub proof fn law_texels_repeat(
    cube: CubeMap,
    size: usize,
    face: usize,
    at: (i64, i64),
    near: (i64, i64),
    texel: [Float32; 3],
    texel2: [Float32; 3],
    c: int,
)
    requires
        call_ensures(CubeMap::size, (&cube,), size),
        call_ensures(CubeMap::texel, (&cube, face, at.0, at.1), texel),
        call_ensures(CubeMap::texel, (&cube, face, near.0, near.1), texel2),
        0 <= near.0 < size && (at.0 < 0 ==> near.0 == 0) && (at.0 >= size ==> near.0 == size - 1),
        0 <= near.1 < size && (at.1 < 0 ==> near.1 == 0) && (at.1 >= size ==> near.1 == size - 1),
        0 <= at.0 < size ==> near.0 == at.0,
        0 <= at.1 < size ==> near.1 == at.1,
        0 <= c < 3,
    ensures
        texel@[c] == texel2@[c],
{
    assert(clamped(at.0 as int, size as int) == near.0);
    assert(clamped(at.1 as int, size as int) == near.1);
    assert(clamped(near.0 as int, size as int) == near.0);
    assert(clamped(near.1 as int, size as int) == near.1);
    assert(texel@[c] == cube.channel(face as int, at.0 as int, at.1 as int, c));
    assert(texel2@[c] == cube.channel(face as int, near.0 as int, near.1 as int, c));
}

/// Whether `i` is the integer just below a coordinate, or the coordinate itself.
pub open spec fn below(i: i64, x: Float32) -> bool {
    &&& !x.nan()
    &&& -0x8000_0000 <= i < 0x7fff_ffff
    &&& i * pow2(149) <= x.units() < (i + 1) * pow2(149)
}

/// The integer just below a coordinate is unique.
proof fn lemma_below(i: i64, x: Float32)
    requires
        below(i, x),
    ensures
        x.cell() == i,
{
    let one = pow2(149) as int;
    lemma_pow2_pos(149);
    let r = x.units() - i * one;
    assert(0 <= r < one) by (nonlinear_arith)
        requires
            r == x.units() - i * one,
            i * one <= x.units() < (i + 1) * one,
    ;
    lemma_fundamental_div_mod_converse(x.units(), one, i as int, r);
}

/// Whether the six texels of two columns and three rows, from `(i, j)` on, are such
/// that a channel of all of them is admitted by `ok`.
pub open spec fn texels_around(
    cube: CubeMap,
    face: usize,
    i: i64,
    j: i64,
    left: ([Float32; 3], [Float32; 3], [Float32; 3]),
    right: ([Float32; 3], [Float32; 3], [Float32; 3]),
    c: int,
    ok: spec_fn(Float32) -> bool,
) -> bool {
    &&& call_ensures(CubeMap::texel, (&cube, face, i, j), left.0)
    &&& call_ensures(CubeMap::texel, (&cube, face, i, (j + 1) as i64), left.1)
    &&& call_ensures(CubeMap::texel, (&cube, face, i, (j + 2) as i64), left.2)
    &&& call_ensures(CubeMap::texel, (&cube, face, (i + 1) as i64, j), right.0)
    &&& call_ensures(CubeMap::texel, (&cube, face, (i + 1) as i64, (j + 1) as i64), right.1)
    &&& call_ensures(CubeMap::texel, (&cube, face, (i + 1) as i64, (j + 2) as i64), right.2)
    &&& ok(left.0@[c]) && ok(left.1@[c]) && ok(left.2@[c])
    &&& ok(right.0@[c]) && ok(right.1@[c]) && ok(right.2@[c])
}

/// Along a row of texel centres, a bilinear sample lies between the texels to the
/// left and to the right, at the distance from the left one, on faces of any size.
/// Down a column of them it lies between the texels above and below, at the
/// distance from the upper one.
pub proof fn law_bilinear_along_rows_and_columns<
    F: Fn(Float32) -> Float32,
    L: Fn(Float32, Float32, Float32) -> Float32,
>(
    cube: CubeMap,
    face: usize,
    x: Float32,
    y: Float32,
    frac: F,
    lerp: L,
    color: [Float32; 3],
    i: i64,
    j: i64,
    left: ([Float32; 3], [Float32; 3], [Float32; 3]),
    right: ([Float32; 3], [Float32; 3], [Float32; 3]),
    fx: Float32,
    fy: Float32,
    c: int,
    ok: spec_fn(Float32) -> bool,
    unit: spec_fn(Float32) -> bool,
)
    requires
        call_ensures(CubeMap::bilinear::<F, L>, (&cube, face, x, y, &frac, &lerp), color),
        below(i, x),
        below(j, y),
        0 <= c < 3,
        texels_around(cube, face, i, j, left, right, c, ok),
        call_ensures(frac, (x,), fx),
        call_ensures(frac, (y,), fy),
        function1(frac),
        unit(fx) && unit(fy),
        settled(lerp, ok, unit),
    ensures
        fy == zero() ==> call_ensures(lerp, (left.0@[c], right.0@[c], fx), color@[c]),
        fx == zero() ==> call_ensures(lerp, (left.0@[c], left.1@[c], fy), color@[c]),
{
    lemma_below(i, x);
    lemma_below(j, y);
    let r = color@[c];
    assert(left.0@[c] == cube.channel(face as int, i as int, j as int, c));
    assert(left.1@[c] == cube.channel(face as int, i as int, j + 1, c));
    assert(right.0@[c] == cube.channel(face as int, i + 1, j as int, c));
    assert(right.1@[c] == cube.channel(face as int, i + 1, j + 1, c));
}

/// Anywhere else, a bilinear sample lies between the samples on the row of texel
/// centres above and on the row below, at the distance from the upper one.
pub proof fn law_bilinear_between_rows<
    F: Fn(Float32) -> Float32,
    L: Fn(Float32, Float32, Float32) -> Float32,
>(
    cube: CubeMap,
    face: usize,
    x: Float32,
    y: Float32,
    above: Float32,
    under: Float32,
    frac: F,
    lerp: L,
    color: [Float32; 3],
    upper: [Float32; 3],
    lower: [Float32; 3],
    i: i64,
    j: i64,
    left: ([Float32; 3], [Float32; 3], [Float32; 3]),
    right: ([Float32; 3], [Float32; 3], [Float32; 3]),
    fx: Float32,
    fy: Float32,
    c: int,
    ok: spec_fn(Float32) -> bool,
    unit: spec_fn(Float32) -> bool,
)
    requires
        call_ensures(CubeMap::bilinear::<F, L>, (&cube, face, x, y, &frac, &lerp), color),
        call_ensures(CubeMap::bilinear::<F, L>, (&cube, face, x, above, &frac, &lerp), upper),
        call_ensures(CubeMap::bilinear::<F, L>, (&cube, face, x, under, &frac, &lerp), lower),
        below(i, x),
        below(j, y),
        below(j, above),
        below((j + 1) as i64, under),
        centred(frac, above),
        centred(frac, under),
        0 <= c < 3,
        texels_around(cube, face, i, j, left, right, c, ok),
        call_ensures(frac, (x,), fx),
        call_ensures(frac, (y,), fy),
        function1(frac),
        function3(lerp),
        unit(fx) && unit(fy) && unit(zero()),
        settled(lerp, ok, unit),
    ensures
        call_ensures(lerp, (upper@[c], lower@[c], fy), color@[c]),
{
    lemma_below(i, x);
    lemma_below(j, y);
    lemma_below(j, above);
    lemma_below((j + 1) as i64, under);
    let (r, r1, r2) = (color@[c], upper@[c], lower@[c]);
    assert(left.0@[c] == cube.channel(face as int, i as int, j as int, c));
    assert(left.1@[c] == cube.channel(face as int, i as int, j + 1, c));
    assert(left.2@[c] == cube.channel(face as int, i as int, j + 2, c));
    assert(right.0@[c] == cube.channel(face as int, i + 1, j as int, c));
    assert(right.1@[c] == cube.channel(face as int, i + 1, j + 1, c));
    assert(right.2@[c] == cube.channel(face as int, i + 1, j + 2, c));
}

/// A bilinear sample has to do with the four texels around it and with the two
/// distances alone: with the same ones, another cube, of another size, on another
/// face, at another place, gives the same value, in whatever channel.
pub proof fn law_bilinear_depends_on_four_texels<
    F: Fn(Float32) -> Float32,
    L: Fn(Float32, Float32, Float32) -> Float32,
>(
    cube: CubeMap,
    cube2: CubeMap,
    face: usize,
    face2: usize,
    at: (Float32, Float32),
    at2: (Float32, Float32),
    frac: F,
    lerp: L,
    color: [Float32; 3],
    color2: [Float32; 3],
    i: (i64, i64),
    i2: (i64, i64),
    texels: Seq<Seq<[Float32; 3]>>,
    texels2: Seq<Seq<[Float32; 3]>>,
    fx: Float32,
    fy: Float32,
    c: int,
    d: int,
)
    requires
        call_ensures(CubeMap::bilinear::<F, L>, (&cube, face, at.0, at.1, &frac, &lerp), color),
        call_ensures(CubeMap::bilinear::<F, L>, (&cube2, face2, at2.0, at2.1, &frac, &lerp), color2),
        below(i.0, at.0) && below(i.1, at.1) && below(i2.0, at2.0) && below(i2.1, at2.1),
        0 <= c < 3,
        0 <= d < 3,
        forall|k: int, l: int|
            #![trigger texels[l][k]]
            #![trigger texels2[l][k]]
            0 <= k < 2 && 0 <= l < 2 ==> {
                &&& call_ensures(
                    CubeMap::texel,
                    (&cube, face, (i.0 + k) as i64, (i.1 + l) as i64),
                    texels[l][k],
                )
                &&& call_ensures(
                    CubeMap::texel,
                    (&cube2, face2, (i2.0 + k) as i64, (i2.1 + l) as i64),
                    texels2[l][k],
                )
                &&& texels[l][k]@[c] == texels2[l][k]@[d]
            },
        function1(frac),
        function3(lerp),
        call_ensures(frac, (at.0,), fx) && call_ensures(frac, (at2.0,), fx),
        call_ensures(frac, (at.1,), fy) && call_ensures(frac, (at2.1,), fy),
    ensures
        color@[c] == color2@[d],
{
    lemma_below(i.0, at.0);
    lemma_below(i.1, at.1);
    lemma_below(i2.0, at2.0);
    lemma_below(i2.1, at2.1);
    let (r, r2) = (color@[c], color2@[d]);
    assert forall|k: int, l: int|
        #![trigger texels[l][k]]
        0 <= k < 2 && 0 <= l < 2 implies cube.channel(face as int, i.0 + k, i.1 + l, c)
        == cube2.channel(face2 as int, i2.0 + k, i2.1 + l, d) by {
        assert(texels[l][k]@[c] == cube.channel(face as int, i.0 + k, i.1 + l, c));
        assert(texels2[l][k]@[d] == cube2.channel(face2 as int, i2.0 + k, i2.1 + l, d));
    }
    let (a, b, e, f) = (texels[0][0], texels[0][1], texels[1][0], texels[1][1]);
}

/// A bilinear sample lies between the four texels around it: first along the two
/// rows, then from the upper result to the lower.
pub proof fn law_bilinear_between_four_texels<
    F: Fn(Float32) -> Float32,
    L: Fn(Float32, Float32, Float32) -> Float32,
>(
    cube: CubeMap,
    face: usize,
    x: Float32,
    y: Float32,
    frac: F,
    lerp: L,
    color: [Float32; 3],
    i: i64,
    j: i64,
    corners: ([Float32; 3], [Float32; 3], [Float32; 3], [Float32; 3]),
    fx: Float32,
    fy: Float32,
    c: int,
)
    requires
        call_ensures(CubeMap::bilinear::<F, L>, (&cube, face, x, y, &frac, &lerp), color),
        below(i, x),
        below(j, y),
        call_ensures(CubeMap::texel, (&cube, face, i, j), corners.0),
        call_ensures(CubeMap::texel, (&cube, face, (i + 1) as i64, j), corners.1),
        call_ensures(CubeMap::texel, (&cube, face, i, (j + 1) as i64), corners.2),
        call_ensures(CubeMap::texel, (&cube, face, (i + 1) as i64, (j + 1) as i64), corners.3),
        call_ensures(frac, (x,), fx),
        call_ensures(frac, (y,), fy),
        function1(frac),
        0 <= c < 3,
    ensures
        exists|top: Float32, bottom: Float32|
            {
                &&& #[trigger] call_ensures(lerp, (corners.0@[c], corners.1@[c], fx), top)
                &&& #[trigger] call_ensures(lerp, (corners.2@[c], corners.3@[c], fx), bottom)
                &&& call_ensures(lerp, (top, bottom, fy), color@[c])
            },
{
    lemma_below(i, x);
    lemma_below(j, y);
    let r = color@[c];
    assert(corners.0@[c] == cube.channel(face as int, i as int, j as int, c));
    assert(corners.1@[c] == cube.channel(face as int, i + 1, j as int, c));
    assert(corners.2@[c] == cube.channel(face as int, i as int, j + 1, c));
    assert(corners.3@[c] == cube.channel(face as int, i + 1, j + 1, c));
}

/// Where a sample is taken: a bilinear one at the column that `place` puts `u` at
/// and the row that it puts `v` at, on a side of as many texels as the cube has.
pub proof fn law_samples_are_placed<
    T: Fn(Float32, usize) -> Float32,
    F: Fn(Float32) -> Float32,
    L: Fn(Float32, Float32, Float32) -> Float32,
    W: Fn(Float32) -> [Float32; 4],
    M: Fn(Float32, Float32, Float32) -> Float32,
>(
    cube: CubeMap,
    size: usize,
    face: usize,
    u: Float32,
    v: Float32,
    ops: Arithmetic<T, F, L, W, M>,
    x: Float32,
    y: Float32,
    smooth: [Float32; 3],
    smooth_there: [Float32; 3],
    sharp: [Float32; 3],
    sharp_there: [Float32; 3],
    c: int,
)
    requires
        ops.single(),
        call_ensures(CubeMap::size, (&cube,), size),
        call_ensures(ops.place, (u, size), x),
        call_ensures(ops.place, (v, size), y),
        call_ensures(
            CubeMap::sample::<T, F, L, W, M>,
            (&cube, face, u, v, Filter::Bilinear, &ops),
            smooth,
        ),
        call_ensures(
            CubeMap::bilinear::<F, L>,
            (&cube, face, x, y, &ops.frac, &ops.lerp),
            smooth_there,
        ),
        call_ensures(
            CubeMap::sample::<T, F, L, W, M>,
            (&cube, face, u, v, Filter::Bicubic, &ops),
            sharp,
        ),
        call_ensures(
            CubeMap::bicubic::<F, W, M>,
            (&cube, face, x, y, &ops.frac, &ops.weights, &ops.madd),
            sharp_there,
        ),
        0 <= c < 3,
    ensures
        smooth@[c] == smooth_there@[c],
        sharp@[c] == sharp_there@[c],
{
    let f = face as int;
    assert(cube.side() as usize == size);
    assert(cube.sampled(f, u, v, Filter::Bilinear, ops, smooth_there@));
    assert(cube.sampled(f, u, v, Filter::Bicubic, ops, sharp_there@));
    law_sample_is_fixed(cube, cube, f, u, v, Filter::Bilinear, ops, smooth@, smooth_there@, c);
    law_sample_is_fixed(cube, cube, f, u, v, Filter::Bicubic, ops, sharp@, sharp_there@, c);
}

/// What the cube shows in a direction is the sample of the face that the direction
/// lands on, at the coordinates where it lands.
pub proof fn law_looking_samples_where_it_lands<
    P: Fn(Float32, Float32) -> Float32,
    T: Fn(Float32, usize) -> Float32,
    F: Fn(Float32) -> Float32,
    L: Fn(Float32, Float32, Float32) -> Float32,
    W: Fn(Float32) -> [Float32; 4],
    M: Fn(Float32, Float32, Float32) -> Float32,
>(
    cube: CubeMap,
    dir: [Float32; 3],
    filter: Filter,
    project: P,
    ops: Arithmetic<T, F, L, W, M>,
    at: (usize, Float32, Float32),
    seen: [Float32; 3],
    sample: [Float32; 3],
    c: int,
)
    requires
        ops.single(),
        function2(project),
        call_ensures(CubeMap::look::<P, T, F, L, W, M>, (&cube, dir, filter, &project, &ops), seen),
        call_ensures(dir_to_face_uv::<P>, (dir, &project), at),
        call_ensures(
            CubeMap::sample::<T, F, L, W, M>,
            (&cube, at.0, at.1, at.2, filter, &ops),
            sample,
        ),
        0 <= c < 3,
    ensures
        seen@[c] == sample@[c],
{
    assert(cube.sampled(at.0 as int, at.1, at.2, filter, ops, seen@));
    law_sample_is_fixed(cube, cube, at.0 as int, at.1, at.2, filter, ops, seen@, sample@, c);
}

/// Whether `sums` adds up four values times their weights, from zero on.
pub open spec fn adds_up<M: Fn(Float32, Float32, Float32) -> Float32>(
    madd: M,
    values: (Float32, Float32, Float32, Float32),
    weights: [Float32; 4],
    sums: (Float32, Float32, Float32, Float32),
) -> bool {
    &&& call_ensures(madd, (zero(), values.0, weights@[0]), sums.0)
    &&& call_ensures(madd, (sums.0, values.1, weights@[1]), sums.1)
    &&& call_ensures(madd, (sums.1, values.2, weights@[2]), sums.2)
    &&& call_ensures(madd, (sums.2, values.3, weights@[3]), sums.3)
}

/// Four values that are added up have that weighted sum.
proof fn lemma_adds_up<M: Fn(Float32, Float32, Float32) -> Float32>(
    madd: M,
    values: (Float32, Float32, Float32, Float32),
    weights: [Float32; 4],
    sums: (Float32, Float32, Float32, Float32),
    r: Float32,
)
    requires
        function3(madd),
        adds_up(madd, values, weights, sums),
        weighted_sum(madd, seq![values.0, values.1, values.2, values.3], weights@, r),
    ensures
        r == sums.3,
{
    let v = seq![values.0, values.1, values.2, values.3];
    let s = choose|sums: Seq<Float32>|
        #![trigger running_sums(madd, v, weights@, sums)]
        {
            &&& running_sums(madd, v, weights@, sums)
            &&& sums.len() == v.len() + 1
            &&& sums.last() == r
        };
    assert(call_ensures(madd, (s[0], v[0], weights@[0]), s[1]));
    assert(call_ensures(madd, (s[1], v[1], weights@[1]), s[2]));
    assert(call_ensures(madd, (s[2], v[2], weights@[2]), s[3]));
    assert(call_ensures(madd, (s[3], v[3], weights@[3]), s[4]));
}

/// A bicubic sample adds up the texels of four rows around it, from one left of the
/// coordinate to two right of it, by the weights of the column, and then these
/// four sums, from one above to two below, by the weights of the row. What is
/// below zero, or no number, becomes zero.
pub proof fn law_bicubic_adds_up_sixteen_texels<
    F: Fn(Float32) -> Float32,
    W: Fn(Float32) -> [Float32; 4],
    M: Fn(Float32, Float32, Float32) -> Float32,
>(
    cube: CubeMap,
    face: usize,
    x: Float32,
    y: Float32,
    frac: F,
    weights: W,
    madd: M,
    color: [Float32; 3],
    i: i64,
    j: i64,
    texels: Seq<Seq<[Float32; 3]>>,
    fx: Float32,
    fy: Float32,
    wx: [Float32; 4],
    wy: [Float32; 4],
    rows: Seq<(Float32, Float32, Float32, Float32)>,
    total: (Float32, Float32, Float32, Float32),
    c: int,
)
    requires
        call_ensures(
            CubeMap::bicubic::<F, W, M>,
            (&cube, face, x, y, &frac, &weights, &madd),
            color,
        ),
        below(i, x),
        below(j, y),
        0 <= c < 3,
        forall|k: int, l: int|
            #![trigger texels[l][k]]
            0 <= k < 4 && 0 <= l < 4 ==> call_ensures(
                CubeMap::texel,
                (&cube, face, (i - 1 + k) as i64, (j - 1 + l) as i64),
                texels[l][k],
            ),
        function1(frac),
        function1(weights),
        function3(madd),
        call_ensures(frac, (x,), fx),
        call_ensures(frac, (y,), fy),
        call_ensures(weights, (fx,), wx),
        call_ensures(weights, (fy,), wy),
        forall|l: int|
            #![trigger rows[l]]
            0 <= l < 4 ==> adds_up(
                madd,
                (texels[l][0]@[c], texels[l][1]@[c], texels[l][2]@[c], texels[l][3]@[c]),
                wx,
                rows[l],
            ),
        adds_up(madd, (rows[0].3, rows[1].3, rows[2].3, rows[3].3), wy, total),
    ensures
        !total.3.nan() && total.3.units() >= 0 ==> color@[c] == total.3,
        total.3.nan() || total.3.units() < 0 ==> color@[c].bits == 0,
{
    lemma_below(i, x);
    lemma_below(j, y);
    let f = face as int;
    let r = color@[c];
    let (sums, sum) = choose|sums: Seq<Float32>, sum: Float32|
        #![trigger weighted_sum(madd, sums, wy@, sum)]
        {
            &&& sums.len() == 4
            &&& cube.row_sums(f, i - 1, j - 1, wx@, madd, c, sums)
            &&& weighted_sum(madd, sums, wy@, sum)
            &&& r == sum.max_of(zero())
        };
    assert(cube.convolved(f, i - 1, j - 1, wx@, wy@, madd, c, r));
    assert forall|l: int| 0 <= l < 4 implies (#[trigger] rows[l]).3 == sums[l] by {
        let taps = cube.taps(f, i - 1, j - 1 + l, c);
        let t = texels[l];
        assert forall|k: int| 0 <= k < 4 implies (#[trigger] texels[l][k])@[c] == taps[k] by {
            assert(texels[l][k]@[c] == cube.channel(f, i - 1 + k, j - 1 + l, c));
        }
        assert(taps =~= seq![t[0]@[c], t[1]@[c], t[2]@[c], t[3]@[c]]);
        lemma_adds_up(madd, (t[0]@[c], t[1]@[c], t[2]@[c], t[3]@[c]), wx, rows[l], sums[l]);
    }
    let (a, b, d, e) = (rows[0], rows[1], rows[2], rows[3]);
    assert(sums =~= seq![a.3, b.3, d.3, e.3]);
    lemma_adds_up(madd, (a.3, b.3, d.3, e.3), wy, total, sum);
    vstd::arithmetic::power2::lemma2_to64();
}

/// A bicubic sample has to do with the sixteen texels around it and with the two
/// distances alone: with the same ones, another cube, of another size, on another
/// face, at another place, gives the same value, in whatever channel.
pub proof fn law_bicubic_depends_on_sixteen_texels<
    F: Fn(Float32) -> Float32,
    W: Fn(Float32) -> [Float32; 4],
    M: Fn(Float32, Float32, Float32) -> Float32,
>(
    cube: CubeMap,
    cube2: CubeMap,
    face: usize,
    face2: usize,
    at: (Float32, Float32),
    at2: (Float32, Float32),
    frac: F,
    weights: W,
    madd: M,
    color: [Float32; 3],
    color2: [Float32; 3],
    i: (i64, i64),
    i2: (i64, i64),
    texels: Seq<Seq<[Float32; 3]>>,
    texels2: Seq<Seq<[Float32; 3]>>,
    fx: Float32,
    fy: Float32,
    c: int,
    d: int,
)
    requires
        call_ensures(
            CubeMap::bicubic::<F, W, M>,
            (&cube, face, at.0, at.1, &frac, &weights, &madd),
            color,
        ),
        call_ensures(
            CubeMap::bicubic::<F, W, M>,
            (&cube2, face2, at2.0, at2.1, &frac, &weights, &madd),
            color2,
        ),
        below(i.0, at.0) && below(i.1, at.1) && below(i2.0, at2.0) && below(i2.1, at2.1),
        0 <= c < 3,
        0 <= d < 3,
        forall|k: int, l: int|
            #![trigger texels[l][k]]
            #![trigger texels2[l][k]]
            0 <= k < 4 && 0 <= l < 4 ==> {
                &&& call_ensures(
                    CubeMap::texel,
                    (&cube, face, (i.0 - 1 + k) as i64, (i.1 - 1 + l) as i64),
                    texels[l][k],
                )
                &&& call_ensures(
                    CubeMap::texel,
                    (&cube2, face2, (i2.0 - 1 + k) as i64, (i2.1 - 1 + l) as i64),
                    texels2[l][k],
                )
                &&& texels[l][k]@[c] == texels2[l][k]@[d]
            },
        function1(frac),
        function1(weights),
        function3(madd),
        call_ensures(frac, (at.0,), fx) && call_ensures(frac, (at2.0,), fx),
        call_ensures(frac, (at.1,), fy) && call_ensures(frac, (at2.1,), fy),
    ensures
        color@[c] == color2@[d],
{
    lemma_below(i.0, at.0);
    lemma_below(i.1, at.1);
    lemma_below(i2.0, at2.0);
    lemma_below(i2.1, at2.1);
    let (f, f2) = (face as int, face2 as int);
    let (r, r2) = (color@[c], color2@[d]);
    let (wx, wy) = choose|wx: [Float32; 4], wy: [Float32; 4]|
        {
            &&& #[trigger] call_ensures(weights, (fx,), wx)
            &&& #[trigger] call_ensures(weights, (fy,), wy)
            &&& cube.convolved(f, i.0 - 1, i.1 - 1, wx@, wy@, madd, c, r)
        };
    assert(cube2.convolved(f2, i2.0 - 1, i2.1 - 1, wx@, wy@, madd, d, r2));
    let (sums, sum) = choose|sums: Seq<Float32>, sum: Float32|
        #![trigger weighted_sum(madd, sums, wy@, sum)]
        {
            &&& sums.len() == 4
            &&& cube.row_sums(f, i.0 - 1, i.1 - 1, wx@, madd, c, sums)
            &&& weighted_sum(madd, sums, wy@, sum)
            &&& r == sum.max_of(zero())
        };
    let (sums2, sum2) = choose|sums: Seq<Float32>, sum: Float32|
        #![trigger weighted_sum(madd, sums, wy@, sum)]
        {
            &&& sums.len() == 4
            &&& cube2.row_sums(f2, i2.0 - 1, i2.1 - 1, wx@, madd, d, sums)
            &&& weighted_sum(madd, sums, wy@, sum)
            &&& r2 == sum.max_of(zero())
        };
    assert forall|l: int| 0 <= l < 4 implies #[trigger] sums[l] == sums2[l] by {
        let taps = cube.taps(f, i.0 - 1, i.1 - 1 + l, c);
        let taps2 = cube2.taps(f2, i2.0 - 1, i2.1 - 1 + l, d);
        assert forall|k: int| 0 <= k < 4 implies #[trigger] taps[k] == taps2[k] by {
            assert(texels[l][k]@[c] == cube.channel(f, i.0 - 1 + k, i.1 - 1 + l, c));
            assert(texels2[l][k]@[d] == cube2.channel(f2, i2.0 - 1 + k, i2.1 - 1 + l, d));
        }
        assert(taps =~= taps2);
        let (s, s2) = (sums[l], sums2[l]);
        lemma_weighted_sum_is_fixed(madd, taps, wx@, s, s2);
    }
    assert(sums =~= sums2);
    lemma_weighted_sum_is_fixed(madd, sums, wy@, sum, sum2);
}

/// A bicubic sample is never negative, whatever the weights.
pub proof fn law_bicubic_light_is_not_negative<
    F: Fn(Float32) -> Float32,
    W: Fn(Float32) -> [Float32; 4],
    M: Fn(Float32, Float32, Float32) -> Float32,
>(
    cube: CubeMap,
    face: usize,
    x: Float32,
    y: Float32,
    frac: F,
    weights: W,
    madd: M,
    color: [Float32; 3],
    c: int,
)
    requires
        call_ensures(
            CubeMap::bicubic::<F, W, M>,
            (&cube, face, x, y, &frac, &weights, &madd),
            color,
        ),
        0 <= c < 3,
    ensures
        !color@[c].nan(),
        color@[c].units() >= 0,
{
    let v = color@[c];
    vstd::arithmetic::power2::lemma2_to64();
}

} // verus!
