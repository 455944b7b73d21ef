//! From output pixels back to the faces: what a subsample sees, and the panorama
//! that is made of all of them.

use crate::cubemap::{Arithmetic, CubeMap, Filter};
use crate::float32::{function1, function2, function3, Float32};
use crate::hdr::file;
use crate::projection::{aimed, equirect_to_dir, hit_of};
use crate::render::{added, exposed, render, rendered, rendered_at, shaded, Output};
use crate::sampling::law_sample_is_fixed;
use vstd::prelude::*;

verus! {

/// The rounding arithmetic that takes an output pixel to a place on a face.
pub struct Rays<C, B, G, H, S, X, P> {
    /// `count(n)` is a whole number as a value.
    pub count: C,
    /// `subsample(p, s, n)` is the position of subsample `s` of `n` along pixel
    /// `p`: `p + (s + 0.5) / n`.
    pub subsample: B,
    /// `longitude(u, width, yaw)` is the longitude of a column.
    pub longitude: G,
    /// `latitude(v, height)` is the latitude of a row.
    pub latitude: H,
    /// `sin_cos(angle)` is the sine and the cosine of an angle.
    pub sin_cos: S,
    /// `times(a, b)` is `a * b`.
    pub times: X,
    /// `project(c, axis)` brings a face coordinate from `[-axis, axis]` to `[0, 1]`.
    pub project: P,
}

impl<
    C: Fn(u32) -> Float32,
    B: Fn(usize, u32, u32) -> Float32,
    G: Fn(Float32, Float32, Float32) -> Float32,
    H: Fn(Float32, Float32) -> Float32,
    S: Fn(Float32) -> (Float32, Float32),
    X: Fn(Float32, Float32) -> Float32,
    P: Fn(Float32, Float32) -> Float32,
> Rays<C, B, G, H, S, X, P> {
    /// Whether every operation accepts every value.
    pub open spec fn total(&self) -> bool {
        &&& forall|n: u32| call_requires(self.count, (n,))
        &&& forall|p: usize, s: u32, n: u32| call_requires(self.subsample, (p, s, n))
        &&& forall|u: Float32, w: Float32, yaw: Float32| call_requires(self.longitude, (u, w, yaw))
        &&& forall|v: Float32, h: Float32| call_requires(self.latitude, (v, h))
        &&& forall|angle: Float32| call_requires(self.sin_cos, (angle,))
        &&& forall|a: Float32, b: Float32| call_requires(self.times, (a, b))
        &&& forall|c: Float32, axis: Float32| call_requires(self.project, (c, axis))
    }

    /// Whether every operation gives one result.
    pub open spec fn single(&self) -> bool {
        &&& forall|n: u32, r: Float32, s: Float32|
            #![trigger call_ensures(self.count, (n,), r), call_ensures(self.count, (n,), s)]
            call_ensures(self.count, (n,), r) && call_ensures(self.count, (n,), s) ==> r == s
        &&& forall|p: usize, k: u32, n: u32, r: Float32, s: Float32|
            #![trigger call_ensures(self.subsample, (p, k, n), r), call_ensures(self.subsample, (p, k, n), s)]
            call_ensures(self.subsample, (p, k, n), r) && call_ensures(
                self.subsample,
                (p, k, n),
                s,
            ) ==> r == s
        &&& function3(self.longitude)
        &&& function2(self.latitude)
        &&& function1(self.sin_cos)
        &&& function2(self.times)
        &&& function2(self.project)
    }

    /// Whether `dir` is the direction of position `(u, v)` in the panorama.
    pub open spec fn ray(
        &self,
        u: Float32,
        v: Float32,
        width: Float32,
        height: Float32,
        yaw: Float32,
        dir: Seq<Float32>,
    ) -> bool {
        aimed(
            u,
            v,
            width,
            height,
            yaw,
            self.longitude,
            self.latitude,
            self.sin_cos,
            self.times,
            dir,
        )
    }
}

/// How a cube is looked at: the dimensions of the panorama as values, the angle
/// that it is turned by, and the filter that the faces are sampled with.
#[derive(Copy, Clone, Debug, PartialEq, Eq, Structural)]
pub struct Camera {
    pub width: Float32,
    pub height: Float32,
    pub yaw: Float32,
    pub filter: Filter,
}

/// Whether `color` is what subsample `(sx, sy)` of pixel `(x, y)` sees: the
/// position of the subsample gives a direction, and the direction is followed to
/// the face that it hits.
pub open spec fn traced<
    C: Fn(u32) -> Float32,
    B: Fn(usize, u32, u32) -> Float32,
    G: Fn(Float32, Float32, Float32) -> Float32,
    H: Fn(Float32, Float32) -> Float32,
    S: Fn(Float32) -> (Float32, Float32),
    X: Fn(Float32, Float32) -> Float32,
    P: Fn(Float32, Float32) -> Float32,
    T: Fn(Float32, usize) -> Float32,
    F: Fn(Float32) -> Float32,
    L: Fn(Float32, Float32, Float32) -> Float32,
    W: Fn(Float32) -> [Float32; 4],
    M: Fn(Float32, Float32, Float32) -> Float32,
>(
    cube: CubeMap,
    x: usize,
    y: usize,
    sx: u32,
    sy: u32,
    samples: u32,
    camera: Camera,
    rays: Rays<C, B, G, H, S, X, P>,
    ops: Arithmetic<T, F, L, W, M>,
    color: Seq<Float32>,
) -> bool {
    exists|u: Float32, v: Float32, dir: [Float32; 3]|
        #![trigger rays.ray(u, v, camera.width, camera.height, camera.yaw, dir@)]
        {
            &&& call_ensures(rays.subsample, (x, sx, samples), u)
            &&& call_ensures(rays.subsample, (y, sy, samples), v)
            &&& rays.ray(u, v, camera.width, camera.height, camera.yaw, dir@)
            &&& cube.seen(dir@, camera.filter, rays.project, ops, color)
        }
}

/// Whether `r`, `g` and `b` are what the subsamples of pixel `(x, y)` see, row by
/// row, added up and scaled.
pub open spec fn traced_pixel<
    C: Fn(u32) -> Float32,
    B: Fn(usize, u32, u32) -> Float32,
    G: Fn(Float32, Float32, Float32) -> Float32,
    H: Fn(Float32, Float32) -> Float32,
    S: Fn(Float32) -> (Float32, Float32),
    X: Fn(Float32, Float32) -> Float32,
    P: Fn(Float32, Float32) -> Float32,
    T: Fn(Float32, usize) -> Float32,
    F: Fn(Float32) -> Float32,
    L: Fn(Float32, Float32, Float32) -> Float32,
    W: Fn(Float32) -> [Float32; 4],
    M: Fn(Float32, Float32, Float32) -> Float32,
    A: Fn(Float32, Float32) -> Float32,
    N: Fn(Float32) -> Float32,
>(
    cube: CubeMap,
    x: usize,
    y: usize,
    samples: u32,
    camera: Camera,
    rays: Rays<C, B, G, H, S, X, P>,
    ops: Arithmetic<T, F, L, W, M>,
    plus: A,
    scale: N,
    r: Float32,
    g: Float32,
    b: Float32,
) -> bool {
    exists|colors: Seq<[Float32; 3]>|
        #![trigger exposed(plus, scale, colors, 0, r)]
        {
            &&& colors.len() == samples * samples
            &&& forall|k: int|
                #![trigger colors[k]]
                0 <= k < colors.len() ==> traced(
                    cube,
                    x,
                    y,
                    (k % (samples as int)) as u32,
                    (k / (samples as int)) as u32,
                    samples,
                    camera,
                    rays,
                    ops,
                    colors[k]@,
                )
            &&& exposed(plus, scale, colors, 0, r)
            &&& exposed(plus, scale, colors, 1, g)
            &&& exposed(plus, scale, colors, 2, b)
        }
}

/// Whether `data` holds, at pixel `(x, y)` of rows of `stride` values, what the
/// subsamples of that pixel see.
pub open spec fn traced_at<
    C: Fn(u32) -> Float32,
    B: Fn(usize, u32, u32) -> Float32,
    G: Fn(Float32, Float32, Float32) -> Float32,
    H: Fn(Float32, Float32) -> Float32,
    S: Fn(Float32) -> (Float32, Float32),
    X: Fn(Float32, Float32) -> Float32,
    P: Fn(Float32, Float32) -> Float32,
    T: Fn(Float32, usize) -> Float32,
    F: Fn(Float32) -> Float32,
    L: Fn(Float32, Float32, Float32) -> Float32,
    W: Fn(Float32) -> [Float32; 4],
    M: Fn(Float32, Float32, Float32) -> Float32,
    A: Fn(Float32, Float32) -> Float32,
    N: Fn(Float32) -> Float32,
>(
    cube: CubeMap,
    x: usize,
    y: usize,
    samples: u32,
    camera: Camera,
    rays: Rays<C, B, G, H, S, X, P>,
    ops: Arithmetic<T, F, L, W, M>,
    plus: A,
    scale: N,
    stride: int,
    data: Seq<Float32>,
) -> bool {
    traced_pixel(
        cube,
        x,
        y,
        samples,
        camera,
        rays,
        ops,
        plus,
        scale,
        data[y * stride + 3 * x],
        data[y * stride + 3 * x + 1],
        data[y * stride + 3 * x + 2],
    )
}

/// Whether `data` is a panorama of a cube: the values of every pixel, row-major,
/// top row first, each traced back to the faces.
pub open spec fn pictured<
    C: Fn(u32) -> Float32,
    B: Fn(usize, u32, u32) -> Float32,
    G: Fn(Float32, Float32, Float32) -> Float32,
    H: Fn(Float32, Float32) -> Float32,
    S: Fn(Float32) -> (Float32, Float32),
    X: Fn(Float32, Float32) -> Float32,
    P: Fn(Float32, Float32) -> Float32,
    T: Fn(Float32, usize) -> Float32,
    F: Fn(Float32) -> Float32,
    L: Fn(Float32, Float32, Float32) -> Float32,
    W: Fn(Float32) -> [Float32; 4],
    M: Fn(Float32, Float32, Float32) -> Float32,
    A: Fn(Float32, Float32) -> Float32,
    N: Fn(Float32) -> Float32,
>(
    cube: CubeMap,
    output: Output,
    samples: u32,
    yaw: Float32,
    filter: Filter,
    rays: Rays<C, B, G, H, S, X, P>,
    ops: Arithmetic<T, F, L, W, M>,
    plus: A,
    scale: N,
    data: Seq<Float32>,
) -> bool {
    &&& data.len() == output.width * output.height * 3
    &&& exists|width: Float32, height: Float32|
        #![trigger call_ensures(rays.count, (output.width,), width), call_ensures(rays.count, (output.height,), height)]
        {
            &&& call_ensures(rays.count, (output.width,), width)
            &&& call_ensures(rays.count, (output.height,), height)
            &&& forall|x: usize, y: usize|
                x < output.width && y < output.height ==> #[trigger] traced_at(
                    cube,
                    x,
                    y,
                    samples,
                    (Camera { width, height, yaw, filter }),
                    rays,
                    ops,
                    plus,
                    scale,
                    3 * output.width,
                    data,
                )
        }
}

/// Whatever a subsample sees, it sees on one of the six faces: the one that the
/// direction of its position hits.
pub proof fn law_subsample_sees_a_face<
    C: Fn(u32) -> Float32,
    B: Fn(usize, u32, u32) -> Float32,
    G: Fn(Float32, Float32, Float32) -> Float32,
    H: Fn(Float32, Float32) -> Float32,
    S: Fn(Float32) -> (Float32, Float32),
    X: Fn(Float32, Float32) -> Float32,
    P: Fn(Float32, Float32) -> Float32,
    T: Fn(Float32, usize) -> Float32,
    F: Fn(Float32) -> Float32,
    L: Fn(Float32, Float32, Float32) -> Float32,
    W: Fn(Float32) -> [Float32; 4],
    M: Fn(Float32, Float32, Float32) -> Float32,
>(
    cube: CubeMap,
    x: usize,
    y: usize,
    sx: u32,
    sy: u32,
    samples: u32,
    camera: Camera,
    rays: Rays<C, B, G, H, S, X, P>,
    ops: Arithmetic<T, F, L, W, M>,
    color: Seq<Float32>,
)
    requires
        traced(cube, x, y, sx, sy, samples, camera, rays, ops, color),
    ensures
        exists|face: int, u: Float32, v: Float32|
            0 <= face < 6 && #[trigger] cube.sampled(face, u, v, camera.filter, ops, color),
{
    let (u, v, dir) = choose|u: Float32, v: Float32, dir: [Float32; 3]|
        #![trigger rays.ray(u, v, camera.width, camera.height, camera.yaw, dir@)]
        {
            &&& call_ensures(rays.subsample, (x, sx, samples), u)
            &&& call_ensures(rays.subsample, (y, sy, samples), v)
            &&& rays.ray(u, v, camera.width, camera.height, camera.yaw, dir@)
            &&& cube.seen(dir@, camera.filter, rays.project, ops, color)
        };
    let hit = hit_of(dir@[0], dir@[1], dir@[2]);
    assert(0 <= hit.face < 6);
    let (fu, fv) = choose|fu: Float32, fv: Float32|
        #![trigger call_ensures(rays.project, (hit.sc, hit.ma), fu), call_ensures(rays.project, (hit.tc, hit.ma), fv)]
        {
            &&& call_ensures(rays.project, (hit.sc, hit.ma), fu)
            &&& call_ensures(rays.project, (hit.tc, hit.ma), fv)
            &&& cube.sampled(hit.face as int, fu, fv, camera.filter, ops, color)
        };
    assert(cube.sampled(hit.face as int, fu, fv, camera.filter, ops, color));
}

/// Whether two cubes have faces of one size with the same values.
pub open spec fn alike(a: CubeMap, b: CubeMap) -> bool {
    &&& a.side() == b.side()
    &&& forall|face: int| 0 <= face < 6 ==> #[trigger] a.values(face) == b.values(face)
}

/// What a subsample sees is fixed by the cube and by how it is looked at, where the
/// arithmetic gives one result.
pub proof fn law_trace_is_fixed<
    C: Fn(u32) -> Float32,
    B: Fn(usize, u32, u32) -> Float32,
    G: Fn(Float32, Float32, Float32) -> Float32,
    H: Fn(Float32, Float32) -> Float32,
    S: Fn(Float32) -> (Float32, Float32),
    X: Fn(Float32, Float32) -> Float32,
    P: Fn(Float32, Float32) -> Float32,
    T: Fn(Float32, usize) -> Float32,
    F: Fn(Float32) -> Float32,
    L: Fn(Float32, Float32, Float32) -> Float32,
    W: Fn(Float32) -> [Float32; 4],
    M: Fn(Float32, Float32, Float32) -> Float32,
>(
    a: CubeMap,
    b: CubeMap,
    x: usize,
    y: usize,
    sx: u32,
    sy: u32,
    samples: u32,
    camera: Camera,
    rays: Rays<C, B, G, H, S, X, P>,
    ops: Arithmetic<T, F, L, W, M>,
    color: Seq<Float32>,
    color2: Seq<Float32>,
    c: int,
)
    requires
        alike(a, b),
        rays.single(),
        ops.single(),
        traced(a, x, y, sx, sy, samples, camera, rays, ops, color),
        traced(b, x, y, sx, sy, samples, camera, rays, ops, color2),
        0 <= c < 3,
    ensures
        color[c] == color2[c],
{
    let (u, v, dir) = choose|u: Float32, v: Float32, dir: [Float32; 3]|
        #![trigger rays.ray(u, v, camera.width, camera.height, camera.yaw, dir@)]
        {
            &&& call_ensures(rays.subsample, (x, sx, samples), u)
            &&& call_ensures(rays.subsample, (y, sy, samples), v)
            &&& rays.ray(u, v, camera.width, camera.height, camera.yaw, dir@)
            &&& a.seen(dir@, camera.filter, rays.project, ops, color)
        };
    let (u2, v2, dir2) = choose|u: Float32, v: Float32, dir: [Float32; 3]|
        #![trigger rays.ray(u, v, camera.width, camera.height, camera.yaw, dir@)]
        {
            &&& call_ensures(rays.subsample, (x, sx, samples), u)
            &&& call_ensures(rays.subsample, (y, sy, samples), v)
            &&& rays.ray(u, v, camera.width, camera.height, camera.yaw, dir@)
            &&& b.seen(dir@, camera.filter, rays.project, ops, color2)
        };
    assert(u == u2 && v == v2);
    assert(dir@[0] == dir2@[0] && dir@[1] == dir2@[1] && dir@[2] == dir2@[2]);
    let hit = hit_of(dir@[0], dir@[1], dir@[2]);
    let face = hit.face as int;
    assert(0 <= face < 6);
    let (s, t) = choose|s: Float32, t: Float32|
        #![trigger call_ensures(rays.project, (hit.sc, hit.ma), s), call_ensures(rays.project, (hit.tc, hit.ma), t)]
        {
            &&& call_ensures(rays.project, (hit.sc, hit.ma), s)
            &&& call_ensures(rays.project, (hit.tc, hit.ma), t)
            &&& a.sampled(face, s, t, camera.filter, ops, color)
        };
    let (s2, t2) = choose|s: Float32, t: Float32|
        #![trigger call_ensures(rays.project, (hit.sc, hit.ma), s), call_ensures(rays.project, (hit.tc, hit.ma), t)]
        {
            &&& call_ensures(rays.project, (hit.sc, hit.ma), s)
            &&& call_ensures(rays.project, (hit.tc, hit.ma), t)
            &&& b.sampled(face, s, t, camera.filter, ops, color2)
        };
    assert(s == s2 && t == t2);
    assert(a.values(face) == b.values(face));
    law_sample_is_fixed(a, b, face, s, t, camera.filter, ops, color, color2, c);
}

/// Sums over colors that are alike in a channel are the same there, step by step.
proof fn lemma_added_is_fixed<A: Fn(Float32, Float32) -> Float32>(
    plus: A,
    colors: Seq<[Float32; 3]>,
    colors2: Seq<[Float32; 3]>,
    c: int,
    sums: Seq<Float32>,
    sums2: Seq<Float32>,
    n: int,
)
    requires
        function2(plus),
        colors.len() == colors2.len(),
        forall|k: int| 0 <= k < colors.len() ==> #[trigger] colors[k]@[c] == colors2[k]@[c],
        added(plus, colors, c, sums),
        added(plus, colors2, c, sums2),
        0 <= n <= colors.len(),
    ensures
        sums[n] == sums2[n],
    decreases n,
{
    if n > 0 {
        lemma_added_is_fixed(plus, colors, colors2, c, sums, sums2, n - 1);
        assert(colors[n - 1]@[c] == colors2[n - 1]@[c]);
    }
}

/// A channel of a pixel is fixed by what its subsamples see.
pub proof fn lemma_exposed_is_fixed<
    A: Fn(Float32, Float32) -> Float32,
    N: Fn(Float32) -> Float32,
>(
    plus: A,
    scale: N,
    colors: Seq<[Float32; 3]>,
    colors2: Seq<[Float32; 3]>,
    c: int,
    r: Float32,
    r2: Float32,
)
    requires
        function2(plus),
        function1(scale),
        colors.len() == colors2.len(),
        forall|k: int| 0 <= k < colors.len() ==> #[trigger] colors[k]@[c] == colors2[k]@[c],
        exposed(plus, scale, colors, c, r),
        exposed(plus, scale, colors2, c, r2),
    ensures
        r == r2,
{
    let sums = choose|sums: Seq<Float32>|
        #![trigger added(plus, colors, c, sums)]
        added(plus, colors, c, sums) && call_ensures(scale, (sums.last(),), r);
    let sums2 = choose|sums: Seq<Float32>|
        #![trigger added(plus, colors2, c, sums)]
        added(plus, colors2, c, sums) && call_ensures(scale, (sums.last(),), r2);
    lemma_added_is_fixed(plus, colors, colors2, c, sums, sums2, colors.len() as int);
    assert(sums.last() == sums2.last());
}

/// A pixel is fixed by the cube and by how it is looked at, where the arithmetic
/// gives one result.
pub proof fn law_pixel_is_fixed<
    C: Fn(u32) -> Float32,
    B: Fn(usize, u32, u32) -> Float32,
    G: Fn(Float32, Float32, Float32) -> Float32,
    H: Fn(Float32, Float32) -> Float32,
    S: Fn(Float32) -> (Float32, Float32),
    X: Fn(Float32, Float32) -> Float32,
    P: Fn(Float32, Float32) -> Float32,
    T: Fn(Float32, usize) -> Float32,
    F: Fn(Float32) -> Float32,
    L: Fn(Float32, Float32, Float32) -> Float32,
    W: Fn(Float32) -> [Float32; 4],
    M: Fn(Float32, Float32, Float32) -> Float32,
    A: Fn(Float32, Float32) -> Float32,
    N: Fn(Float32) -> Float32,
>(
    a: CubeMap,
    b: CubeMap,
    x: usize,
    y: usize,
    samples: u32,
    camera: Camera,
    rays: Rays<C, B, G, H, S, X, P>,
    ops: Arithmetic<T, F, L, W, M>,
    plus: A,
    scale: N,
    p: (Float32, Float32, Float32),
    q: (Float32, Float32, Float32),
)
    requires
        alike(a, b),
        rays.single(),
        ops.single(),
        function2(plus),
        function1(scale),
        traced_pixel(a, x, y, samples, camera, rays, ops, plus, scale, p.0, p.1, p.2),
        traced_pixel(b, x, y, samples, camera, rays, ops, plus, scale, q.0, q.1, q.2),
    ensures
        p == q,
{
    let n = samples as int;
    let colors = choose|colors: Seq<[Float32; 3]>|
        #![trigger exposed(plus, scale, colors, 0, p.0)]
        {
            &&& colors.len() == samples * samples
            &&& forall|k: int|
                #![trigger colors[k]]
                0 <= k < colors.len() ==> traced(
                    a,
                    x,
                    y,
                    (k % n) as u32,
                    (k / n) as u32,
                    samples,
                    camera,
                    rays,
                    ops,
                    colors[k]@,
                )
            &&& exposed(plus, scale, colors, 0, p.0)
            &&& exposed(plus, scale, colors, 1, p.1)
            &&& exposed(plus, scale, colors, 2, p.2)
        };
    let colors2 = choose|colors: Seq<[Float32; 3]>|
        #![trigger exposed(plus, scale, colors, 0, q.0)]
        {
            &&& colors.len() == samples * samples
            &&& forall|k: int|
                #![trigger colors[k]]
                0 <= k < colors.len() ==> traced(
                    b,
                    x,
                    y,
                    (k % n) as u32,
                    (k / n) as u32,
                    samples,
                    camera,
                    rays,
                    ops,
                    colors[k]@,
                )
            &&& exposed(plus, scale, colors, 0, q.0)
            &&& exposed(plus, scale, colors, 1, q.1)
            &&& exposed(plus, scale, colors, 2, q.2)
        };
    assert forall|k: int, c: int| 0 <= k < colors.len() && 0 <= c < 3 implies #[trigger] colors[k]@[c]
        == colors2[k]@[c] by {
        law_trace_is_fixed(
            a,
            b,
            x,
            y,
            (k % n) as u32,
            (k / n) as u32,
            samples,
            camera,
            rays,
            ops,
            colors[k]@,
            colors2[k]@,
            c,
        );
    }
    lemma_exposed_is_fixed(plus, scale, colors, colors2, 0, p.0, q.0);
    lemma_exposed_is_fixed(plus, scale, colors, colors2, 1, p.1, q.1);
    lemma_exposed_is_fixed(plus, scale, colors, colors2, 2, p.2, q.2);
}

/// Every place in an image is a channel of one of its pixels.
proof fn lemma_place_in_image(i: int, width: int, height: int) -> (at: (int, int, int))
    requires
        0 <= i < width * height * 3,
        width > 0,
    ensures
        0 <= at.0 < width,
        0 <= at.1 < height,
        0 <= at.2 < 3,
        i == at.1 * (3 * width) + 3 * at.0 + at.2,
{
    let stride = 3 * width;
    let y = i / stride;
    let k = i % stride;
    vstd::arithmetic::div_mod::lemma_fundamental_div_mod(i, stride);
    assert(y * stride + k == i) by (nonlinear_arith)
        requires
            i == stride * y + k,
    ;
    assert(0 <= y < height) by (nonlinear_arith)
        requires
            0 <= i < width * height * 3,
            stride == 3 * width,
            y * stride + k == i,
            0 <= k < stride,
    ;
    (k / 3, y, k % 3)
}

/// A panorama depends on its inputs alone: cubes that are alike, looked at in one
/// way, have one panorama, whatever part of it was computed when and where. So
/// have the files that are made of it.
pub proof fn law_panorama_is_fixed<
    C: Fn(u32) -> Float32,
    B: Fn(usize, u32, u32) -> Float32,
    G: Fn(Float32, Float32, Float32) -> Float32,
    H: Fn(Float32, Float32) -> Float32,
    S: Fn(Float32) -> (Float32, Float32),
    X: Fn(Float32, Float32) -> Float32,
    P: Fn(Float32, Float32) -> Float32,
    T: Fn(Float32, usize) -> Float32,
    F: Fn(Float32) -> Float32,
    L: Fn(Float32, Float32, Float32) -> Float32,
    W: Fn(Float32) -> [Float32; 4],
    M: Fn(Float32, Float32, Float32) -> Float32,
    A: Fn(Float32, Float32) -> Float32,
    N: Fn(Float32) -> Float32,
>(
    a: CubeMap,
    b: CubeMap,
    output: Output,
    samples: u32,
    yaw: Float32,
    filter: Filter,
    rays: Rays<C, B, G, H, S, X, P>,
    ops: Arithmetic<T, F, L, W, M>,
    plus: A,
    scale: N,
    rle: bool,
    data: Seq<Float32>,
    data2: Seq<Float32>,
)
    requires
        alike(a, b),
        rays.single(),
        ops.single(),
        function2(plus),
        function1(scale),
        pictured(a, output, samples, yaw, filter, rays, ops, plus, scale, data),
        pictured(b, output, samples, yaw, filter, rays, ops, plus, scale, data2),
    ensures
        data == data2,
        file(data, output.width as nat, output.height as nat, rle) == file(
            data2,
            output.width as nat,
            output.height as nat,
            rle,
        ),
{
    let stride = 3 * output.width as int;
    let (w, h) = choose|width: Float32, height: Float32|
        #![trigger call_ensures(rays.count, (output.width,), width), call_ensures(rays.count, (output.height,), height)]
        {
            &&& call_ensures(rays.count, (output.width,), width)
            &&& call_ensures(rays.count, (output.height,), height)
            &&& forall|x: usize, y: usize|
                x < output.width && y < output.height ==> #[trigger] traced_at(
                    a,
                    x,
                    y,
                    samples,
                    (Camera { width, height, yaw, filter }),
                    rays,
                    ops,
                    plus,
                    scale,
                    stride,
                    data,
                )
        };
    let (w2, h2) = choose|width: Float32, height: Float32|
        #![trigger call_ensures(rays.count, (output.width,), width), call_ensures(rays.count, (output.height,), height)]
        {
            &&& call_ensures(rays.count, (output.width,), width)
            &&& call_ensures(rays.count, (output.height,), height)
            &&& forall|x: usize, y: usize|
                x < output.width && y < output.height ==> #[trigger] traced_at(
                    b,
                    x,
                    y,
                    samples,
                    (Camera { width, height, yaw, filter }),
                    rays,
                    ops,
                    plus,
                    scale,
                    stride,
                    data2,
                )
        };
    assert(w == w2 && h == h2);
    let camera = Camera { width: w, height: h, yaw, filter };
    assert forall|i: int| 0 <= i < data.len() implies #[trigger] data[i] == data2[i] by {
        assert(output.width > 0) by (nonlinear_arith)
            requires
                0 <= i < output.width * output.height * 3,
                output.width >= 0,
        ;
        let at = lemma_place_in_image(i, output.width as int, output.height as int);
        let (x, y) = (at.0 as usize, at.1 as usize);
        let o = y * stride + 3 * x;
        assert(traced_at(a, x, y, samples, camera, rays, ops, plus, scale, stride, data));
        assert(traced_at(b, x, y, samples, camera, rays, ops, plus, scale, stride, data2));
        law_pixel_is_fixed(
            a,
            b,
            x,
            y,
            samples,
            camera,
            rays,
            ops,
            plus,
            scale,
            (data[o], data[o + 1], data[o + 2]),
            (data2[o], data2[o + 1], data2[o + 2]),
        );
        assert(i == o + at.2);
    }
    assert(data =~= data2);
}

/// Trace one subsample of an output pixel back to a face, and sample the face.
#[inline]
pub fn trace<
    C: Fn(u32) -> Float32,
    B: Fn(usize, u32, u32) -> Float32,
    G: Fn(Float32, Float32, Float32) -> Float32,
    H: Fn(Float32, Float32) -> Float32,
    S: Fn(Float32) -> (Float32, Float32),
    X: Fn(Float32, Float32) -> Float32,
    P: Fn(Float32, Float32) -> Float32,
    T: Fn(Float32, usize) -> Float32,
    F: Fn(Float32) -> Float32,
    L: Fn(Float32, Float32, Float32) -> Float32,
    W: Fn(Float32) -> [Float32; 4],
    M: Fn(Float32, Float32, Float32) -> Float32,
>(
    cube: &CubeMap,
    x: usize,
    y: usize,
    sx: u32,
    sy: u32,
    samples: u32,
    camera: Camera,
    rays: &Rays<C, B, G, H, S, X, P>,
    ops: &Arithmetic<T, F, L, W, M>,
) -> (color: [Float32; 3])
    requires
        rays.total(),
        ops.total(),
    ensures
        traced(*cube, x, y, sx, sy, samples, camera, *rays, *ops, color@),
{
    let subsample: &B = &rays.subsample;
    let v: Float32 = subsample(y, sy, samples);
    let u: Float32 = subsample(x, sx, samples);
    let dir: [Float32; 3] = equirect_to_dir(
        u,
        v,
        camera.width,
        camera.height,
        camera.yaw,
        &rays.longitude,
        &rays.latitude,
        &rays.sin_cos,
        &rays.times,
    );
    proof {
        assert(rays.ray(u, v, camera.width, camera.height, camera.yaw, dir@));
    }
    cube.look(dir, camera.filter, &rays.project, ops)
}

/// Render the panorama of a cube: `width * height * 3` values, row-major, top row
/// first.
///
/// Every pixel is traced back to the faces at a grid of `samples` by `samples`
/// positions; what is seen there is added up with `plus` and brought down by
/// `scale`. `yaw` turns the panorama horizontally.
pub fn panorama<
    C: Fn(u32) -> Float32 + Sync,
    B: Fn(usize, u32, u32) -> Float32 + Sync,
    G: Fn(Float32, Float32, Float32) -> Float32 + Sync,
    H: Fn(Float32, Float32) -> Float32 + Sync,
    S: Fn(Float32) -> (Float32, Float32) + Sync,
    X: Fn(Float32, Float32) -> Float32 + Sync,
    P: Fn(Float32, Float32) -> Float32 + Sync,
    T: Fn(Float32, usize) -> Float32 + Sync,
    F: Fn(Float32) -> Float32 + Sync,
    L: Fn(Float32, Float32, Float32) -> Float32 + Sync,
    W: Fn(Float32) -> [Float32; 4] + Sync,
    M: Fn(Float32, Float32, Float32) -> Float32 + Sync,
    A: Fn(Float32, Float32) -> Float32 + Sync,
    N: Fn(Float32) -> Float32 + Sync,
>(
    cube: &CubeMap,
    output: Output,
    samples: u32,
    yaw: Float32,
    filter: Filter,
    rays: &Rays<C, B, G, H, S, X, P>,
    ops: &Arithmetic<T, F, L, W, M>,
    plus: &A,
    scale: &N,
) -> (data: Vec<Float32>)
    requires
        output.width > 0,
        output.height > 0,
        output.values == 3 * output.width * output.height,
        rays.total(),
        ops.total(),
        forall|a: Float32, b: Float32| call_requires(*plus, (a, b)),
        forall|a: Float32| call_requires(*scale, (a,)),
    ensures
        pictured(*cube, output, samples, yaw, filter, *rays, *ops, *plus, *scale, data@),
{
    let count: &C = &rays.count;
    let width: Float32 = count(output.width);
    let height: Float32 = count(output.height);
    let camera: Camera = Camera { width, height, yaw, filter };
    let shade = |x: usize, y: usize, sx: u32, sy: u32| -> (color: [Float32; 3])
        ensures
            traced(*cube, x, y, sx, sy, samples, camera, *rays, *ops, color@),
        { trace(cube, x, y, sx, sy, samples, camera, rays, ops) };
    let data: Vec<Float32> = render(output, samples, &shade, plus, scale);
    proof {
        let stride = 3 * output.width as int;
        assert forall|x: usize, y: usize|
            x < output.width && y < output.height implies #[trigger] traced_at(
            *cube,
            x,
            y,
            samples,
            camera,
            *rays,
            *ops,
            *plus,
            *scale,
            stride,
            data@,
        ) by {
            assert(rendered_at(shade, *plus, *scale, data@, stride, x, y, samples));
            let o = y * stride + 3 * x;
            assert(rendered(
                shade,
                *plus,
                *scale,
                x,
                y,
                samples,
                data@[o],
                data@[o + 1],
                data@[o + 2],
            ));
            let colors = choose|colors: Seq<[Float32; 3]>|
                #![trigger shaded(shade, x, y, samples, colors)]
                {
                    &&& colors.len() == samples * samples
                    &&& shaded(shade, x, y, samples, colors)
                    &&& exposed(*plus, *scale, colors, 0, data@[o])
                    &&& exposed(*plus, *scale, colors, 1, data@[o + 1])
                    &&& exposed(*plus, *scale, colors, 2, data@[o + 2])
                };
            assert(exposed(*plus, *scale, colors, 0, data@[o]));
        }
    }
    data
}

} // verus!
