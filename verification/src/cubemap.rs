//! Cube face storage and texture sampling.

use crate::face::Face;
use crate::float32::{function1, function3, zero, Float32};
use crate::projection::{dir_to_face_uv, hit_of};
use crate::text::{decimal, push_decimal};
use vstd::prelude::*;
use vstd::string::StringExecFns;

verus! {

/// How a face is reconstructed between its texels.
#[derive(Copy, Clone, Debug, PartialEq, Eq, Structural)]
pub enum Filter {
    /// Fast, slightly soft under magnification.
    Bilinear,
    /// Catmull-Rom. Sharper, about four times the taps. Recommended when the
    /// output is larger than four times the face size.
    Bicubic,
}

impl Filter {
    /// What the filter is called.
    pub open spec fn text(self) -> Seq<char> {
        match self {
            Filter::Bilinear => "bilinear"@,
            Filter::Bicubic => "bicubic"@,
        }
    }

    /// What the filter is called.
    pub fn name(self) -> (r: &'static str)
        ensures
            r@ == self.text(),
    {
        match self {
            Filter::Bilinear => "bilinear",
            Filter::Bicubic => "bicubic",
        }
    }
}

/// The rounding arithmetic that sampling is made of.
pub struct Arithmetic<T, F, L, W, M> {
    /// `place(u, n)` puts a normalised coordinate on a side of `n` texels, the
    /// centre of the first at zero: `u * n - 0.5`.
    pub place: T,
    /// `frac(x)` is the distance of a coordinate from the integer below it.
    pub frac: F,
    /// `lerp(a, b, t)` is the value at `t` between `a` and `b`.
    pub lerp: L,
    /// `weights(t)` are the weights of four neighbouring texels at distance `t`
    /// from the second.
    pub weights: W,
    /// `madd(a, v, w)` is `a + v * w`.
    pub madd: M,
}

impl<
    T: Fn(Float32, usize) -> Float32,
    F: Fn(Float32) -> Float32,
    L: Fn(Float32, Float32, Float32) -> Float32,
    W: Fn(Float32) -> [Float32; 4],
    M: Fn(Float32, Float32, Float32) -> Float32,
> Arithmetic<T, F, L, W, M> {
    /// Whether every operation accepts every value.
    pub open spec fn total(&self) -> bool {
        &&& forall|u: Float32, n: usize| call_requires(self.place, (u, n))
        &&& forall|x: Float32| call_requires(self.frac, (x,))
        &&& forall|a: Float32, b: Float32, t: Float32| call_requires(self.lerp, (a, b, t))
        &&& forall|t: Float32| call_requires(self.weights, (t,))
        &&& forall|a: Float32, v: Float32, w: Float32| call_requires(self.madd, (a, v, w))
    }

    /// Whether every operation gives one result.
    pub open spec fn single(&self) -> bool {
        &&& forall|u: Float32, n: usize, r: Float32, s: Float32|
            #![trigger call_ensures(self.place, (u, n), r), call_ensures(self.place, (u, n), s)]
            call_ensures(self.place, (u, n), r) && call_ensures(self.place, (u, n), s) ==> r == s
        &&& function1(self.frac)
        &&& function3(self.lerp)
        &&& function1(self.weights)
        &&& function3(self.madd)
    }
}

/// A face whose size differs from that of the first.
#[derive(Copy, Clone, Debug, PartialEq, Eq, Structural)]
pub struct SizeMismatch {
    pub face: usize,
    pub size: usize,
    pub expected: usize,
}

impl SizeMismatch {
    /// What to tell the user, where the two faces are called `name` and `first`.
    pub open spec fn text(self, name: Seq<char>, first: Seq<char>) -> Seq<char> {
        "face size mismatch: "@ + name + " is "@ + decimal(self.size as nat) + "x"@ + decimal(
            self.size as nat,
        ) + ", but "@ + first + " is "@ + decimal(self.expected as nat) + "x"@ + decimal(
            self.expected as nat,
        )
    }

    /// What to tell the user, where the two faces are called `name` and `first`.
    pub fn message(&self, name: &str, first: &str) -> (r: String)
        ensures
            r@ == self.text(name@, first@),
    {
        let mut out: String = "face size mismatch: ".to_owned();
        out.append(name);
        out.append(" is ");
        push_decimal(&mut out, self.size as u64);
        out.append("x");
        push_decimal(&mut out, self.size as u64);
        out.append(", but ");
        out.append(first);
        out.append(" is ");
        push_decimal(&mut out, self.expected as u64);
        out.append("x");
        push_decimal(&mut out, self.expected as u64);
        out
    }
}

/// Six faces of one size, in the order `+X, -X, +Y, -Y, +Z, -Z`.
pub struct CubeMap {
    faces: Vec<Face>,
    size: usize,
}

/// A coordinate moved into `0 .. size`.
pub open spec fn clamped(x: int, size: int) -> int {
    if x < 0 {
        0
    } else if x >= size {
        size - 1
    } else {
        x
    }
}

/// Whether `sums` starts with zero and goes on by adding values times their
/// weights in order, where `madd(a, v, w)` stands for `a + v * w`.
pub open spec fn running_sums<M: Fn(Float32, Float32, Float32) -> Float32>(
    madd: M,
    values: Seq<Float32>,
    weights: Seq<Float32>,
    sums: Seq<Float32>,
) -> bool {
    &&& 1 <= sums.len() <= values.len() + 1
    &&& sums[0] == zero()
    &&& forall|n: int|
        #![trigger sums[n]]
        1 <= n < sums.len() ==> call_ensures(
            madd,
            (sums[n - 1], values[n - 1], weights[n - 1]),
            sums[n],
        )
}

/// Whether `r` is the sum of all values times their weights, added up in order.
pub open spec fn weighted_sum<M: Fn(Float32, Float32, Float32) -> Float32>(
    madd: M,
    values: Seq<Float32>,
    weights: Seq<Float32>,
    r: Float32,
) -> bool {
    exists|sums: Seq<Float32>|
        #![trigger running_sums(madd, values, weights, sums)]
        {
            &&& running_sums(madd, values, weights, sums)
            &&& sums.len() == values.len() + 1
            &&& sums.last() == r
        }
}

impl CubeMap {
    #[verifier::type_invariant]
    spec fn wf(self) -> bool {
        &&& self.faces@.len() == 6
        &&& self.size > 0
        &&& forall|f: int|
            0 <= f < 6 ==> (#[trigger] self.faces@[f]).wf() && self.faces@[f].size == self.size
    }

    /// The number of texels along the side of a face.
    pub closed spec fn side(&self) -> nat {
        self.size as nat
    }

    /// The values of a face, row-major, RGB interleaved.
    pub closed spec fn values(&self, face: int) -> Seq<Float32> {
        self.faces@[face].data@
    }

    /// One channel of the texel at a column and a row; outside the face, of the
    /// nearest texel inside it.
    pub open spec fn channel(&self, face: int, x: int, y: int, c: int) -> Float32 {
        let side = self.side() as int;
        self.values(face)[3 * (clamped(y, side) * side + clamped(x, side)) + c]
    }

    /// The four texels of a row, from `x` on, in one channel.
    pub open spec fn taps(&self, face: int, x: int, y: int, c: int) -> Seq<Float32> {
        Seq::new(4, |i: int| self.channel(face, x + i, y, c))
    }

    /// Whether `r` interpolates between the four texels around the corner at
    /// `(x0 + 1, y0 + 1)`: along the upper row, along the lower one, and then
    /// between the two.
    pub open spec fn interpolated<L: Fn(Float32, Float32, Float32) -> Float32>(
        &self,
        face: int,
        x0: int,
        y0: int,
        fx: Float32,
        fy: Float32,
        lerp: L,
        c: int,
        r: Float32,
    ) -> bool {
        exists|top: Float32, bottom: Float32|
            #![trigger call_ensures(lerp, (top, bottom, fy), r)]
            {
                &&& call_ensures(
                    lerp,
                    (self.channel(face, x0, y0, c), self.channel(face, x0 + 1, y0, c), fx),
                    top,
                )
                &&& call_ensures(
                    lerp,
                    (self.channel(face, x0, y0 + 1, c), self.channel(face, x0 + 1, y0 + 1, c), fx),
                    bottom,
                )
                &&& call_ensures(lerp, (top, bottom, fy), r)
            }
    }

    /// Whether `color` is the bilinear reconstruction at `(x, y)`.
    pub open spec fn bilinear_at<
        F: Fn(Float32) -> Float32,
        L: Fn(Float32, Float32, Float32) -> Float32,
    >(&self, face: int, x: Float32, y: Float32, frac: F, lerp: L, color: Seq<Float32>) -> bool {
        exists|fx: Float32, fy: Float32|
            #![trigger call_ensures(frac, (x,), fx), call_ensures(frac, (y,), fy)]
            {
                &&& call_ensures(frac, (x,), fx)
                &&& call_ensures(frac, (y,), fy)
                &&& forall|c: int|
                    #![trigger color[c]]
                    0 <= c < 3 ==> self.interpolated(
                        face,
                        x.cell(),
                        y.cell(),
                        fx,
                        fy,
                        lerp,
                        c,
                        color[c],
                    )
            }
    }

    /// Whether `sums` are the weighted sums of the first rows of the four by
    /// four texels whose upper left is at `(x, y)`.
    pub open spec fn row_sums<M: Fn(Float32, Float32, Float32) -> Float32>(
        &self,
        face: int,
        x: int,
        y: int,
        wx: Seq<Float32>,
        madd: M,
        c: int,
        sums: Seq<Float32>,
    ) -> bool {
        forall|j: int|
            #![trigger sums[j]]
            0 <= j < sums.len() ==> weighted_sum(madd, self.taps(face, x, y + j, c), wx, sums[j])
    }

    /// Whether `r` is the weighted sum of the four by four texels whose upper
    /// left is at `(x, y)`, row by row, with anything below zero cut off.
    pub open spec fn convolved<M: Fn(Float32, Float32, Float32) -> Float32>(
        &self,
        face: int,
        x: int,
        y: int,
        wx: Seq<Float32>,
        wy: Seq<Float32>,
        madd: M,
        c: int,
        r: Float32,
    ) -> bool {
        exists|sums: Seq<Float32>, sum: Float32|
            #![trigger weighted_sum(madd, sums, wy, sum)]
            {
                &&& sums.len() == 4
                &&& self.row_sums(face, x, y, wx, madd, c, sums)
                &&& weighted_sum(madd, sums, wy, sum)
                &&& r == sum.max_of(zero())
            }
    }

    /// Whether `color` is the bicubic reconstruction at `(x, y)`.
    pub open spec fn bicubic_at<
        F: Fn(Float32) -> Float32,
        W: Fn(Float32) -> [Float32; 4],
        M: Fn(Float32, Float32, Float32) -> Float32,
    >(
        &self,
        face: int,
        x: Float32,
        y: Float32,
        frac: F,
        weights: W,
        madd: M,
        color: Seq<Float32>,
    ) -> bool {
        exists|fx: Float32, fy: Float32, wx: [Float32; 4], wy: [Float32; 4]|
            #![trigger call_ensures(weights, (fx,), wx), call_ensures(weights, (fy,), wy)]
            {
                &&& call_ensures(frac, (x,), fx)
                &&& call_ensures(frac, (y,), fy)
                &&& call_ensures(weights, (fx,), wx)
                &&& call_ensures(weights, (fy,), wy)
                &&& forall|c: int|
                    #![trigger color[c]]
                    0 <= c < 3 ==> self.convolved(
                        face,
                        x.cell() - 1,
                        y.cell() - 1,
                        wx@,
                        wy@,
                        madd,
                        c,
                        color[c],
                    )
            }
    }

    /// Whether `color` is the sample of a face at normalised coordinates.
    pub open spec fn sampled<
        T: Fn(Float32, usize) -> Float32,
        F: Fn(Float32) -> Float32,
        L: Fn(Float32, Float32, Float32) -> Float32,
        W: Fn(Float32) -> [Float32; 4],
        M: Fn(Float32, Float32, Float32) -> Float32,
    >(
        &self,
        face: int,
        u: Float32,
        v: Float32,
        filter: Filter,
        ops: Arithmetic<T, F, L, W, M>,
        color: Seq<Float32>,
    ) -> bool {
        exists|x: Float32, y: Float32|
            #![trigger call_ensures(ops.place, (u, self.side() as usize), x), call_ensures(ops.place, (v, self.side() as usize), y)]
            {
                &&& call_ensures(ops.place, (u, self.side() as usize), x)
                &&& call_ensures(ops.place, (v, self.side() as usize), y)
                &&& match filter {
                    Filter::Bilinear => self.bilinear_at(face, x, y, ops.frac, ops.lerp, color),
                    Filter::Bicubic => self.bicubic_at(
                        face,
                        x,
                        y,
                        ops.frac,
                        ops.weights,
                        ops.madd,
                        color,
                    ),
                }
            }
    }

    /// Whether `color` is what the cube shows in a direction: the sample of the
    /// face that the direction hits, at the projected coordinates of the hit.
    pub open spec fn seen<
        P: Fn(Float32, Float32) -> Float32,
        T: Fn(Float32, usize) -> Float32,
        F: Fn(Float32) -> Float32,
        L: Fn(Float32, Float32, Float32) -> Float32,
        W: Fn(Float32) -> [Float32; 4],
        M: Fn(Float32, Float32, Float32) -> Float32,
    >(
        &self,
        dir: Seq<Float32>,
        filter: Filter,
        project: P,
        ops: Arithmetic<T, F, L, W, M>,
        color: Seq<Float32>,
    ) -> bool {
        let hit = hit_of(dir[0], dir[1], dir[2]);
        exists|u: Float32, v: Float32|
            #![trigger call_ensures(project, (hit.sc, hit.ma), u), call_ensures(project, (hit.tc, hit.ma), v)]
            {
                &&& call_ensures(project, (hit.sc, hit.ma), u)
                &&& call_ensures(project, (hit.tc, hit.ma), v)
                &&& self.sampled(hit.face as int, u, v, filter, ops, color)
            }
    }

    /// The number of texels along the side of a face.
    pub fn size(&self) -> (r: usize)
        ensures
            r == self.side(),
            r > 0,
    {
        proof {
            use_type_invariant(self);
        }
        self.size
    }

    /// Put six faces, ordered `+X, -X, +Y, -Y, +Z, -Z`, together. They must be of
    /// one size; where one is not, the first such face is named.
    pub fn load(faces: Vec<Face>) -> (r: Result<Self, SizeMismatch>)
        requires
            faces@.len() == 6,
            forall|f: int| 0 <= f < 6 ==> (#[trigger] faces@[f]).wf(),
        ensures
            match r {
                Ok(cube) => {
                    &&& forall|f: int|
                        0 <= f < 6 ==> (#[trigger] faces@[f]).size == faces@[0].size
                    &&& cube.side() == faces@[0].size
                    &&& forall|f: int| 0 <= f < 6 ==> #[trigger] cube.values(f) == faces@[f].data@
                },
                Err(e) => {
                    &&& e.face < 6
                    &&& e.size == faces@[e.face as int].size
                    &&& e.expected == faces@[0].size
                    &&& e.size != e.expected
                    &&& forall|f: int|
                        0 <= f < e.face ==> (#[trigger] faces@[f]).size == faces@[0].size
                },
            },
    {
        let size: usize = faces[0].size;
        let mut i: usize = 0;
        while i < 6
            invariant
                i <= 6,
                faces@.len() == 6,
                size == faces@[0].size,
                forall|f: int| 0 <= f < i ==> (#[trigger] faces@[f]).size == size,
            decreases 6 - i,
        {
            if faces[i].size != size {
                return Err(SizeMismatch { face: i, size: faces[i].size, expected: size });
            }
            i = i + 1;
        }
        Ok(CubeMap { faces, size })
    }

    /// The texel at a column and a row; outside the face, the nearest inside it.
    #[inline]
    pub fn texel(&self, face: usize, x: i64, y: i64) -> (r: [Float32; 3])
        requires
            face < 6,
        ensures
            forall|c: int|
                0 <= c < 3 ==> #[trigger] r@[c] == self.channel(face as int, x as int, y as int, c),
    {
        proof {
            use_type_invariant(self);
        }
        let f: &Vec<Float32> = &self.faces[face].data;
        proof {
            let size = self.size as int;
            assert(self.faces@[face as int].wf());
            assert(f.len() <= u64::MAX);
            assert(size < 0x1_0000_0000) by (nonlinear_arith)
                requires
                    3 * size * size <= 0xffff_ffff_ffff_ffff,
                    size > 0,
            ;
        }
        let last: i64 = self.size as i64 - 1;
        let x: usize = clamp(x, last) as usize;
        let y: usize = clamp(y, last) as usize;
        proof {
            let size = self.size as int;
            assert(3 * (y * size + x) + 3 <= 3 * size * size && y * size + x < size * size && y
                * size >= 0) by (nonlinear_arith)
                requires
                    0 <= x < size,
                    0 <= y < size,
            ;
        }
        let i: usize = (y * self.size + x) * 3;
        [f[i], f[i + 1], f[i + 2]]
    }

    /// Bilinear reconstruction at texel coordinates `(x, y)`, where the centre of
    /// the first texel is at zero.
    ///
    /// `frac` gives a coordinate's distance from the integer below it, and
    /// `lerp(a, b, t)` the value at `t` between `a` and `b`.
    #[inline]
    pub fn bilinear<
        F: Fn(Float32) -> Float32,
        L: Fn(Float32, Float32, Float32) -> Float32,
    >(&self, face: usize, x: Float32, y: Float32, frac: &F, lerp: &L) -> (color: [Float32; 3])
        requires
            face < 6,
            forall|v: Float32| call_requires(*frac, (v,)),
            forall|a: Float32, b: Float32, t: Float32| call_requires(*lerp, (a, b, t)),
        ensures
            self.bilinear_at(face as int, x, y, *frac, *lerp, color@),
    {
        let x0: i64 = x.floor_to_i32() as i64;
        let y0: i64 = y.floor_to_i32() as i64;
        let fx: Float32 = frac(x);
        let fy: Float32 = frac(y);
        let c00: [Float32; 3] = self.texel(face, x0, y0);
        let c10: [Float32; 3] = self.texel(face, x0 + 1, y0);
        let c01: [Float32; 3] = self.texel(face, x0, y0 + 1);
        let c11: [Float32; 3] = self.texel(face, x0 + 1, y0 + 1);
        let mut color: [Float32; 3] = [Float32 { bits: 0 };3];
        let mut c: usize = 0;
        while c < 3
            invariant
                c <= 3,
                x0 == x.cell(),
                y0 == y.cell(),
                forall|a: Float32, b: Float32, t: Float32| call_requires(*lerp, (a, b, t)),
                forall|c: int|
                    0 <= c < 3 ==> #[trigger] c00@[c] == self.channel(
                        face as int,
                        x0 as int,
                        y0 as int,
                        c,
                    ),
                forall|c: int|
                    0 <= c < 3 ==> #[trigger] c10@[c] == self.channel(
                        face as int,
                        x0 + 1,
                        y0 as int,
                        c,
                    ),
                forall|c: int|
                    0 <= c < 3 ==> #[trigger] c01@[c] == self.channel(
                        face as int,
                        x0 as int,
                        y0 + 1,
                        c,
                    ),
                forall|c: int|
                    0 <= c < 3 ==> #[trigger] c11@[c] == self.channel(
                        face as int,
                        x0 + 1,
                        y0 + 1,
                        c,
                    ),
                forall|k: int|
                    #![trigger color@[k]]
                    0 <= k < c ==> self.interpolated(
                        face as int,
                        x0 as int,
                        y0 as int,
                        fx,
                        fy,
                        *lerp,
                        k,
                        color@[k],
                    ),
            decreases 3 - c,
        {
            let top: Float32 = lerp(c00[c], c10[c], fx);
            let bottom: Float32 = lerp(c01[c], c11[c], fx);
            let value: Float32 = lerp(top, bottom, fy);
            proof {
                assert(self.interpolated(
                    face as int,
                    x0 as int,
                    y0 as int,
                    fx,
                    fy,
                    *lerp,
                    c as int,
                    value,
                ));
            }
            color[c] = value;
            c = c + 1;
        }
        color
    }

    /// Bicubic reconstruction at texel coordinates `(x, y)`, where the centre of
    /// the first texel is at zero.
    ///
    /// `frac` gives a coordinate's distance from the integer below it, `weights`
    /// the weights of the four taps at such a distance, and `madd(a, v, w)` is
    /// `a + v * w`. The kernel overshoots on high-contrast edges; negative light
    /// is not meaningful, so the lower bound is clamped, and only that.
    #[inline]
    pub fn bicubic<
        F: Fn(Float32) -> Float32,
        W: Fn(Float32) -> [Float32; 4],
        M: Fn(Float32, Float32, Float32) -> Float32,
    >(&self, face: usize, x: Float32, y: Float32, frac: &F, weights: &W, madd: &M) -> (color: [Float32; 3])
        requires
            face < 6,
            forall|v: Float32| call_requires(*frac, (v,)),
            forall|t: Float32| call_requires(*weights, (t,)),
            forall|a: Float32, v: Float32, w: Float32| call_requires(*madd, (a, v, w)),
        ensures
            self.bicubic_at(face as int, x, y, *frac, *weights, *madd, color@),
            forall|c: int| 0 <= c < 3 ==> zero().le(#[trigger] color@[c]),
    {
        let x0: i64 = x.floor_to_i32() as i64 - 1;
        let y0: i64 = y.floor_to_i32() as i64 - 1;
        let fx: Float32 = frac(x);
        let fy: Float32 = frac(y);
        let wx: [Float32; 4] = weights(fx);
        let wy: [Float32; 4] = weights(fy);
        let nothing: Float32 = Float32 { bits: 0 };
        let mut sums: [Float32; 3] = [nothing;3];
        let ghost mut rows: Seq<Seq<Float32>> = Seq::new(3, |c: int| Seq::<Float32>::empty());
        let ghost mut runs: Seq<Seq<Float32>> = Seq::new(3, |c: int| seq![zero()]);
        let mut j: usize = 0;
        while j < 4
            invariant
                j <= 4,
                face < 6,
                    x0 == x.cell() - 1,
                y0 == y.cell() - 1,
                i32::MIN - 1 <= x0 < i32::MAX,
                i32::MIN - 1 <= y0 < i32::MAX,
                nothing == zero(),
                rows.len() == 3,
                runs.len() == 3,
                forall|a: Float32, v: Float32, w: Float32| call_requires(*madd, (a, v, w)),
                forall|c: int|
                    #![trigger rows[c]]
                    0 <= c < 3 ==> {
                        &&& rows[c].len() == j
                        &&& self.row_sums(face as int, x0 as int, y0 as int, wx@, *madd, c, rows[c])
                    },
                forall|c: int|
                    #![trigger runs[c]]
                    0 <= c < 3 ==> {
                        &&& runs[c].len() == j + 1
                        &&& runs[c].last() == sums@[c]
                        &&& running_sums(*madd, rows[c], wy@, runs[c])
                    },
            decreases 4 - j,
        {
            let mut row: [Float32; 3] = [nothing;3];
            let ghost mut inner: Seq<Seq<Float32>> = Seq::new(3, |c: int| seq![zero()]);
            let mut i: usize = 0;
            while i < 4
                invariant
                    i <= 4,
                    j < 4,
                    face < 6,
                            i32::MIN - 1 <= x0 < i32::MAX,
                    i32::MIN - 1 <= y0 < i32::MAX,
                    inner.len() == 3,
                    forall|a: Float32, v: Float32, w: Float32| call_requires(*madd, (a, v, w)),
                    forall|c: int|
                        #![trigger inner[c]]
                        0 <= c < 3 ==> {
                            &&& inner[c].len() == i + 1
                            &&& inner[c].last() == row@[c]
                            &&& running_sums(
                                *madd,
                                self.taps(face as int, x0 as int, y0 + j, c),
                                wx@,
                                inner[c],
                            )
                        },
                decreases 4 - i,
            {
                let t: [Float32; 3] = self.texel(face, x0 + i as i64, y0 + j as i64);
                let r: Float32 = madd(row[0], t[0], wx[i]);
                let g: Float32 = madd(row[1], t[1], wx[i]);
                let b: Float32 = madd(row[2], t[2], wx[i]);
                let ghost before = row@;
                row = [r, g, b];
                proof {
                    let old_inner = inner;
                    inner = Seq::new(3, |c: int| old_inner[c].push(row@[c]));
                    assert forall|c: int| #![trigger inner[c]] 0 <= c < 3 implies running_sums(
                        *madd,
                        self.taps(face as int, x0 as int, y0 + j, c),
                        wx@,
                        inner[c],
                    ) by {
                        let taps = self.taps(face as int, x0 as int, y0 + j, c);
                        assert(old_inner[c].last() == before[c]);
                        assert(taps[i as int] == t@[c]);
                        assert(call_ensures(
                            *madd,
                            (before[c], taps[i as int], wx@[i as int]),
                            row@[c],
                        ));
                        assert forall|n: int|
                            #![trigger inner[c][n]]
                            1 <= n < inner[c].len() implies call_ensures(
                            *madd,
                            (inner[c][n - 1], taps[n - 1], wx@[n - 1]),
                            inner[c][n],
                        ) by {
                            assert(inner[c][n - 1] == old_inner[c][n - 1]);
                            if n <= i {
                                assert(inner[c][n] == old_inner[c][n]);
                            }
                        }
                    }
                }
                i = i + 1;
            }
            let r: Float32 = madd(sums[0], row[0], wy[j]);
            let g: Float32 = madd(sums[1], row[1], wy[j]);
            let b: Float32 = madd(sums[2], row[2], wy[j]);
            let ghost before = sums@;
            sums = [r, g, b];
            proof {
                let (old_rows, old_runs) = (rows, runs);
                rows = Seq::new(3, |c: int| old_rows[c].push(row@[c]));
                runs = Seq::new(3, |c: int| old_runs[c].push(sums@[c]));
                assert forall|c: int| #![trigger rows[c]] 0 <= c < 3 implies self.row_sums(
                    face as int,
                    x0 as int,
                    y0 as int,
                    wx@,
                    *madd,
                    c,
                    rows[c],
                ) by {
                    assert(old_rows[c].len() == j);
                    assert(inner[c].len() == 5);
                    assert(weighted_sum(
                        *madd,
                        self.taps(face as int, x0 as int, y0 + j, c),
                        wx@,
                        row@[c],
                    ));
                    assert forall|k: int|
                        #![trigger rows[c][k]]
                        0 <= k < rows[c].len() implies weighted_sum(
                        *madd,
                        self.taps(face as int, x0 as int, y0 + k, c),
                        wx@,
                        rows[c][k],
                    ) by {
                        if k < j {
                            assert(rows[c][k] == old_rows[c][k]);
                        }
                    }
                }
                assert forall|c: int| #![trigger runs[c]] 0 <= c < 3 implies running_sums(
                    *madd,
                    rows[c],
                    wy@,
                    runs[c],
                ) by {
                    assert(old_rows[c].len() == j);
                    assert(old_runs[c].last() == before[c]);
                    assert(rows[c][j as int] == row@[c]);
                    assert(call_ensures(
                        *madd,
                        (before[c], rows[c][j as int], wy@[j as int]),
                        sums@[c],
                    ));
                    assert forall|n: int|
                        #![trigger runs[c][n]]
                        1 <= n < runs[c].len() implies call_ensures(
                        *madd,
                        (runs[c][n - 1], rows[c][n - 1], wy@[n - 1]),
                        runs[c][n],
                    ) by {
                        assert(runs[c][n - 1] == old_runs[c][n - 1]);
                        if n <= j {
                            assert(runs[c][n] == old_runs[c][n]);
                            assert(rows[c][n - 1] == old_rows[c][n - 1]);
                        }
                    }
                }
            }
            j = j + 1;
        }
        let color: [Float32; 3] = [
            sums[0].max(nothing),
            sums[1].max(nothing),
            sums[2].max(nothing),
        ];
        proof {
            assert forall|c: int| #![trigger color@[c]] 0 <= c < 3 implies self.convolved(
                face as int,
                x.cell() - 1,
                y.cell() - 1,
                wx@,
                wy@,
                *madd,
                c,
                color@[c],
            ) by {
                assert(rows[c].len() == 4);
                assert(runs[c].len() == 5);
                assert(weighted_sum(*madd, rows[c], wy@, sums@[c]));
                assert(color@[c] == sums@[c].max_of(zero()));
            }
        }
        color
    }

    /// Sample a face at normalised `[0,1]` coordinates.
    ///
    /// Coordinates are clamped at the face border. Cube edges therefore reuse the
    /// outermost texel rather than reaching into the neighbouring face; with
    /// correctly rendered faces this is sub-pixel and invisible.
    #[inline]
    pub fn sample<
        T: Fn(Float32, usize) -> Float32,
        F: Fn(Float32) -> Float32,
        L: Fn(Float32, Float32, Float32) -> Float32,
        W: Fn(Float32) -> [Float32; 4],
        M: Fn(Float32, Float32, Float32) -> Float32,
    >(
        &self,
        face: usize,
        u: Float32,
        v: Float32,
        filter: Filter,
        ops: &Arithmetic<T, F, L, W, M>,
    ) -> (color: [Float32; 3])
        requires
            face < 6,
            ops.total(),
        ensures
            self.sampled(face as int, u, v, filter, *ops, color@),
    {
        let place: &T = &ops.place;
        let x: Float32 = place(u, self.size);
        let y: Float32 = place(v, self.size);
        match filter {
            Filter::Bilinear => self.bilinear(face, x, y, &ops.frac, &ops.lerp),
            Filter::Bicubic => self.bicubic(face, x, y, &ops.frac, &ops.weights, &ops.madd),
        }
    }

    /// Follow a direction to the face that it hits and sample the face there.
    /// `project` is as for [`dir_to_face_uv`].
    #[inline]
    pub fn look<
        P: Fn(Float32, Float32) -> Float32,
        T: Fn(Float32, usize) -> Float32,
        F: Fn(Float32) -> Float32,
        L: Fn(Float32, Float32, Float32) -> Float32,
        W: Fn(Float32) -> [Float32; 4],
        M: Fn(Float32, Float32, Float32) -> Float32,
    >(
        &self,
        dir: [Float32; 3],
        filter: Filter,
        project: &P,
        ops: &Arithmetic<T, F, L, W, M>,
    ) -> (color: [Float32; 3])
        requires
            forall|c: Float32, axis: Float32| call_requires(*project, (c, axis)),
            ops.total(),
        ensures
            self.seen(dir@, filter, *project, *ops, color@),
    {
        let (face, u, v): (usize, Float32, Float32) = dir_to_face_uv(dir, project);
        let color: [Float32; 3] = self.sample(face, u, v, filter, ops);
        proof {
            let hit = hit_of(dir@[0], dir@[1], dir@[2]);
            assert(call_ensures(*project, (hit.sc, hit.ma), u));
            assert(call_ensures(*project, (hit.tc, hit.ma), v));
        }
        color
    }
}

/// `x` moved into `0 ..= last`.
fn clamp(x: i64, last: i64) -> (r: i64)
    requires
        0 <= last < i64::MAX,
    ensures
        r == clamped(x as int, last + 1),
{
    if x < 0 {
        0
    } else if x > last {
        last
    } else {
        x
    }
}

} // verus!
