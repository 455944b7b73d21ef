//! From panorama positions to directions, and from directions to cube faces.
//!
//! Convention (OpenGL-style, right-handed, Y-up):
//!
//! ```text
//!   face 0  +X   right
//!   face 1  -X   left
//!   face 2  +Y   up
//!   face 3  -Y   down
//!   face 4  +Z   back
//!   face 5  -Z   front   <-- ends up at the horizontal centre of the panorama
//! ```
//!
//! The equirectangular image spans longitude theta in [-pi, pi] left-to-right and
//! latitude phi in [+pi/2, -pi/2] top-to-bottom.

use crate::float32::{function1, function2, lemma_sign, zero, Float32};
use vstd::arithmetic::power2::pow2;
use vstd::prelude::*;

verus! {

/// The axis that each face lies on, in face order.
pub const FACE_NAMES: [&'static str; 6] = ["+X", "-X", "+Y", "-Y", "+Z", "-Z"];

/// Where a direction hits the cube: the face, the two face-local coordinates
/// before projection, and the magnitude of the component along the face's axis.
/// `sc` runs left to right and `tc` top to bottom within the face image.
#[derive(Copy, Clone, Debug, PartialEq, Eq, Structural)]
pub struct Hit {
    pub face: usize,
    pub sc: Float32,
    pub tc: Float32,
    pub ma: Float32,
}

/// The hit of a direction: the component of largest magnitude chooses the axis,
/// X before Y before Z, and its sign the face. A component that is not positive
/// counts as negative; a comparison with a NaN fails.
pub open spec fn hit_of(x: Float32, y: Float32, z: Float32) -> Hit {
    let (ax, ay, az) = (x.abs_of(), y.abs_of(), z.abs_of());
    if ay.le(ax) && az.le(ax) {
        if zero().lt(x) {
            Hit { face: 0, sc: z.neg_of(), tc: y.neg_of(), ma: ax }
        } else {
            Hit { face: 1, sc: z, tc: y.neg_of(), ma: ax }
        }
    } else if az.le(ay) {
        if zero().lt(y) {
            Hit { face: 2, sc: x, tc: z, ma: ay }
        } else {
            Hit { face: 3, sc: x, tc: z.neg_of(), ma: ay }
        }
    } else if zero().lt(z) {
        Hit { face: 4, sc: x, tc: y.neg_of(), ma: az }
    } else {
        Hit { face: 5, sc: x.neg_of(), tc: y.neg_of(), ma: az }
    }
}

/// The direction to the point `(s, t)` of a face that lies `m` away from the centre.
pub open spec fn rebuilt(face: usize, s: int, t: int, m: int) -> (int, int, int) {
    if face == 0 {
        (m, -t, -s)
    } else if face == 1 {
        (-m, -t, s)
    } else if face == 2 {
        (s, m, t)
    } else if face == 3 {
        (s, -m, -t)
    } else if face == 4 {
        (s, -t, m)
    } else {
        (-s, -t, -m)
    }
}

/// The direction, in units of `2^-149`, that a hit stands for.
pub open spec fn direction_of(hit: Hit) -> (int, int, int) {
    rebuilt(hit.face, hit.sc.units(), hit.tc.units(), hit.ma.units())
}

/// Every direction hits one of the six faces, and hits it inside: neither
/// coordinate exceeds the axis component, so that `(coordinate / ma + 1) / 2`
/// lies in `[0, 1]`. The axis component vanishes for the zero direction alone.
pub proof fn law_every_direction_hits_a_face(x: Float32, y: Float32, z: Float32)
    requires
        !x.nan(),
        !y.nan(),
        !z.nan(),
    ensures
        ({
            let hit = hit_of(x, y, z);
            let (s, t, m) = (hit.sc.units(), hit.tc.units(), hit.ma.units());
            &&& hit.face < 6
            &&& !hit.sc.nan() && !hit.tc.nan() && !hit.ma.nan()
            &&& 0 <= m + s <= 2 * m
            &&& 0 <= m + t <= 2 * m
            &&& m == 0 <==> x.units() == 0 && y.units() == 0 && z.units() == 0
        }),
{
    lemma_sign(x);
    lemma_sign(y);
    lemma_sign(z);
}

/// No two directions share a hit: the hit gives the direction back. Together
/// with every direction having one, the faces tile all directions.
pub proof fn law_hit_gives_direction_back(x: Float32, y: Float32, z: Float32)
    requires
        !x.nan(),
        !y.nan(),
        !z.nan(),
    ensures
        direction_of(hit_of(x, y, z)) == (x.units(), y.units(), z.units()),
{
    lemma_sign(x);
    lemma_sign(y);
    lemma_sign(z);
}

/// Whether a direction hits `face`, at the projected coordinates `u` and `v`.
pub open spec fn lands<P: Fn(Float32, Float32) -> Float32>(
    x: Float32,
    y: Float32,
    z: Float32,
    project: P,
    face: usize,
    u: Float32,
    v: Float32,
) -> bool {
    let hit = hit_of(x, y, z);
    &&& face == hit.face
    &&& call_ensures(project, (hit.sc, hit.ma), u)
    &&& call_ensures(project, (hit.tc, hit.ma), v)
}

/// The face across the cube.
pub open spec fn opposite(face: usize) -> int {
    if face % 2 == 0 {
        face + 1
    } else {
        face - 1
    }
}

/// The opposite direction hits the opposite face, ties decided alike, at the
/// mirrored place: left and right change sides on the upper and lower faces, top
/// and bottom on the others.
pub proof fn law_opposite_direction(x: Float32, y: Float32, z: Float32)
    requires
        !x.nan(),
        !y.nan(),
        !z.nan(),
        x.units() != 0 || y.units() != 0 || z.units() != 0,
    ensures
        ({
            let hit = hit_of(x, y, z);
            let back = hit_of(x.neg_of(), y.neg_of(), z.neg_of());
            &&& back.face == opposite(hit.face)
            &&& back.ma == hit.ma
            &&& if hit.face == 2 || hit.face == 3 {
                back.sc == hit.sc.neg_of() && back.tc == hit.tc
            } else {
                back.sc == hit.sc && back.tc == hit.tc.neg_of()
            }
        }),
{
    lemma_sign(x);
    lemma_sign(y);
    lemma_sign(z);
    assert(x.neg_of().abs_of() == x.abs_of());
    assert(y.neg_of().abs_of() == y.abs_of());
    assert(z.neg_of().abs_of() == z.abs_of());
    assert(y.neg_of().neg_of() == y);
    assert(z.neg_of().neg_of() == z);
    assert(x.neg_of().neg_of() == x);
}

/// The opposite direction lands on the opposite face; one of its coordinates is
/// the same, and the other is mirrored as well as the projection mirrors: where
/// the projections of a coordinate and of its negative add up to one within
/// `tolerance`, in units of `2^-149`, so do the two.
pub proof fn law_opposite_direction_lands<P: Fn(Float32, Float32) -> Float32>(
    x: Float32,
    y: Float32,
    z: Float32,
    project: P,
    at: (usize, Float32, Float32),
    back: (usize, Float32, Float32),
    tolerance: int,
)
    requires
        !x.nan(),
        !y.nan(),
        !z.nan(),
        x.units() != 0 || y.units() != 0 || z.units() != 0,
        lands(x, y, z, project, at.0, at.1, at.2),
        lands(x.neg_of(), y.neg_of(), z.neg_of(), project, back.0, back.1, back.2),
        function2(project),
        forall|c: Float32, r: Float32, s: Float32|
            #![trigger call_ensures(project, (c, hit_of(x, y, z).ma), r), call_ensures(project, (c.neg_of(), hit_of(x, y, z).ma), s)]
            (c == hit_of(x, y, z).sc || c == hit_of(x, y, z).tc) && call_ensures(
                project,
                (c, hit_of(x, y, z).ma),
                r,
            ) && call_ensures(project, (c.neg_of(), hit_of(x, y, z).ma), s) ==> -tolerance
                <= r.units() + s.units() - pow2(149) <= tolerance,
    ensures
        back.0 == opposite(at.0),
        at.0 == 2 || at.0 == 3 ==> {
            &&& back.2 == at.2
            &&& -tolerance <= at.1.units() + back.1.units() - pow2(149) <= tolerance
        },
        at.0 != 2 && at.0 != 3 ==> {
            &&& back.1 == at.1
            &&& -tolerance <= at.2.units() + back.2.units() - pow2(149) <= tolerance
        },
{
    law_opposite_direction(x, y, z);
}

/// Where a direction lands gives the direction back, as exactly as the
/// projection is: where `2 * u - 1` and `2 * v - 1`, times the axis component, are
/// the coordinates within `tolerance`, so are the components rebuilt from them.
/// All numbers are in units of `2^-298`.
pub proof fn law_landing_gives_direction_back<P: Fn(Float32, Float32) -> Float32>(
    x: Float32,
    y: Float32,
    z: Float32,
    project: P,
    face: usize,
    u: Float32,
    v: Float32,
    tolerance: int,
)
    requires
        !x.nan(),
        !y.nan(),
        !z.nan(),
        lands(x, y, z, project, face, u, v),
        tolerance >= 0,
        ({
            let (hit, one) = (hit_of(x, y, z), pow2(149) as int);
            &&& -tolerance <= (2 * u.units() - one) * hit.ma.units() - hit.sc.units() * one <= tolerance
            &&& -tolerance <= (2 * v.units() - one) * hit.ma.units() - hit.tc.units() * one <= tolerance
        }),
    ensures
        ({
            let (m, one) = (hit_of(x, y, z).ma.units(), pow2(149) as int);
            let (s, t) = ((2 * u.units() - one) * m, (2 * v.units() - one) * m);
            let d = rebuilt(face, s, t, m * one);
            &&& -tolerance <= d.0 - x.units() * one <= tolerance
            &&& -tolerance <= d.1 - y.units() * one <= tolerance
            &&& -tolerance <= d.2 - z.units() * one <= tolerance
        }),
{
    law_hit_gives_direction_back(x, y, z);
    let hit = hit_of(x, y, z);
    let one = pow2(149) as int;
    let (s, t, m) = (hit.sc.units(), hit.tc.units(), hit.ma.units());
    assert((-s) * one == -(s * one)) by (nonlinear_arith);
    assert((-t) * one == -(t * one)) by (nonlinear_arith);
    assert((-m) * one == -(m * one)) by (nonlinear_arith);
}

/// How high above the horizon a direction points is a matter of the row alone:
/// neither the column nor the yaw has a part in it.
pub proof fn law_height_is_of_the_row<
    G: Fn(Float32, Float32, Float32) -> Float32,
    H: Fn(Float32, Float32) -> Float32,
    S: Fn(Float32) -> (Float32, Float32),
    M: Fn(Float32, Float32) -> Float32,
>(
    v: Float32,
    height: Float32,
    at: (Float32, Float32, Float32),
    at2: (Float32, Float32, Float32),
    longitude: G,
    latitude: H,
    sin_cos: S,
    times: M,
    dir: Seq<Float32>,
    dir2: Seq<Float32>,
)
    requires
        aimed(at.0, v, at.1, height, at.2, longitude, latitude, sin_cos, times, dir),
        aimed(at2.0, v, at2.1, height, at2.2, longitude, latitude, sin_cos, times, dir2),
        function2(latitude),
        function1(sin_cos),
    ensures
        dir[1] == dir2[1],
{
}

/// Whether `dir` points to a longitude and a latitude, given by their sines and
/// cosines: `cos(phi) * sin(theta)` to the right, `sin(phi)` up, and
/// `-cos(phi) * cos(theta)` back.
pub open spec fn points_to<M: Fn(Float32, Float32) -> Float32>(
    theta: (Float32, Float32),
    phi: (Float32, Float32),
    times: M,
    dir: Seq<Float32>,
) -> bool {
    &&& call_ensures(times, (phi.1, theta.0), dir[0])
    &&& dir[1] == phi.0
    &&& call_ensures(times, (phi.1.neg_of(), theta.1), dir[2])
}

/// Whether `dir` is the direction of position `(u, v)` in a panorama: it points
/// to the longitude of the column and the latitude of the row.
pub open spec fn aimed<
    G: Fn(Float32, Float32, Float32) -> Float32,
    H: Fn(Float32, Float32) -> Float32,
    S: Fn(Float32) -> (Float32, Float32),
    M: Fn(Float32, Float32) -> Float32,
>(
    u: Float32,
    v: Float32,
    width: Float32,
    height: Float32,
    yaw: Float32,
    longitude: G,
    latitude: H,
    sin_cos: S,
    times: M,
    dir: Seq<Float32>,
) -> bool {
    exists|
        theta: Float32,
        phi: Float32,
        sc_theta: (Float32, Float32),
        sc_phi: (Float32, Float32),
    |
        #![trigger call_ensures(sin_cos, (theta,), sc_theta), call_ensures(sin_cos, (phi,), sc_phi)]
        {
            &&& call_ensures(longitude, (u, width, yaw), theta)
            &&& call_ensures(latitude, (v, height), phi)
            &&& call_ensures(sin_cos, (theta,), sc_theta)
            &&& call_ensures(sin_cos, (phi,), sc_phi)
            &&& points_to(sc_theta, sc_phi, times, dir)
        }
}

/// Map a (sub)pixel position in the equirectangular output to a direction.
///
/// `u` and `v` are in *continuous* pixel space: the sample offset within the
/// pixel footprint is already added. `longitude(u, width, yaw)` and
/// `latitude(v, height)` turn them into angles, `sin_cos` gives the sine and the
/// cosine of an angle, and `times` multiplies.
#[inline]
pub fn equirect_to_dir<
    G: Fn(Float32, Float32, Float32) -> Float32,
    H: Fn(Float32, Float32) -> Float32,
    S: Fn(Float32) -> (Float32, Float32),
    M: Fn(Float32, Float32) -> Float32,
>(
    u: Float32,
    v: Float32,
    width: Float32,
    height: Float32,
    yaw: Float32,
    longitude: &G,
    latitude: &H,
    sin_cos: &S,
    times: &M,
) -> (dir: [Float32; 3])
    requires
        forall|u: Float32, w: Float32, yaw: Float32| call_requires(*longitude, (u, w, yaw)),
        forall|v: Float32, h: Float32| call_requires(*latitude, (v, h)),
        forall|angle: Float32| call_requires(*sin_cos, (angle,)),
        forall|a: Float32, b: Float32| call_requires(*times, (a, b)),
    ensures
        aimed(
            u,
            v,
            width,
            height,
            yaw,
            *longitude,
            *latitude,
            *sin_cos,
            *times,
            dir@,
        ),
{
    let theta: Float32 = longitude(u, width, yaw);
    let phi: Float32 = latitude(v, height);
    let sc_phi: (Float32, Float32) = sin_cos(phi);
    let sc_theta: (Float32, Float32) = sin_cos(theta);
    let dir: [Float32; 3] = [
        times(sc_phi.1, sc_theta.0),
        sc_phi.0,
        times(sc_phi.1.neg(), sc_theta.1),
    ];
    proof {
        assert(points_to(sc_theta, sc_phi, *times, dir@));
    }
    dir
}

/// Find the face that a direction hits, and the coordinates within it.
pub fn dir_to_hit(d: [Float32; 3]) -> (r: Hit)
    ensures
        r == hit_of(d@[0], d@[1], d@[2]),
        r.face < 6,
{
    let (x, y, z): (Float32, Float32, Float32) = (d[0], d[1], d[2]);
    let (ax, ay, az): (Float32, Float32, Float32) = (x.abs(), y.abs(), z.abs());
    let origin: Float32 = Float32 { bits: 0 };
    if ay.at_most(ax) && az.at_most(ax) {
        if origin.less(x) {
            Hit { face: 0, sc: z.neg(), tc: y.neg(), ma: ax }
        } else {
            Hit { face: 1, sc: z, tc: y.neg(), ma: ax }
        }
    } else if az.at_most(ay) {
        if origin.less(y) {
            Hit { face: 2, sc: x, tc: z, ma: ay }
        } else {
            Hit { face: 3, sc: x, tc: z.neg(), ma: ay }
        }
    } else if origin.less(z) {
        Hit { face: 4, sc: x, tc: y.neg(), ma: az }
    } else {
        Hit { face: 5, sc: x.neg(), tc: y.neg(), ma: az }
    }
}

/// Select the cube face that a direction hits and return the face-local uv.
///
/// `project` maps a coordinate and the axis component to `[0, 1]`, as
/// `coordinate * (0.5 / axis) + 0.5` does. `u` runs left to right and `v` top to
/// bottom, matching the row-major storage of the face images.
#[inline]
pub fn dir_to_face_uv<P: Fn(Float32, Float32) -> Float32>(d: [Float32; 3], project: &P) -> (r: (
    usize,
    Float32,
    Float32,
))
    requires
        forall|c: Float32, axis: Float32| call_requires(*project, (c, axis)),
    ensures
        lands(d@[0], d@[1], d@[2], *project, r.0, r.1, r.2),
        r.0 < 6,
{
    let hit: Hit = dir_to_hit(d);
    (hit.face, project(hit.sc, hit.ma), project(hit.tc, hit.ma))
}

} // verus!
