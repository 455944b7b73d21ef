//! Laws of directions, of hits and of the panorama.

use crate::cubemap::{Arithmetic, CubeMap, Filter};
use crate::float32::{function1, function2, function3, lemma_sign, Float32};
use crate::panorama::{
    law_trace_is_fixed, lemma_exposed_is_fixed, panorama, trace, traced, traced_at, traced_pixel, Camera, Rays,
};
use crate::projection::{dir_to_face_uv, dir_to_hit, equirect_to_dir, Hit};
use crate::render::{added, exposed, Output};
use vstd::arithmetic::div_mod::lemma_fundamental_div_mod;
use vstd::prelude::*;

verus! {

/// Whether a product has the sign that its factors give it.
pub open spec fn keeps_sign<X: Fn(Float32, Float32) -> Float32>(
    times: X,
    a: Float32,
    b: Float32,
) -> bool {
    forall|r: Float32| #[trigger]
        call_ensures(times, (a, b), r) ==> {
            &&& !r.nan()
            &&& a.units() > 0 && b.units() > 0 || a.units() < 0 && b.units() < 0 ==> r.units() > 0
            &&& a.units() > 0 && b.units() < 0 || a.units() < 0 && b.units() > 0 ==> r.units() < 0
        }
}

/// Which way a direction points: to the right where the sine of the longitude is
/// positive and to the left where it is negative, to the front where the cosine
/// is positive and to the back where it is negative, as long as the latitude is
/// short of the poles; and up as the sine of the latitude says. Width, height and
/// yaw have no part in it but through the two angles.
pub proof fn law_directions_point_where_the_angles_say<
    G: Fn(Float32, Float32, Float32) -> Float32,
    H: Fn(Float32, Float32) -> Float32,
    S: Fn(Float32) -> (Float32, Float32),
    X: Fn(Float32, Float32) -> Float32,
>(
    u: Float32,
    v: Float32,
    width: Float32,
    height: Float32,
    yaw: Float32,
    longitude: G,
    latitude: H,
    sin_cos: S,
    times: X,
    dir: [Float32; 3],
    theta: Float32,
    phi: Float32,
    sc_theta: (Float32, Float32),
    sc_phi: (Float32, Float32),
    away: Float32,
)
    requires
        call_ensures(
            equirect_to_dir::<G, H, S, X>,
            (u, v, width, height, yaw, &longitude, &latitude, &sin_cos, &times),
            dir,
        ),
        function3(longitude),
        function2(latitude),
        function1(sin_cos),
        call_ensures(longitude, (u, width, yaw), theta),
        call_ensures(latitude, (v, height), phi),
        call_ensures(sin_cos, (theta,), sc_theta),
        call_ensures(sin_cos, (phi,), sc_phi),
        call_ensures(Float32::neg, (sc_phi.1,), away),
        keeps_sign(times, sc_phi.1, sc_theta.0),
        keeps_sign(times, away, sc_theta.1),
        sc_phi.1.units() > 0,
    ensures
        sc_theta.0.units() > 0 ==> dir@[0].units() > 0,
        sc_theta.0.units() < 0 ==> dir@[0].units() < 0,
        sc_theta.1.units() > 0 ==> dir@[2].units() < 0,
        sc_theta.1.units() < 0 ==> dir@[2].units() > 0,
        dir@[1] == sc_phi.0,
{
    lemma_sign(sc_phi.1);
}

/// Two positions with the same longitude and latitude have the same direction,
/// whatever the dimensions of the panoramas and the angles they are turned by.
pub proof fn law_directions_are_of_the_angles<
    G: Fn(Float32, Float32, Float32) -> Float32,
    H: Fn(Float32, Float32) -> Float32,
    S: Fn(Float32) -> (Float32, Float32),
    X: Fn(Float32, Float32) -> Float32,
>(
    column: (Float32, Float32, Float32),
    column2: (Float32, Float32, Float32),
    row: (Float32, Float32),
    row2: (Float32, Float32),
    longitude: G,
    latitude: H,
    sin_cos: S,
    times: X,
    dir: [Float32; 3],
    dir2: [Float32; 3],
    theta: Float32,
    phi: Float32,
)
    requires
        call_ensures(
            equirect_to_dir::<G, H, S, X>,
            (
                column.0,
                row.0,
                column.1,
                row.1,
                column.2,
                &longitude,
                &latitude,
                &sin_cos,
                &times,
            ),
            dir,
        ),
        call_ensures(
            equirect_to_dir::<G, H, S, X>,
            (
                column2.0,
                row2.0,
                column2.1,
                row2.1,
                column2.2,
                &longitude,
                &latitude,
                &sin_cos,
                &times,
            ),
            dir2,
        ),
        function3(longitude),
        function2(latitude),
        function1(sin_cos),
        function2(times),
        call_ensures(longitude, column, theta),
        call_ensures(longitude, column2, theta),
        call_ensures(latitude, row, phi),
        call_ensures(latitude, row2, phi),
    ensures
        dir@[0] == dir2@[0],
        dir@[1] == dir2@[1],
        dir@[2] == dir2@[2],
{
}

/// The components of a direction: what the cosine of the latitude leaves of the
/// sine of the longitude to the right, the sine of the latitude up, and what the
/// turned cosine leaves of the cosine of the longitude to the back.
pub proof fn law_directions_are_products<
    G: Fn(Float32, Float32, Float32) -> Float32,
    H: Fn(Float32, Float32) -> Float32,
    S: Fn(Float32) -> (Float32, Float32),
    X: Fn(Float32, Float32) -> Float32,
>(
    u: Float32,
    v: Float32,
    width: Float32,
    height: Float32,
    yaw: Float32,
    longitude: G,
    latitude: H,
    sin_cos: S,
    times: X,
    dir: [Float32; 3],
    theta: Float32,
    phi: Float32,
    sc_theta: (Float32, Float32),
    sc_phi: (Float32, Float32),
    away: Float32,
)
    requires
        call_ensures(
            equirect_to_dir::<G, H, S, X>,
            (u, v, width, height, yaw, &longitude, &latitude, &sin_cos, &times),
            dir,
        ),
        function3(longitude),
        function2(latitude),
        function1(sin_cos),
        call_ensures(longitude, (u, width, yaw), theta),
        call_ensures(latitude, (v, height), phi),
        call_ensures(sin_cos, (theta,), sc_theta),
        call_ensures(sin_cos, (phi,), sc_phi),
        call_ensures(Float32::neg, (sc_phi.1,), away),
    ensures
        call_ensures(times, (sc_phi.1, sc_theta.0), dir@[0]),
        dir@[1] == sc_phi.0,
        call_ensures(times, (away, sc_theta.1), dir@[2]),
{
}

/// Half a turn, which turns the signs of the sine and the cosine of the longitude,
/// makes a direction point the other way, left for right and back for front, and
/// as far up as before.
pub proof fn law_half_a_turn<
    G: Fn(Float32, Float32, Float32) -> Float32,
    H: Fn(Float32, Float32) -> Float32,
    S: Fn(Float32) -> (Float32, Float32),
    X: Fn(Float32, Float32) -> Float32,
>(
    column: (Float32, Float32, Float32),
    column2: (Float32, Float32, Float32),
    row: (Float32, Float32),
    longitude: G,
    latitude: H,
    sin_cos: S,
    times: X,
    dir: [Float32; 3],
    dir2: [Float32; 3],
    theta: Float32,
    theta2: Float32,
    sc: (Float32, Float32),
    sc2: (Float32, Float32),
)
    requires
        call_ensures(
            equirect_to_dir::<G, H, S, X>,
            (
                column.0,
                row.0,
                column.1,
                row.1,
                column.2,
                &longitude,
                &latitude,
                &sin_cos,
                &times,
            ),
            dir,
        ),
        call_ensures(
            equirect_to_dir::<G, H, S, X>,
            (
                column2.0,
                row.0,
                column2.1,
                row.1,
                column2.2,
                &longitude,
                &latitude,
                &sin_cos,
                &times,
            ),
            dir2,
        ),
        function3(longitude),
        function2(latitude),
        function1(sin_cos),
        call_ensures(longitude, column, theta),
        call_ensures(longitude, column2, theta2),
        call_ensures(sin_cos, (theta,), sc),
        call_ensures(sin_cos, (theta2,), sc2),
        call_ensures(Float32::neg, (sc.0,), sc2.0),
        call_ensures(Float32::neg, (sc.1,), sc2.1),
        forall|a: Float32, r: Float32, s: Float32|
            #![trigger call_ensures(times, (a, sc.0), r), call_ensures(times, (a, sc2.0), s)]
            call_ensures(times, (a, sc.0), r) && call_ensures(times, (a, sc2.0), s) ==> s.units()
                == -r.units(),
        forall|a: Float32, r: Float32, s: Float32|
            #![trigger call_ensures(times, (a, sc.1), r), call_ensures(times, (a, sc2.1), s)]
            call_ensures(times, (a, sc.1), r) && call_ensures(times, (a, sc2.1), s) ==> s.units()
                == -r.units(),
    ensures
        dir2@[0].units() == -dir@[0].units(),
        dir2@[1] == dir@[1],
        dir2@[2].units() == -dir@[2].units(),
{
}

/// The face that a direction hits is across the largest component, the first of
/// them where there are several: `+X` and `-X` come first, then `+Y` and `-Y`,
/// then `+Z` and `-Z`. On all faces the column runs to the right and the row down,
/// as seen from the centre: the direction can be told from where it hits.
pub proof fn law_hits_are_across_the_largest_component(d: [Float32; 3], hit: Hit)
    requires
        call_ensures(dir_to_hit, (d,), hit),
        !d@[0].nan(),
        !d@[1].nan(),
        !d@[2].nan(),
    ensures
        ({
            let (x, y, z) = (d@[0].units(), d@[1].units(), d@[2].units());
            let (s, t, m) = (hit.sc.units(), hit.tc.units(), hit.ma.units());
            &&& hit.face < 6
            &&& -m <= x <= m && -m <= y <= m && -m <= z <= m
            &&& x == m || x == -m ==> hit.face == 0 || hit.face == 1
            &&& -m < x < m && (y == m || y == -m) ==> hit.face == 2 || hit.face == 3
            &&& hit.face == 0 ==> x == m && m > 0 && z == -s && y == -t
            &&& hit.face == 1 ==> x == -m && z == s && y == -t
            &&& hit.face == 2 ==> y == m && m > 0 && x == s && z == t
            &&& hit.face == 3 ==> y == -m && x == s && z == -t
            &&& hit.face == 4 ==> z == m && m > 0 && x == s && y == -t
            &&& hit.face == 5 ==> z == -m && x == -s && y == -t
            &&& !hit.sc.nan() && !hit.tc.nan() && !hit.ma.nan()
        }),
{
    lemma_sign(d@[0]);
    lemma_sign(d@[1]);
    lemma_sign(d@[2]);
    vstd::arithmetic::power2::lemma2_to64();
}

/// A hit is made of the components of its direction, bit by bit, with the signs
/// that the face asks for, and this goes for what is no number too. Such a
/// component is never the largest: without all three being numbers no direction hits
/// `+X` or `-X`, and without the last two none hits `+Y` or `-Y`.
pub proof fn law_hits_keep_the_components(
    d: [Float32; 3],
    hit: Hit,
    turned: (Float32, Float32, Float32),
    cleared: (Float32, Float32, Float32),
)
    requires
        call_ensures(dir_to_hit, (d,), hit),
        call_ensures(Float32::neg, (d@[0],), turned.0),
        call_ensures(Float32::neg, (d@[1],), turned.1),
        call_ensures(Float32::neg, (d@[2],), turned.2),
        call_ensures(Float32::abs, (d@[0],), cleared.0),
        call_ensures(Float32::abs, (d@[1],), cleared.1),
        call_ensures(Float32::abs, (d@[2],), cleared.2),
    ensures
        hit.face == 0 || hit.face == 1 ==> hit.tc == turned.1 && hit.ma == cleared.0 && hit.sc
            == if hit.face == 0 {
            turned.2
        } else {
            d@[2]
        },
        hit.face == 2 || hit.face == 3 ==> hit.sc == d@[0] && hit.ma == cleared.1 && hit.tc
            == if hit.face == 2 {
            d@[2]
        } else {
            turned.2
        },
        hit.face == 4 || hit.face == 5 ==> hit.tc == turned.1 && hit.ma == cleared.2 && hit.sc
            == if hit.face == 4 {
            d@[0]
        } else {
            turned.0
        },
        d@[0].nan() || d@[1].nan() || d@[2].nan() ==> hit.face >= 2,
        d@[1].nan() || d@[2].nan() ==> hit.face >= 4,
        d@[0].nan() && !d@[1].nan() && !d@[2].nan() ==> (hit.face < 4 <==> cleared.2.units()
            <= cleared.1.units()),
{
    lemma_sign(d@[0]);
    lemma_sign(d@[1]);
    lemma_sign(d@[2]);
}

/// A direction lands where it hits, at the projections of the column and the row
/// of the hit, in that order, onto the face across its largest component.
pub proof fn law_landings_are_projected_hits<P: Fn(Float32, Float32) -> Float32>(
    d: [Float32; 3],
    project: P,
    hit: Hit,
    at: (usize, Float32, Float32),
)
    requires
        call_ensures(dir_to_hit, (d,), hit),
        call_ensures(dir_to_face_uv::<P>, (d, &project), at),
    ensures
        at.0 == hit.face,
        call_ensures(project, (hit.sc, hit.ma), at.1),
        call_ensures(project, (hit.tc, hit.ma), at.2),
{
}

/// A subsample sees what the cube shows in the direction of its position: the
/// column of its pixel and its place in it give the longitude, the row and its
/// place in that the latitude.
pub proof fn law_subsamples_see_along_their_direction<
    C: Fn(u32) -> Float32,
    B: Fn(usize, u32, u32) -> Float32,
    G: Fn(Float32, Float32, Float32) -> Float32,
    H: Fn(Float32, Float32) -> Float32,
    S: Fn(Float32) -> (Float32, Float32),
    X: Fn(Float32, Float32) -> Float32,
    P: Fn(Float32, Float32) -> Float32,
    T: Fn(Float32, usize) -> Float32,
    F: Fn(Float32) -> Float32,
    L: Fn(Float32, Float32, Float32) -> Float32,
    W: Fn(Float32) -> [Float32; 4],
    M: Fn(Float32, Float32, Float32) -> Float32,
>(
    cube: CubeMap,
    x: usize,
    y: usize,
    sx: u32,
    sy: u32,
    samples: u32,
    camera: Camera,
    rays: Rays<C, B, G, H, S, X, P>,
    ops: Arithmetic<T, F, L, W, M>,
    u: Float32,
    v: Float32,
    dir: [Float32; 3],
    seen: [Float32; 3],
    color: [Float32; 3],
    c: int,
)
    requires
        rays.single(),
        ops.single(),
        call_ensures(rays.subsample, (x, sx, samples), u),
        call_ensures(rays.subsample, (y, sy, samples), v),
        call_ensures(
            equirect_to_dir::<G, H, S, X>,
            (
                u,
                v,
                camera.width,
                camera.height,
                camera.yaw,
                &rays.longitude,
                &rays.latitude,
                &rays.sin_cos,
                &rays.times,
            ),
            dir,
        ),
        call_ensures(
            CubeMap::look::<P, T, F, L, W, M>,
            (&cube, dir, camera.filter, &rays.project, &ops),
            seen,
        ),
        call_ensures(
            trace::<C, B, G, H, S, X, P, T, F, L, W, M>,
            (&cube, x, y, sx, sy, samples, camera, &rays, &ops),
            color,
        ),
        0 <= c < 3,
    ensures
        color@[c] == seen@[c],
{
    assert(rays.ray(u, v, camera.width, camera.height, camera.yaw, dir@));
    assert(traced(cube, x, y, sx, sy, samples, camera, rays, ops, seen@));
    law_trace_is_fixed(
        cube,
        cube,
        x,
        y,
        sx,
        sy,
        samples,
        camera,
        rays,
        ops,
        color@,
        seen@,
        c,
    );
}

/// Every number below a square is a row and a column of a grid.
proof fn lemma_place_in_grid(k: int, n: int)
    requires
        0 <= k < n * n,
        n >= 0,
    ensures
        0 <= k % n < n,
        0 <= k / n < n,
        k == (k / n) * n + k % n,
{
    assert(n > 0) by (nonlinear_arith)
        requires
            0 <= k < n * n,
            n >= 0,
    ;
    lemma_fundamental_div_mod(k, n);
    let (q, r) = (k / n, k % n);
    assert(0 <= q < n && k == q * n + r) by (nonlinear_arith)
        requires
            k == n * q + r,
            0 <= r < n,
            0 <= k < n * n,
    ;
}

/// What the subsamples of a pixel see is what tracing them gives.
proof fn lemma_subsamples_agree<
    C: Fn(u32) -> Float32 + Sync,
    B: Fn(usize, u32, u32) -> Float32 + Sync,
    G: Fn(Float32, Float32, Float32) -> Float32 + Sync,
    H: Fn(Float32, Float32) -> Float32 + Sync,
    S: Fn(Float32) -> (Float32, Float32) + Sync,
    X: Fn(Float32, Float32) -> Float32 + Sync,
    P: Fn(Float32, Float32) -> Float32 + Sync,
    T: Fn(Float32, usize) -> Float32 + Sync,
    F: Fn(Float32) -> Float32 + Sync,
    L: Fn(Float32, Float32, Float32) -> Float32 + Sync,
    W: Fn(Float32) -> [Float32; 4] + Sync,
    M: Fn(Float32, Float32, Float32) -> Float32 + Sync,
>(
    cube: CubeMap,
    x: usize,
    y: usize,
    samples: u32,
    camera: Camera,
    rays: Rays<C, B, G, H, S, X, P>,
    ops: Arithmetic<T, F, L, W, M>,
    own: Seq<[Float32; 3]>,
    colors: Seq<[Float32; 3]>,
    c: int,
)
    requires
        rays.single(),
        ops.single(),
        0 <= c < 3,
        own.len() == samples * samples,
        colors.len() == samples * samples,
        forall|k: int|
            #![trigger own[k]]
            0 <= k < own.len() ==> traced(
                cube,
                x,
                y,
                (k % (samples as int)) as u32,
                (k / (samples as int)) as u32,
                samples,
                camera,
                rays,
                ops,
                own[k]@,
            ),
        forall|sx: u32, sy: u32|
            sx < samples && sy < samples ==> call_ensures(
                trace::<C, B, G, H, S, X, P, T, F, L, W, M>,
                (&cube, x, y, sx, sy, samples, camera, &rays, &ops),
                #[trigger] colors[sy * samples + sx],
            ),
    ensures
        forall|k: int| 0 <= k < own.len() ==> #[trigger] own[k]@[c] == colors[k]@[c],
{
    let n = samples as int;
    assert forall|k: int| 0 <= k < own.len() implies #[trigger] own[k]@[c] == colors[k]@[c] by {
        lemma_place_in_grid(k, n);
        let (sx, sy) = ((k % n) as u32, (k / n) as u32);
        assert(sy * samples + sx == k);
        assert(call_ensures(
            trace::<C, B, G, H, S, X, P, T, F, L, W, M>,
            (&cube, x, y, sx, sy, samples, camera, &rays, &ops),
            colors[sy * samples + sx],
        ));
        law_trace_is_fixed(
            cube,
            cube,
            x,
            y,
            sx,
            sy,
            samples,
            camera,
            rays,
            ops,
            own[k]@,
            colors[k]@,
            c,
        );
    }
}

/// A pixel of the panorama is what its subsamples see, added up from zero on, row
/// by row and left to right, and scaled. It stands behind all pixels of the rows
/// above and those to its left, with three values for each.
pub proof fn law_pixels_add_up_their_subsamples<
    C: Fn(u32) -> Float32 + Sync,
    B: Fn(usize, u32, u32) -> Float32 + Sync,
    G: Fn(Float32, Float32, Float32) -> Float32 + Sync,
    H: Fn(Float32, Float32) -> Float32 + Sync,
    S: Fn(Float32) -> (Float32, Float32) + Sync,
    X: Fn(Float32, Float32) -> Float32 + Sync,
    P: Fn(Float32, Float32) -> Float32 + Sync,
    T: Fn(Float32, usize) -> Float32 + Sync,
    F: Fn(Float32) -> Float32 + Sync,
    L: Fn(Float32, Float32, Float32) -> Float32 + Sync,
    W: Fn(Float32) -> [Float32; 4] + Sync,
    M: Fn(Float32, Float32, Float32) -> Float32 + Sync,
    A: Fn(Float32, Float32) -> Float32 + Sync,
    N: Fn(Float32) -> Float32 + Sync,
>(
    cube: CubeMap,
    output: Output,
    samples: u32,
    yaw: Float32,
    filter: Filter,
    rays: Rays<C, B, G, H, S, X, P>,
    ops: Arithmetic<T, F, L, W, M>,
    plus: A,
    scale: N,
    data: Vec<Float32>,
    camera: Camera,
    x: usize,
    y: usize,
    colors: Seq<[Float32; 3]>,
    sums: Seq<Float32>,
    value: Float32,
    c: int,
)
    requires
        call_ensures(
            panorama::<C, B, G, H, S, X, P, T, F, L, W, M, A, N>,
            (&cube, output, samples, yaw, filter, &rays, &ops, &plus, &scale),
            data,
        ),
        rays.single(),
        ops.single(),
        function2(plus),
        function1(scale),
        call_ensures(rays.count, (output.width,), camera.width),
        call_ensures(rays.count, (output.height,), camera.height),
        camera.yaw == yaw,
        camera.filter == filter,
        x < output.width,
        y < output.height,
        0 <= c < 3,
        colors.len() == samples * samples,
        forall|sx: u32, sy: u32|
            sx < samples && sy < samples ==> call_ensures(
                trace::<C, B, G, H, S, X, P, T, F, L, W, M>,
                (&cube, x, y, sx, sy, samples, camera, &rays, &ops),
                #[trigger] colors[sy * samples + sx],
            ),
        sums.len() == colors.len() + 1,
        sums[0].bits == 0,
        forall|k: int|
            #![trigger sums[k + 1]]
            0 <= k < colors.len() ==> call_ensures(plus, (sums[k], colors[k]@[c]), sums[k + 1]),
        call_ensures(scale, (sums.last(),), value),
    ensures
        data@.len() == output.width * output.height * 3,
        data@[3 * (y * output.width + x) + c] == value,
{
    let own = lemma_pixel_is_exposed(
        cube,
        output,
        samples,
        yaw,
        filter,
        rays,
        ops,
        plus,
        scale,
        data,
        camera,
        x,
        y,
        c,
    );
    lemma_subsamples_agree(cube, x, y, samples, camera, rays, ops, own, colors, c);
    assert forall|k: int| #![trigger sums[k]] 1 <= k < sums.len() implies call_ensures(
        plus,
        (sums[k - 1], colors[k - 1]@[c]),
        sums[k],
    ) by {
        assert(sums[(k - 1) + 1] == sums[k]);
    }
    assert(added(plus, colors, c, sums));
    assert(exposed(plus, scale, colors, c, value));
    lemma_exposed_is_fixed(
        plus,
        scale,
        own,
        colors,
        c,
        data@[3 * (y * output.width + x) + c],
        value,
    );
}

/// Pixels whose subsamples see the same have the same value, wherever they stand
/// and whatever the dimensions of their panoramas, in whatever channel.
pub proof fn law_pixels_are_what_is_seen<
    C: Fn(u32) -> Float32 + Sync,
    B: Fn(usize, u32, u32) -> Float32 + Sync,
    G: Fn(Float32, Float32, Float32) -> Float32 + Sync,
    H: Fn(Float32, Float32) -> Float32 + Sync,
    S: Fn(Float32) -> (Float32, Float32) + Sync,
    X: Fn(Float32, Float32) -> Float32 + Sync,
    P: Fn(Float32, Float32) -> Float32 + Sync,
    T: Fn(Float32, usize) -> Float32 + Sync,
    F: Fn(Float32) -> Float32 + Sync,
    L: Fn(Float32, Float32, Float32) -> Float32 + Sync,
    W: Fn(Float32) -> [Float32; 4] + Sync,
    M: Fn(Float32, Float32, Float32) -> Float32 + Sync,
    A: Fn(Float32, Float32) -> Float32 + Sync,
    N: Fn(Float32) -> Float32 + Sync,
>(
    cubes: (CubeMap, CubeMap),
    outputs: (Output, Output),
    samples: u32,
    yaws: (Float32, Float32),
    filters: (Filter, Filter),
    rays: Rays<C, B, G, H, S, X, P>,
    ops: Arithmetic<T, F, L, W, M>,
    plus: A,
    scale: N,
    data: Vec<Float32>,
    data2: Vec<Float32>,
    cameras: (Camera, Camera),
    at: (usize, usize),
    at2: (usize, usize),
    colors: Seq<[Float32; 3]>,
    colors2: Seq<[Float32; 3]>,
    c: int,
    d: int,
)
    requires
        call_ensures(
            panorama::<C, B, G, H, S, X, P, T, F, L, W, M, A, N>,
            (&cubes.0, outputs.0, samples, yaws.0, filters.0, &rays, &ops, &plus, &scale),
            data,
        ),
        call_ensures(
            panorama::<C, B, G, H, S, X, P, T, F, L, W, M, A, N>,
            (&cubes.1, outputs.1, samples, yaws.1, filters.1, &rays, &ops, &plus, &scale),
            data2,
        ),
        rays.single(),
        ops.single(),
        function2(plus),
        function1(scale),
        call_ensures(rays.count, (outputs.0.width,), cameras.0.width),
        call_ensures(rays.count, (outputs.0.height,), cameras.0.height),
        call_ensures(rays.count, (outputs.1.width,), cameras.1.width),
        call_ensures(rays.count, (outputs.1.height,), cameras.1.height),
        cameras.0.yaw == yaws.0 && cameras.1.yaw == yaws.1,
        cameras.0.filter == filters.0 && cameras.1.filter == filters.1,
        at.0 < outputs.0.width && at.1 < outputs.0.height,
        at2.0 < outputs.1.width && at2.1 < outputs.1.height,
        0 <= c < 3,
        0 <= d < 3,
        colors.len() == samples * samples,
        colors2.len() == samples * samples,
        forall|sx: u32, sy: u32|
            #![trigger colors[sy * samples + sx]]
            #![trigger colors2[sy * samples + sx]]
            sx < samples && sy < samples ==> {
                &&& call_ensures(
                    trace::<C, B, G, H, S, X, P, T, F, L, W, M>,
                    (&cubes.0, at.0, at.1, sx, sy, samples, cameras.0, &rays, &ops),
                    colors[sy * samples + sx],
                )
                &&& call_ensures(
                    trace::<C, B, G, H, S, X, P, T, F, L, W, M>,
                    (&cubes.1, at2.0, at2.1, sx, sy, samples, cameras.1, &rays, &ops),
                    colors2[sy * samples + sx],
                )
                &&& colors[sy * samples + sx]@[c] == colors2[sy * samples + sx]@[d]
            },
    ensures
        data@[3 * (at.1 * outputs.0.width + at.0) + c] == data2@[3 * (at2.1 * outputs.1.width
            + at2.0) + d],
{
    let (w, w2) = (outputs.0.width as int, outputs.1.width as int);
    let n = samples as int;
    let (i, i2) = (3 * (at.1 * w + at.0) + c, 3 * (at2.1 * w2 + at2.0) + d);
    let own = lemma_pixel_is_exposed(
        cubes.0,
        outputs.0,
        samples,
        yaws.0,
        filters.0,
        rays,
        ops,
        plus,
        scale,
        data,
        cameras.0,
        at.0,
        at.1,
        c,
    );
    let own2 = lemma_pixel_is_exposed(
        cubes.1,
        outputs.1,
        samples,
        yaws.1,
        filters.1,
        rays,
        ops,
        plus,
        scale,
        data2,
        cameras.1,
        at2.0,
        at2.1,
        d,
    );
    lemma_subsamples_agree(
        cubes.0,
        at.0,
        at.1,
        samples,
        cameras.0,
        rays,
        ops,
        own,
        colors,
        c,
    );
    lemma_subsamples_agree(
        cubes.1,
        at2.0,
        at2.1,
        samples,
        cameras.1,
        rays,
        ops,
        own2,
        colors2,
        d,
    );
    let picked = Seq::new(own.len(), |k: int| own[k]@[c]);
    let picked2 = Seq::new(own2.len(), |k: int| own2[k]@[d]);
    assert forall|k: int| 0 <= k < picked.len() implies #[trigger] picked[k] == picked2[k] by {
        lemma_place_in_grid(k, n);
        let (sx, sy) = ((k % n) as u32, (k / n) as u32);
        assert(sy * samples + sx == k);
        assert(colors[sy * samples + sx]@[c] == colors2[sy * samples + sx]@[d]);
        assert(own[k]@[c] == colors[k]@[c]);
        assert(own2[k]@[d] == colors2[k]@[d]);
    }
    assert(picked =~= picked2);
    lemma_same_sums(plus, scale, own, own2, c, d, data@[i], data2@[i2]);
}

/// What a pixel of a panorama is made of.
proof fn lemma_pixel_is_exposed<
    C: Fn(u32) -> Float32 + Sync,
    B: Fn(usize, u32, u32) -> Float32 + Sync,
    G: Fn(Float32, Float32, Float32) -> Float32 + Sync,
    H: Fn(Float32, Float32) -> Float32 + Sync,
    S: Fn(Float32) -> (Float32, Float32) + Sync,
    X: Fn(Float32, Float32) -> Float32 + Sync,
    P: Fn(Float32, Float32) -> Float32 + Sync,
    T: Fn(Float32, usize) -> Float32 + Sync,
    F: Fn(Float32) -> Float32 + Sync,
    L: Fn(Float32, Float32, Float32) -> Float32 + Sync,
    W: Fn(Float32) -> [Float32; 4] + Sync,
    M: Fn(Float32, Float32, Float32) -> Float32 + Sync,
    A: Fn(Float32, Float32) -> Float32 + Sync,
    N: Fn(Float32) -> Float32 + Sync,
>(
    cube: CubeMap,
    output: Output,
    samples: u32,
    yaw: Float32,
    filter: Filter,
    rays: Rays<C, B, G, H, S, X, P>,
    ops: Arithmetic<T, F, L, W, M>,
    plus: A,
    scale: N,
    data: Vec<Float32>,
    camera: Camera,
    x: usize,
    y: usize,
    c: int,
) -> (colors: Seq<[Float32; 3]>)
    requires
        call_ensures(
            panorama::<C, B, G, H, S, X, P, T, F, L, W, M, A, N>,
            (&cube, output, samples, yaw, filter, &rays, &ops, &plus, &scale),
            data,
        ),
        rays.single(),
        call_ensures(rays.count, (output.width,), camera.width),
        call_ensures(rays.count, (output.height,), camera.height),
        camera.yaw == yaw,
        camera.filter == filter,
        x < output.width,
        y < output.height,
        0 <= c < 3,
    ensures
        colors.len() == samples * samples,
        forall|k: int|
            #![trigger colors[k]]
            0 <= k < colors.len() ==> traced(
                cube,
                x,
                y,
                (k % (samples as int)) as u32,
                (k / (samples as int)) as u32,
                samples,
                camera,
                rays,
                ops,
                colors[k]@,
            ),
        exposed(plus, scale, colors, c, data@[3 * (y * output.width + x) + c]),
{
    let stride = 3 * output.width as int;
    assert(y * stride + 3 * x == 3 * (y * output.width + x)) by (nonlinear_arith)
        requires
            stride == 3 * output.width,
    ;
    let o = y * stride + 3 * x;
    assert(traced_at(cube, x, y, samples, camera, rays, ops, plus, scale, stride, data@));
    assert(traced_pixel(
        cube,
        x,
        y,
        samples,
        camera,
        rays,
        ops,
        plus,
        scale,
        data@[o],
        data@[o + 1],
        data@[o + 2],
    ));
    let colors = choose|colors: Seq<[Float32; 3]>|
        #![trigger exposed(plus, scale, colors, 0, data@[o])]
        {
            &&& colors.len() == samples * samples
            &&& forall|k: int|
                #![trigger colors[k]]
                0 <= k < colors.len() ==> traced(
                    cube,
                    x,
                    y,
                    (k % (samples as int)) as u32,
                    (k / (samples as int)) as u32,
                    samples,
                    camera,
                    rays,
                    ops,
                    colors[k]@,
                )
            &&& exposed(plus, scale, colors, 0, data@[o])
            &&& exposed(plus, scale, colors, 1, data@[o + 1])
            &&& exposed(plus, scale, colors, 2, data@[o + 2])
        };
    assert(exposed(plus, scale, colors, c, data@[o + c]));
    colors
}

/// Colors that are the same, one by one, in a channel each add up to the same.
proof fn lemma_same_sums<A: Fn(Float32, Float32) -> Float32, N: Fn(Float32) -> Float32>(
    plus: A,
    scale: N,
    colors: Seq<[Float32; 3]>,
    colors2: Seq<[Float32; 3]>,
    c: int,
    d: int,
    r: Float32,
    r2: Float32,
)
    requires
        function2(plus),
        function1(scale),
        colors.len() == colors2.len(),
        Seq::new(colors.len(), |k: int| colors[k]@[c]) == Seq::new(
            colors2.len(),
            |k: int| colors2[k]@[d],
        ),
        exposed(plus, scale, colors, c, r),
        exposed(plus, scale, colors2, d, r2),
    ensures
        r == r2,
{
    let sums = choose|sums: Seq<Float32>|
        #![trigger added(plus, colors, c, sums)]
        added(plus, colors, c, sums) && call_ensures(scale, (sums.last(),), r);
    let sums2 = choose|sums: Seq<Float32>|
        #![trigger added(plus, colors2, d, sums)]
        added(plus, colors2, d, sums) && call_ensures(scale, (sums.last(),), r2);
    lemma_same_sums_up_to(plus, colors, colors2, c, d, sums, sums2, colors.len() as int);
}

proof fn lemma_same_sums_up_to<A: Fn(Float32, Float32) -> Float32>(
    plus: A,
    colors: Seq<[Float32; 3]>,
    colors2: Seq<[Float32; 3]>,
    c: int,
    d: int,
    sums: Seq<Float32>,
    sums2: Seq<Float32>,
    n: int,
)
    requires
        function2(plus),
        colors.len() == colors2.len(),
        Seq::new(colors.len(), |k: int| colors[k]@[c]) == Seq::new(
            colors2.len(),
            |k: int| colors2[k]@[d],
        ),
        added(plus, colors, c, sums),
        added(plus, colors2, d, sums2),
        0 <= n <= colors.len(),
    ensures
        sums[n] == sums2[n],
    decreases n,
{
    if n > 0 {
        lemma_same_sums_up_to(plus, colors, colors2, c, d, sums, sums2, n - 1);
        let picked = Seq::new(colors.len(), |k: int| colors[k]@[c]);
        let picked2 = Seq::new(colors2.len(), |k: int| colors2[k]@[d]);
        assert(picked[n - 1] == picked2[n - 1]);
    }
}

} // verus!
