use std::f32::consts::{FRAC_PI_2, PI, TAU};

use cube2hdr::cubemap::{Arithmetic, CubeMap, Filter};
use cube2hdr::face::Face;
use cube2hdr::float32::Float32;
use cube2hdr::hdr::write_hdr;
use cube2hdr::panorama::{panorama, trace, Camera, Rays};
use cube2hdr::render::output_size;

fn bits(v: f32) -> Float32 {
    Float32::from_bits(v.to_bits())
}

fn native(v: Float32) -> f32 {
    f32::from_bits(v.to_bits())
}

fn count(n: u32) -> Float32 {
    bits(n as f32)
}

fn subsample(p: usize, s: u32, n: u32) -> Float32 {
    bits(p as f32 + (s as f32 + 0.5) / n as f32)
}

fn longitude(u: Float32, width: Float32, yaw: Float32) -> Float32 {
    bits((native(u) / native(width)) * TAU - PI + native(yaw))
}

fn latitude(v: Float32, height: Float32) -> Float32 {
    bits(FRAC_PI_2 - (native(v) / native(height)) * PI)
}

fn sin_cos(angle: Float32) -> (Float32, Float32) {
    let (s, c) = native(angle).sin_cos();
    (bits(s), bits(c))
}

fn times(a: Float32, b: Float32) -> Float32 {
    bits(native(a) * native(b))
}

fn project(coordinate: Float32, axis: Float32) -> Float32 {
    bits(native(coordinate) * (0.5 / native(axis)) + 0.5)
}

fn place(u: Float32, size: usize) -> Float32 {
    bits(native(u) * size as f32 - 0.5)
}

fn frac(x: Float32) -> Float32 {
    let x = native(x);
    bits(x - x.floor())
}

fn lerp(a: Float32, b: Float32, t: Float32) -> Float32 {
    let (a, b, t) = (native(a), native(b), native(t));
    bits(a + (b - a) * t)
}

fn madd(a: Float32, v: Float32, w: Float32) -> Float32 {
    bits(native(a) + native(v) * native(w))
}

fn weights(t: Float32) -> [Float32; 4] {
    let t = native(t);
    let t2 = t * t;
    let t3 = t2 * t;
    [
        bits(0.5 * (-t3 + 2.0 * t2 - t)),
        bits(0.5 * (3.0 * t3 - 5.0 * t2 + 2.0)),
        bits(0.5 * (-3.0 * t3 + 4.0 * t2 + t)),
        bits(0.5 * (t3 - t2)),
    ]
}

fn plus(a: Float32, b: Float32) -> Float32 {
    bits(native(a) + native(b))
}

fn value(face: usize, x: usize, y: usize, c: usize) -> f32 {
    ((face * 41 + x * 13 + y * 29 + c * 5) % 97) as f32 * 0.125
}

fn cube_of(size: usize, value: fn(usize, usize, usize, usize) -> f32) -> CubeMap {
    let faces = (0..6)
        .map(|f| {
            let mut data = Vec::new();
            for y in 0..size {
                for x in 0..size {
                    for c in 0..3 {
                        data.push(bits(value(f, x, y, c)));
                    }
                }
            }
            Face { data, size }
        })
        .collect();
    CubeMap::load(faces).ok().unwrap()
}

/// What a position of the panorama shows, in native arithmetic from end to end.
fn expected(size: usize, u: f32, v: f32, width: f32, height: f32, yaw: f32) -> [f32; 3] {
    let theta = (u / width) * TAU - PI + yaw;
    let phi = FRAC_PI_2 - (v / height) * PI;
    let (x, y, z) = (phi.cos() * theta.sin(), phi.sin(), -(phi.cos() * theta.cos()));
    let (ax, ay, az) = (x.abs(), y.abs(), z.abs());
    let (face, sc, tc, ma) = if ax >= ay && ax >= az {
        if x > 0.0 { (0, -z, -y, ax) } else { (1, z, -y, ax) }
    } else if ay >= az {
        if y > 0.0 { (2, x, z, ay) } else { (3, x, -z, ay) }
    } else if z > 0.0 {
        (4, x, -y, az)
    } else {
        (5, -x, -y, az)
    };
    let inv = 0.5 / ma;
    let (s, t) = ((sc * inv + 0.5) * size as f32 - 0.5, (tc * inv + 0.5) * size as f32 - 0.5);
    let (fs, ft) = (s - s.floor(), t - t.floor());
    let last = size as i32 - 1;
    let texel = |i: i32, j: i32, c: usize| {
        value(face, i.clamp(0, last) as usize, j.clamp(0, last) as usize, c)
    };
    let (i, j) = (s.floor() as i32, t.floor() as i32);
    let mut out = [0.0f32; 3];
    for c in 0..3 {
        let (a, b) = (texel(i, j, c), texel(i + 1, j, c));
        let (d, e) = (texel(i, j + 1, c), texel(i + 1, j + 1, c));
        let top = a + (b - a) * fs;
        let bot = d + (e - d) * fs;
        out[c] = top + (bot - top) * ft;
    }
    out
}

#[test]
fn subsamples_are_traced_to_their_face() {
    let rays = Rays { count, subsample, longitude, latitude, sin_cos, times, project };
    let ops = Arithmetic { place, frac, lerp, weights, madd };
    let cube = cube_of(5, value);
    let camera = Camera {
        width: bits(12.0),
        height: bits(6.0),
        yaw: bits(0.4),
        filter: Filter::Bilinear,
    };
    for y in 0..6 {
        for x in 0..12 {
            for sy in 0..3 {
                for sx in 0..3 {
                    let got = trace(&cube, x, y, sx, sy, 3, camera, &rays, &ops).map(native);
                    let u = x as f32 + (sx as f32 + 0.5) / 3.0;
                    let v = y as f32 + (sy as f32 + 0.5) / 3.0;
                    assert_eq!(got, expected(5, u, v, 12.0, 6.0, 0.4));
                }
            }
        }
    }
}

#[test]
fn subsamples_see_one_of_the_faces() {
    // Every face has one color, so a subsample shows the number of its face.
    let cube = cube_of(3, |face, _, _, _| face as f32);
    let rays = Rays { count, subsample, longitude, latitude, sin_cos, times, project };
    let ops = Arithmetic { place, frac, lerp, weights, madd };
    for filter in [Filter::Bilinear, Filter::Bicubic] {
        let camera = Camera { width: bits(4.0), height: bits(2.0), yaw: bits(0.0), filter };
        let seen = |x: usize, y: usize, sx: u32, sy: u32| {
            native(trace(&cube, x, y, sx, sy, 2, camera, &rays, &ops)[0]).round()
        };
        // Bottom of the top row, left to right: behind, left, front, right, behind.
        let row = [seen(0, 0, 0, 1), seen(1, 0, 0, 1), seen(1, 0, 1, 1), seen(2, 0, 1, 1), seen(3, 0, 1, 1)];
        assert_eq!(row, [4.0, 1.0, 5.0, 0.0, 4.0]);
        assert_eq!(seen(1, 0, 1, 0), 2.0);
        assert_eq!(seen(1, 1, 1, 1), 3.0);
    }
}

#[test]
fn panoramas_add_up_and_scale_their_subsamples() {
    let rays = Rays { count, subsample, longitude, latitude, sin_cos, times, project };
    let ops = Arithmetic { place, frac, lerp, weights, madd };
    let cube = cube_of(4, value);
    let output = output_size(4, Some(10)).unwrap();
    let scale = |sum: Float32| bits(native(sum) * 0.375);
    let data = panorama(&cube, output, 2, bits(-1.25), Filter::Bilinear, &rays, &ops, &plus, &scale);
    assert_eq!(data.len(), 150);
    for y in 0..5 {
        for x in 0..10 {
            let mut acc = [0.0f32; 3];
            for sy in 0..2 {
                for sx in 0..2 {
                    let u = x as f32 + (sx as f32 + 0.5) / 2.0;
                    let v = y as f32 + (sy as f32 + 0.5) / 2.0;
                    let c = expected(4, u, v, 10.0, 5.0, -1.25);
                    for k in 0..3 {
                        acc[k] += c[k];
                    }
                }
            }
            let o = (y * 10 + x) * 3;
            let got = [native(data[o]), native(data[o + 1]), native(data[o + 2])];
            assert_eq!(got, acc.map(|v| v * 0.375));
        }
    }
}

#[test]
fn yaw_turns_the_panorama() {
    let rays = Rays { count, subsample, longitude, latitude, sin_cos, times, project };
    let ops = Arithmetic { place, frac, lerp, weights, madd };
    let cube = cube_of(2, |face, _, _, _| face as f32);
    let same = |v: Float32| v;
    let output = output_size(2, Some(8)).unwrap();
    let middle = |yaw: f32| {
        let data = panorama(&cube, output, 1, bits(yaw), Filter::Bilinear, &rays, &ops, &plus, &same);
        native(data[(2 * 8 + 4) * 3])
    };
    assert_eq!(middle(0.0), 5.0);
    assert_eq!(middle(FRAC_PI_2), 0.0);
    assert_eq!(middle(PI), 4.0);
    assert_eq!(middle(-FRAC_PI_2), 1.0);
}

#[test]
fn panoramas_do_not_depend_on_the_thread_count() {
    let rays = Rays { count, subsample, longitude, latitude, sin_cos, times, project };
    let ops = Arithmetic { place, frac, lerp, weights, madd };
    let scale = |sum: Float32| bits(native(sum) * 0.25);
    let output = output_size(4, Some(64)).unwrap();
    let file = |threads: usize, filter: Filter| {
        let pool = rayon::ThreadPoolBuilder::new().num_threads(threads).build().unwrap();
        let cube = cube_of(4, value);
        pool.install(|| {
            let data = panorama(&cube, output, 2, bits(0.7), filter, &rays, &ops, &plus, &scale);
            write_hdr(64, 32, &data, true)
        })
    };
    for filter in [Filter::Bilinear, Filter::Bicubic] {
        let first = file(1, filter);
        for threads in [2, 3, 8] {
            assert_eq!(file(threads, filter), first);
        }
    }
    assert_ne!(file(1, Filter::Bilinear), file(1, Filter::Bicubic));
}
