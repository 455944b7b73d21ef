use cube2hdr::cubemap::{Arithmetic, CubeMap, Filter, SizeMismatch};
use cube2hdr::face::Face;
use cube2hdr::float32::Float32;

fn bits(v: f32) -> Float32 {
    Float32::from_bits(v.to_bits())
}

fn native(v: Float32) -> f32 {
    f32::from_bits(v.to_bits())
}

fn place(u: Float32, size: usize) -> Float32 {
    bits(native(u) * size as f32 - 0.5)
}

fn frac(x: Float32) -> Float32 {
    let x = native(x);
    bits(x - x.floor())
}

fn lerp(a: Float32, b: Float32, t: Float32) -> Float32 {
    let (a, b, t) = (native(a), native(b), native(t));
    bits(a + (b - a) * t)
}

fn madd(a: Float32, v: Float32, w: Float32) -> Float32 {
    bits(native(a) + native(v) * native(w))
}

fn kernel(t: f32) -> [f32; 4] {
    let t2 = t * t;
    let t3 = t2 * t;
    [
        0.5 * (-t3 + 2.0 * t2 - t),
        0.5 * (3.0 * t3 - 5.0 * t2 + 2.0),
        0.5 * (-3.0 * t3 + 4.0 * t2 + t),
        0.5 * (t3 - t2),
    ]
}

fn weights(t: Float32) -> [Float32; 4] {
    kernel(native(t)).map(bits)
}

fn project(coordinate: Float32, axis: Float32) -> Float32 {
    bits(native(coordinate) * (0.5 / native(axis)) + 0.5)
}

fn value(face: usize, x: usize, y: usize, c: usize) -> f32 {
    ((face * 7 + x * 13 + y * 29 + c * 5) % 17) as f32 * 0.125
}

fn face(number: usize, size: usize) -> Face {
    let mut data = Vec::new();
    for y in 0..size {
        for x in 0..size {
            for c in 0..3 {
                data.push(bits(value(number, x, y, c)));
            }
        }
    }
    Face { data, size }
}

fn cube(size: usize) -> CubeMap {
    CubeMap::load((0..6).map(|f| face(f, size)).collect()).ok().unwrap()
}

/// A clamped texel, straight from the values that the faces are made of.
fn clamped(size: usize, f: usize, x: i32, y: i32, c: usize) -> f32 {
    let last = size as i32 - 1;
    value(f, x.clamp(0, last) as usize, y.clamp(0, last) as usize, c)
}

fn sample(size: usize, f: usize, u: f32, v: f32, filter: Filter) -> [f32; 3] {
    let ops = Arithmetic { place, frac, lerp, weights, madd };
    cube(size).sample(f, bits(u), bits(v), filter, &ops).map(native)
}

#[test]
fn six_faces_of_one_size_load() {
    let c = cube(3);
    assert_eq!(c.size(), 3);
    for f in 0..6 {
        for y in 0..3 {
            for x in 0..3 {
                let t = c.texel(f, x, y).map(native);
                for k in 0..3 {
                    assert_eq!(t[k], value(f, x as usize, y as usize, k));
                }
            }
        }
    }
}

#[test]
fn first_face_of_another_size_is_named() {
    let sizes = [4, 4, 2, 4, 3, 4];
    let faces = (0..6).map(|f| face(f, sizes[f])).collect();
    let e = CubeMap::load(faces).err().unwrap();
    assert_eq!(e, SizeMismatch { face: 2, size: 2, expected: 4 });
    assert_eq!(
        e.message("top.png", "right.png"),
        "face size mismatch: top.png is 2x2, but right.png is 4x4"
    );
}

#[test]
fn border_repeats() {
    let c = cube(4);
    for f in 0..6 {
        assert_eq!(c.texel(f, -5, 2), c.texel(f, 0, 2));
        assert_eq!(c.texel(f, 9, 2), c.texel(f, 3, 2));
        assert_eq!(c.texel(f, 1, -1), c.texel(f, 1, 0));
        assert_eq!(c.texel(f, 1, i64::MAX), c.texel(f, 1, 3));
        assert_eq!(c.texel(f, i64::MIN, i64::MIN), c.texel(f, 0, 0));
    }
}

#[test]
fn bilinear_is_the_native_formula() {
    let size = 5;
    for f in 0..6 {
        for i in 0..=20 {
            let (u, v) = (i as f32 * 0.05, 1.0 - i as f32 * 0.043);
            let (x, y) = (u * size as f32 - 0.5, v * size as f32 - 0.5);
            let (fx, fy) = (x - x.floor(), y - y.floor());
            let (x0, y0) = (x.floor() as i32, y.floor() as i32);
            let got = sample(size, f, u, v, Filter::Bilinear);
            for c in 0..3 {
                let c00 = clamped(size, f, x0, y0, c);
                let c10 = clamped(size, f, x0 + 1, y0, c);
                let c01 = clamped(size, f, x0, y0 + 1, c);
                let c11 = clamped(size, f, x0 + 1, y0 + 1, c);
                let top = c00 + (c10 - c00) * fx;
                let bot = c01 + (c11 - c01) * fx;
                assert_eq!(got[c], top + (bot - top) * fy);
            }
        }
    }
}

#[test]
fn bicubic_is_the_native_formula() {
    let size = 6;
    for f in 0..6 {
        for n in 0..=20 {
            let (u, v) = (n as f32 * 0.05, 1.0 - n as f32 * 0.043);
            let (x, y) = (u * size as f32 - 0.5, v * size as f32 - 0.5);
            let wx = kernel(x - x.floor());
            let wy = kernel(y - y.floor());
            let (x0, y0) = (x.floor() as i32, y.floor() as i32);
            let got = sample(size, f, u, v, Filter::Bicubic);
            for c in 0..3 {
                let mut out = 0.0f32;
                for j in 0..4 {
                    let mut row = 0.0f32;
                    for i in 0..4 {
                        row += clamped(size, f, x0 - 1 + i as i32, y0 - 1 + j as i32, c) * wx[i];
                    }
                    out += row * wy[j];
                }
                assert_eq!(got[c], out.max(0.0));
            }
        }
    }
}

#[test]
fn texel_centres_are_exact() {
    let size = 4;
    for filter in [Filter::Bilinear, Filter::Bicubic] {
        for y in 0..size {
            for x in 0..size {
                let (u, v) = ((x as f32 + 0.5) / 4.0, (y as f32 + 0.5) / 4.0);
                let got = sample(size, 3, u, v, filter);
                for c in 0..3 {
                    assert_eq!(got[c], value(3, x, y, c));
                }
            }
        }
    }
}

#[test]
fn bicubic_light_is_never_negative() {
    // One bright texel among dark ones makes the kernel undershoot around it.
    let faces = (0..6)
        .map(|_| {
            let mut data = vec![bits(0.0); 8 * 8 * 3];
            for c in 0..3 {
                data[(4 * 8 + 4) * 3 + c] = bits(100.0);
            }
            Face { data, size: 8 }
        })
        .collect();
    let cube = CubeMap::load(faces).ok().unwrap();
    let ops = Arithmetic { place, frac, lerp, weights, madd };
    let mut bright = false;
    for i in 0..80 {
        let u = bits(i as f32 / 80.0);
        for v in [0.5f32, 0.5625, 0.6, 0.7] {
            let c = cube.sample(0, u, bits(v), Filter::Bicubic, &ops).map(native);
            assert!(c[0] >= 0.0 && c[1] >= 0.0 && c[2] >= 0.0);
            bright = bright || c[0] > 50.0;
        }
    }
    assert!(bright);
}

#[test]
fn coordinates_far_outside_are_clamped() {
    let corner = value(1, 3, 0, 2);
    assert_eq!(sample(4, 1, 1e30, -1e30, Filter::Bilinear)[2], corner);
    let c = cube(4);
    assert_eq!(native(c.texel(1, 3, 0)[2]), corner);
}

#[test]
fn looking_samples_the_face_that_is_hit() {
    let c = cube(2);
    let ops = Arithmetic { place, frac, lerp, weights, madd };
    let look = |d: [f32; 3]| c.look(d.map(bits), Filter::Bilinear, &project, &ops).map(native);
    // Halfway to the border lies the centre of a texel.
    for k in 0..3 {
        assert_eq!(look([1.0, 0.5, 0.5])[k], value(0, 0, 0, k));
        assert_eq!(look([-1.0, 0.5, 0.5])[k], value(1, 1, 0, k));
        assert_eq!(look([0.5, 1.0, 0.5])[k], value(2, 1, 1, k));
        assert_eq!(look([0.5, -1.0, 0.5])[k], value(3, 1, 0, k));
        assert_eq!(look([0.5, -0.5, 1.0])[k], value(4, 1, 1, k));
        assert_eq!(look([0.5, 0.5, -1.0])[k], value(5, 0, 0, k));
    }
}

#[test]
fn filters_have_names() {
    assert_eq!(Filter::Bilinear.name(), "bilinear");
    assert_eq!(Filter::Bicubic.name(), "bicubic");
}

#[test]
fn one_color_stays_one_color() {
    let faces = (0..6)
        .map(|_| Face { data: vec![bits(0.7); 5 * 5 * 3], size: 5 })
        .collect();
    let cube = CubeMap::load(faces).ok().unwrap();
    let ops = Arithmetic { place, frac, lerp, weights, madd };
    for i in 0..=40 {
        for j in 0..=40 {
            let (u, v) = (bits(i as f32 / 40.0), bits(j as f32 / 40.0));
            assert_eq!(cube.sample(2, u, v, Filter::Bilinear, &ops), [bits(0.7); 3]);
        }
    }
}

#[test]
fn bilinear_clamps_beyond_the_border() {
    let c = cube(4);
    for y in [0.25f32, 1.5, 2.75] {
        let at = |x: f32| c.bilinear(3, bits(x), bits(y), &frac, &lerp);
        assert_eq!(at(-0.5), at(0.0));
        assert_eq!(at(-7.25), at(0.0));
        assert_eq!(at(3.5), at(3.0));
        assert_eq!(at(11.75), at(3.0));
        assert_ne!(at(0.0), at(3.0));
    }
    for x in [0.25f32, 1.5, 2.75] {
        let at = |y: f32| c.bilinear(3, bits(x), bits(y), &frac, &lerp);
        assert_eq!(at(-2.5), at(0.0));
        assert_eq!(at(5.125), at(3.0));
    }
}

#[test]
fn corners_are_the_corner_texels() {
    for size in [1, 2, 5] {
        for c in 0..3 {
            let last = size - 1;
            assert_eq!(sample(size, 4, 0.0, 0.0, Filter::Bilinear)[c], value(4, 0, 0, c));
            assert_eq!(sample(size, 4, 1.0, 1.0, Filter::Bilinear)[c], value(4, last, last, c));
            assert_eq!(sample(size, 4, 1.0, 0.0, Filter::Bilinear)[c], value(4, last, 0, c));
            assert_eq!(sample(size, 4, 0.0, 1.0, Filter::Bilinear)[c], value(4, 0, last, c));
        }
    }
}

#[test]
fn samples_read_one_face_only() {
    let a = cube(3);
    // The same second face, and other faces all around it.
    let faces = (0..6).map(|f| face(if f == 1 { 1 } else { f + 20 }, 3)).collect();
    let b = CubeMap::load(faces).ok().unwrap();
    let ops = Arithmetic { place, frac, lerp, weights, madd };
    for filter in [Filter::Bilinear, Filter::Bicubic] {
        for i in 0..=10 {
            for j in 0..=10 {
                let (u, v) = (bits(i as f32 / 10.0), bits(j as f32 / 10.0));
                assert_eq!(a.sample(1, u, v, filter, &ops), b.sample(1, u, v, filter, &ops));
            }
        }
    }
    let centre = bits(0.5);
    assert_ne!(
        a.sample(0, centre, centre, Filter::Bilinear, &ops),
        b.sample(0, centre, centre, Filter::Bilinear, &ops)
    );
}
