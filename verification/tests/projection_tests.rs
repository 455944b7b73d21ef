use std::f32::consts::{FRAC_PI_2, PI, TAU};

use cube2hdr::float32::Float32;
use cube2hdr::projection::{dir_to_face_uv, dir_to_hit, equirect_to_dir, FACE_NAMES};

fn bits(v: f32) -> Float32 {
    Float32::from_bits(v.to_bits())
}

fn native(v: Float32) -> f32 {
    f32::from_bits(v.to_bits())
}

fn project(coordinate: Float32, axis: Float32) -> Float32 {
    bits(native(coordinate) * (0.5 / native(axis)) + 0.5)
}

fn face_uv(d: [f32; 3]) -> (usize, f32, f32) {
    let (face, u, v) = dir_to_face_uv([bits(d[0]), bits(d[1]), bits(d[2])], &project);
    (face, native(u), native(v))
}

fn close(a: f32, b: f32) -> bool {
    (a - b).abs() < 1e-4
}

fn longitude(u: Float32, width: Float32, yaw: Float32) -> Float32 {
    bits((native(u) / native(width)) * TAU - PI + native(yaw))
}

fn latitude(v: Float32, height: Float32) -> Float32 {
    bits(FRAC_PI_2 - (native(v) / native(height)) * PI)
}

fn sin_cos(angle: Float32) -> (Float32, Float32) {
    let (s, c) = native(angle).sin_cos();
    (bits(s), bits(c))
}

fn times(a: Float32, b: Float32) -> Float32 {
    bits(native(a) * native(b))
}

fn direction(u: f32, v: f32, width: f32, height: f32, yaw: f32) -> [f32; 3] {
    let (u, v, width, height, yaw) = (bits(u), bits(v), bits(width), bits(height), bits(yaw));
    equirect_to_dir(u, v, width, height, yaw, &longitude, &latitude, &sin_cos, &times).map(native)
}

#[test]
fn face_centres_map_to_uv_centre() {
    let cases = [
        ([1.0, 0.0, 0.0], 0usize),
        ([-1.0, 0.0, 0.0], 1),
        ([0.0, 1.0, 0.0], 2),
        ([0.0, -1.0, 0.0], 3),
        ([0.0, 0.0, 1.0], 4),
        ([0.0, 0.0, -1.0], 5),
    ];
    for (dir, expected) in cases {
        let (face, u, v) = face_uv(dir);
        assert_eq!(face, expected, "wrong face for {dir:?}");
        assert!(close(u, 0.5) && close(v, 0.5), "uv not centred: {u} {v}");
    }
}

#[test]
fn panorama_centre_looks_forward() {
    // Centre pixel of a 4x2 image -> theta = 0 -> -Z.
    let d = direction(2.0, 1.0, 4.0, 2.0, 0.0);
    assert!(close(d[0], 0.0) && close(d[1], 0.0) && close(d[2], -1.0), "{d:?}");
    assert_eq!(face_uv(d).0, 5);
}

#[test]
fn top_row_looks_up() {
    let d = direction(2.0, 0.0, 4.0, 2.0, 0.0);
    assert!(close(d[1], 1.0), "{d:?}");
    assert_eq!(face_uv(d).0, 2);
}

#[test]
fn directions_are_unit_length() {
    for y in 0..17 {
        for x in 0..33 {
            let d = direction(x as f32 + 0.5, y as f32 + 0.5, 33.0, 17.0, 0.3);
            let len = (d[0] * d[0] + d[1] * d[1] + d[2] * d[2]).sqrt();
            assert!(close(len, 1.0), "len {len}");
        }
    }
}

#[test]
fn directions_are_made_of_sines_and_cosines() {
    let d = direction(5.5, 3.25, 16.0, 8.0, 0.7);
    let theta = (5.5f32 / 16.0) * TAU - PI + 0.7;
    let phi = FRAC_PI_2 - (3.25f32 / 8.0) * PI;
    assert_eq!(d, [phi.cos() * theta.sin(), phi.sin(), -phi.cos() * theta.cos()]);
    // A quarter turn to the right of the centre is +X.
    assert_eq!(face_uv(direction(3.0, 1.0, 4.0, 2.0, 0.0)).0, 0);
    assert_eq!(face_uv(direction(1.0, 1.0, 4.0, 2.0, 0.0)).0, 1);
    assert_eq!(face_uv(direction(2.0, 1.0, 4.0, 2.0, PI)).0, 4);
    assert_eq!(face_uv(direction(2.0, 2.0, 4.0, 2.0, 0.0)).0, 3);
}

#[test]
fn uv_runs_left_to_right_and_top_to_bottom() {
    assert_eq!(face_uv([1.0, 0.5, 0.25]), (0, 0.375, 0.25));
    assert_eq!(face_uv([-1.0, 0.5, 0.25]), (1, 0.625, 0.25));
    assert_eq!(face_uv([0.5, 1.0, 0.25]), (2, 0.75, 0.625));
    assert_eq!(face_uv([0.5, -1.0, 0.25]), (3, 0.75, 0.375));
    assert_eq!(face_uv([0.5, 0.25, 1.0]), (4, 0.75, 0.375));
    assert_eq!(face_uv([0.5, 0.25, -1.0]), (5, 0.25, 0.375));
}

#[test]
fn ties_go_to_x_then_y() {
    assert_eq!(face_uv([1.0, 1.0, 1.0]).0, 0);
    assert_eq!(face_uv([-1.0, 1.0, 1.0]).0, 1);
    assert_eq!(face_uv([0.5, 1.0, 1.0]).0, 2);
    assert_eq!(face_uv([0.5, -1.0, -1.0]).0, 3);
}

#[test]
fn zero_and_nan_directions_have_a_face() {
    let z = bits(0.0);
    let nan = bits(f32::NAN);
    let one = bits(1.0);
    assert_eq!(dir_to_hit([z, z, z]).face, 1);
    assert_eq!(dir_to_hit([nan, one, one]).face, 2);
    assert_eq!(dir_to_hit([nan, nan, one]).face, 4);
    assert_eq!(dir_to_hit([nan, nan, nan]).face, 5);
}

#[test]
fn every_pixel_lands_inside_a_face() {
    for y in 0..64 {
        for x in 0..128 {
            let d = direction(x as f32 + 0.5, y as f32 + 0.5, 128.0, 64.0, 0.3);
            let (face, u, v) = face_uv(d);
            assert!(face < 6);
            assert!((0.0..=1.0).contains(&u) && (0.0..=1.0).contains(&v), "{d:?}");
        }
    }
}

#[test]
fn hit_gives_the_direction_back() {
    for y in 0..16 {
        for x in 0..32 {
            let d = direction(x as f32 + 0.5, y as f32 + 0.5, 32.0, 16.0, 1.1);
            let h = dir_to_hit([bits(d[0]), bits(d[1]), bits(d[2])]);
            let (s, t, m) = (native(h.sc), native(h.tc), native(h.ma));
            let back = match h.face {
                0 => [m, -t, -s],
                1 => [-m, -t, s],
                2 => [s, m, t],
                3 => [s, -m, -t],
                4 => [s, -t, m],
                _ => [-s, -t, -m],
            };
            assert_eq!(back, d);
        }
    }
}

#[test]
fn faces_are_named_in_order() {
    assert_eq!(FACE_NAMES.join(" "), "+X -X +Y -Y +Z -Z");
}

#[test]
fn opposite_directions_hit_opposite_faces() {
    for d in [[1.0f32, 0.5, 0.25], [0.5, 1.0, 0.25], [0.5, 0.25, 1.0], [0.5, -0.25, -1.0]] {
        let (face, u, v) = face_uv(d);
        let (back, s, t) = face_uv(d.map(|c| -c));
        assert_eq!(back, face ^ 1);
        // The upper and lower faces are mirrored left to right, the others top to
        // bottom.
        if face == 2 || face == 3 {
            assert_eq!((s, t), (1.0 - u, v));
        } else {
            assert_eq!((s, t), (u, 1.0 - v));
        }
    }
}

#[test]
fn landing_gives_the_direction_back() {
    for y in 0..16 {
        for x in 0..32 {
            let d = direction(x as f32 + 0.5, y as f32 + 0.5, 32.0, 16.0, 0.9);
            let m = d[0].abs().max(d[1].abs()).max(d[2].abs());
            let (face, u, v) = face_uv(d);
            let (s, t) = ((2.0 * u - 1.0) * m, (2.0 * v - 1.0) * m);
            let back = match face {
                0 => [m, -t, -s],
                1 => [-m, -t, s],
                2 => [s, m, t],
                3 => [s, -m, -t],
                4 => [s, -t, m],
                _ => [-s, -t, -m],
            };
            for k in 0..3 {
                assert!((back[k] - d[k]).abs() < 1e-5, "{d:?} {back:?}");
            }
        }
    }
}

#[test]
fn height_is_of_the_row() {
    for v in [0.5f32, 3.25, 6.0, 7.75] {
        let y = direction(0.0, v, 16.0, 8.0, 0.0)[1];
        for u in [0.25f32, 5.5, 11.0, 15.75] {
            assert_eq!(direction(u, v, 16.0, 8.0, 0.0)[1], y);
            assert_eq!(direction(u, v, 40.0, 8.0, 2.0)[1], y);
        }
    }
}
