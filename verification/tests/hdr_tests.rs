use cube2hdr::float32::Float32;
use cube2hdr::hdr::{encode_scanline, write_hdr};
use cube2hdr::rgbe::float_to_rgbe;
use cube2hdr::text::push_decimal;

fn bits(v: f32) -> Float32 {
    Float32::from_bits(v.to_bits())
}

fn picture(width: usize, height: usize) -> Vec<Float32> {
    (0..width * height * 3).map(|i| bits((i * 37 % 101) as f32 * 0.05)).collect()
}

fn pixels(data: &[Float32]) -> Vec<[u8; 4]> {
    data.chunks_exact(3).map(|p| float_to_rgbe(p[0], p[1], p[2])).collect()
}

/// Split a file into its header and its scanlines.
fn split(file: &[u8]) -> (String, Vec<u8>) {
    let blank = file.windows(2).position(|w| w == b"\n\n").unwrap() + 2;
    let end = blank + file[blank..].iter().position(|&b| b == b'\n').unwrap() + 1;
    (String::from_utf8(file[..end].to_vec()).unwrap(), file[end..].to_vec())
}

fn read_rle(body: &[u8], width: usize, height: usize) -> Vec<[u8; 4]> {
    let mut out = Vec::new();
    let mut i = 0;
    for _ in 0..height {
        assert_eq!(&body[i..i + 4], &[2, 2, (width / 256) as u8, (width % 256) as u8]);
        i += 4;
        let mut planes = Vec::new();
        for _ in 0..4 {
            let mut plane = Vec::new();
            while plane.len() < width {
                let c = body[i] as usize;
                i += 1;
                if c > 128 {
                    plane.extend(std::iter::repeat(body[i]).take(c - 128));
                    i += 1;
                } else {
                    plane.extend_from_slice(&body[i..i + c]);
                    i += c;
                }
            }
            assert_eq!(plane.len(), width);
            planes.push(plane);
        }
        for x in 0..width {
            out.push([planes[0][x], planes[1][x], planes[2][x], planes[3][x]]);
        }
    }
    assert_eq!(i, body.len());
    out
}

#[test]
fn header_names_height_then_width() {
    let file = write_hdr(2, 1, &picture(2, 1), true);
    let (header, body) = split(&file);
    assert_eq!(
        header,
        "#?RADIANCE\n# Created by cube2hdr\nFORMAT=32-bit_rle_rgbe\nEXPOSURE=1.0\n\n-Y 1 +X 2\n"
    );
    assert_eq!(body.len(), 8);
    let (header, _) = split(&write_hdr(120, 60, &picture(120, 60), true));
    assert!(header.ends_with("\n-Y 60 +X 120\n"));
}

#[test]
fn coded_image_reads_back() {
    for (w, h) in [(8, 4), (9, 3), (300, 5), (1024, 2)] {
        let data = picture(w, h);
        let (_, body) = split(&write_hdr(w as u32, h as u32, &data, true));
        assert_eq!(read_rle(&body, w, h), pixels(&data));
    }
}

#[test]
fn flat_image_reads_back() {
    for (w, h) in [(1, 1), (7, 3), (64, 4)] {
        let data = picture(w, h);
        let (_, body) = split(&write_hdr(w as u32, h as u32, &data, false));
        let read: Vec<[u8; 4]> = body.chunks_exact(4).map(|p| [p[0], p[1], p[2], p[3]]).collect();
        assert_eq!(body.len(), w * h * 4);
        assert_eq!(read, pixels(&data));
    }
}

#[test]
fn rle_is_used_for_legal_widths_only() {
    let marked = |w: usize| {
        let data = vec![bits(1.0); w * 3];
        let (_, body) = split(&write_hdr(w as u32, 1, &data, true));
        body.len() != w * 4 && body.starts_with(&[2, 2])
    };
    assert!(!marked(7));
    assert!(marked(8));
    assert!(marked(0x7fff));
    assert!(!marked(0x8000));
}

#[test]
fn image_without_rows_is_a_header() {
    let (header, body) = split(&write_hdr(5, 0, &[], true));
    assert!(header.ends_with("-Y 0 +X 5\n"));
    assert!(body.is_empty());
}

#[test]
fn scanline_of_one_color() {
    let row = vec![bits(1.0); 24];
    assert_eq!(
        encode_scanline(&row, 8, true),
        vec![2, 2, 0, 8, 136, 128, 136, 128, 136, 128, 136, 129]
    );
    assert_eq!(encode_scanline(&row[..6], 2, false), vec![128, 128, 128, 129, 128, 128, 128, 129]);
}

#[test]
fn decimals_are_native() {
    for n in [0u64, 7, 10, 99, 100, 12345, 4294967295, u64::MAX] {
        let mut s = String::from("n=");
        push_decimal(&mut s, n);
        assert_eq!(s, format!("n={n}"));
    }
}

#[test]
fn compression_is_lossless() {
    for (w, h) in [(1usize, 1usize), (7, 3), (8, 3), (50, 4), (0x7fff, 1), (0x8000, 1)] {
        let data = picture(w, h);
        let packed = write_hdr(w as u32, h as u32, &data, true);
        let flat = write_hdr(w as u32, h as u32, &data, false);
        let ((packed_header, packed_body), (flat_header, flat_body)) = (split(&packed), split(&flat));
        assert_eq!(packed_header, flat_header);
        assert_eq!(flat_body.len(), 4 * w * h);
        if (8..=0x7fff).contains(&w) {
            let read: Vec<u8> = read_rle(&packed_body, w, h).concat();
            assert_eq!(read, flat_body);
        } else {
            assert_eq!(packed, flat);
        }
    }
}
