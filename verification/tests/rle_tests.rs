use cube2hdr::rle::encode_component;

fn encode(data: &[u8]) -> Vec<u8> {
    let mut out = Vec::new();
    encode_component(&mut out, data);
    out
}

fn decode(enc: &[u8]) -> Vec<u8> {
    let mut dec = Vec::new();
    let mut i = 0;
    while i < enc.len() {
        let c = enc[i] as usize;
        i += 1;
        if c > 128 {
            dec.extend(std::iter::repeat(enc[i]).take(c - 128));
            i += 1;
        } else {
            dec.extend_from_slice(&enc[i..i + c]);
            i += c;
        }
    }
    dec
}

#[test]
fn rle_round_trips() {
    let mut data: Vec<u8> = vec![7; 300];
    data.extend((0u8..=255).cycle().take(200));
    data.extend(vec![0u8; 5]);
    data.push(99);

    let mut enc = Vec::new();
    encode_component(&mut enc, &data);

    // Decode.
    let mut dec = Vec::new();
    let mut i = 0;
    while i < enc.len() {
        let c = enc[i] as usize;
        i += 1;
        if c > 128 {
            dec.extend(std::iter::repeat(enc[i]).take(c - 128));
            i += 1;
        } else {
            dec.extend_from_slice(&enc[i..i + c]);
            i += c;
        }
    }
    assert_eq!(dec, data);
}

#[test]
fn nothing_codes_to_nothing() {
    assert_eq!(encode(&[]), Vec::<u8>::new());
}

#[test]
fn coding_appends() {
    let mut out = vec![1, 2];
    encode_component(&mut out, &[5, 5, 5, 5]);
    assert_eq!(out, vec![1, 2, 132, 5]);
}

#[test]
fn short_runs_stay_literal() {
    assert_eq!(encode(&[9, 9, 9]), vec![3, 9, 9, 9]);
    assert_eq!(encode(&[1, 9, 9, 9, 2]), vec![5, 1, 9, 9, 9, 2]);
}

#[test]
fn literals_stop_where_a_run_starts() {
    assert_eq!(encode(&[1, 2, 3, 3, 3, 3, 4]), vec![2, 1, 2, 132, 3, 1, 4]);
}

#[test]
fn runs_are_capped() {
    assert_eq!(encode(&[6; 127]), vec![255, 6]);
    assert_eq!(encode(&[6; 128]), vec![255, 6, 1, 6]);
    assert_eq!(encode(&[6; 131]), vec![255, 6, 132, 6]);
}

#[test]
fn literals_are_capped() {
    let data: Vec<u8> = (0u8..130).collect();
    let enc = encode(&data);
    assert_eq!(enc[0], 128);
    assert_eq!(&enc[1..129], &data[..128]);
    assert_eq!(&enc[129..], &[2, 128, 129]);
}

#[test]
fn overhead_is_one_byte_in_a_block() {
    let mut state: u32 = 12345;
    for len in 0..700usize {
        let mut data = Vec::new();
        for _ in 0..len {
            state = state.wrapping_mul(1664525).wrapping_add(1013904223);
            data.push((state >> 30) as u8);
        }
        let enc = encode(&data);
        assert!(enc.len() <= len + (len + 127) / 128, "{len} -> {}", enc.len());
        assert_eq!(decode(&enc), data);
    }
}
