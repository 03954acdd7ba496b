//! End-to-end tests of the QOI encoder, checked against exact bytes and
//! against an independent decoder written here in the test harness.
use rs_wasm_encoders::encode_qoi_simple;
use rs_wasm_encoders::image::Image;

/// An independent QOI decoder over the streams this encoder emits.
/// Returns the decoded RGBA pixels of everything between the 14-byte
/// header and the 8-byte terminator, or None if the stream is unreadable.
fn decode_qoi(stream: &[u8]) -> Option<Vec<[u8; 4]>> {
    if stream.len() < 22 {
        return None;
    }
    if &stream[0..4] != b"qoif" {
        return None;
    }
    if stream[stream.len() - 8..] != [0, 0, 0, 0, 0, 0, 0, 1] {
        return None;
    }
    let ops = &stream[14..stream.len() - 8];
    let mut cache = [[0u8; 4]; 64];
    let mut prev: [u8; 4] = [0, 0, 0, 255];
    let mut out: Vec<[u8; 4]> = Vec::new();
    let mut pos = 0usize;
    while pos < ops.len() {
        let b0 = ops[pos];
        let mut reps = 1usize;
        let p: [u8; 4];
        if b0 == 0xfe {
            if pos + 4 > ops.len() {
                return None;
            }
            p = [ops[pos + 1], ops[pos + 2], ops[pos + 3], prev[3]];
            pos += 4;
        } else if b0 == 0xff {
            if pos + 5 > ops.len() {
                return None;
            }
            p = [ops[pos + 1], ops[pos + 2], ops[pos + 3], ops[pos + 4]];
            pos += 5;
        } else if b0 < 0x40 {
            p = cache[b0 as usize];
            pos += 1;
        } else if b0 < 0x80 {
            p = [
                prev[0].wrapping_add((b0 >> 4) & 3).wrapping_sub(2),
                prev[1].wrapping_add((b0 >> 2) & 3).wrapping_sub(2),
                prev[2].wrapping_add(b0 & 3).wrapping_sub(2),
                prev[3],
            ];
            pos += 1;
        } else if b0 < 0xc0 {
            if pos + 2 > ops.len() {
                return None;
            }
            let dg = (b0 - 0x80).wrapping_sub(32);
            let b1 = ops[pos + 1];
            p = [
                prev[0].wrapping_add(dg).wrapping_add(b1 >> 4).wrapping_sub(8),
                prev[1].wrapping_add(dg),
                prev[2].wrapping_add(dg).wrapping_add(b1 & 15).wrapping_sub(8),
                prev[3],
            ];
            pos += 2;
        } else {
            reps = ((b0 - 0xc0) as usize) + 1;
            p = prev;
            pos += 1;
        }
        let hash =
            (p[0] as usize * 3 + p[1] as usize * 5 + p[2] as usize * 7 + p[3] as usize * 11) % 64;
        cache[hash] = p;
        prev = p;
        for _ in 0..reps {
            out.push(p);
        }
    }
    Some(out)
}

fn rgb_pixels_of(buf: &[u8]) -> Vec<[u8; 4]> {
    buf.chunks_exact(3).map(|c| [c[0], c[1], c[2], 255]).collect()
}

#[test]
fn header_exactness_1x1() {
    let out = encode_qoi_simple(1, 1, &[9, 9, 9]);
    assert_eq!(&out[0..4], b"qoif");
    assert_eq!(&out[4..8], &[0, 0, 0, 1]);
    assert_eq!(&out[8..12], &[0, 0, 0, 1]);
    assert_eq!(out[12], 3);
    assert_eq!(out[13], 1);
}

#[test]
fn header_big_endian_dimensions() {
    let out = encode_qoi_simple(0x01020304, 0x0a0b0c0d, &[]);
    assert_eq!(&out[4..8], &[1, 2, 3, 4]);
    assert_eq!(&out[8..12], &[0x0a, 0x0b, 0x0c, 0x0d]);
}

#[test]
fn terminator_exactness() {
    for buf in [&[][..], &[1, 2, 3][..], &[5, 5, 5, 5, 5, 5, 5, 5, 5][..]] {
        let out = encode_qoi_simple(1, 1, buf);
        assert_eq!(&out[out.len() - 8..], &[0, 0, 0, 0, 0, 0, 0, 1]);
    }
}

#[test]
fn run_splitting_70_pixels() {
    let mut buf = Vec::new();
    for _ in 0..70 {
        buf.extend_from_slice(&[10, 20, 30]);
    }
    let out = encode_qoi_simple(70, 1, &buf);
    // first pixel is a raw RGB, then one full run and one final flush
    assert_eq!(&out[14..18], &[0xfe, 10, 20, 30]);
    assert_eq!(out[18], 0xc0 | 61); // 62 pixels, counter biased by one
    assert_eq!(out[19], 0xc0 | 7); // 7 pixels, emitted unbiased: reads back as 8
    assert_eq!(out.len(), 14 + 4 + 2 + 8);
}

#[test]
fn diff_boundary_plus1_0_minus2() {
    let buf = [100, 100, 100, 101, 100, 98];
    let out = encode_qoi_simple(2, 1, &buf);
    assert_eq!(&out[14..18], &[0xfe, 100, 100, 100]);
    // biased deltas: r 3, g 2, b 0
    assert_eq!(out[18], 0x40 | (3 << 4) | (2 << 2));
    assert_eq!(out.len(), 14 + 4 + 1 + 8);
}

#[test]
fn luma_boundary_green_31() {
    let buf = [0, 0, 0, 23, 31, 30];
    let out = encode_qoi_simple(2, 1, &buf);
    assert_eq!(&out[14..18], &[0xfe, 0, 0, 0]);
    // green delta +31, red term 0, blue term 7
    assert_eq!(out[18], 0x80 | 63);
    assert_eq!(out[19], 0x07);
    assert_eq!(out.len(), 14 + 4 + 2 + 8);
}

#[test]
fn luma_green_32_falls_through_to_rgb() {
    let buf = [0, 0, 0, 0, 32, 0];
    let out = encode_qoi_simple(2, 1, &buf);
    assert_eq!(&out[14..18], &[0xfe, 0, 0, 0]);
    assert_eq!(&out[18..22], &[0xfe, 0, 32, 0]);
}

#[test]
fn index_hit_second_occurrence() {
    // (10,20,30) hashes to slot 9; (0,0,0) hashes elsewhere
    let buf = [10, 20, 30, 0, 0, 0, 10, 20, 30];
    let out = encode_qoi_simple(3, 1, &buf);
    assert_eq!(&out[14..18], &[0xfe, 10, 20, 30]);
    assert_eq!(&out[18..22], &[0xfe, 0, 0, 0]);
    assert_eq!(out[22], 9); // INDEX: tag 0 with the cache slot
}

#[test]
fn round_trip_varied_pixels() {
    // ends on a fresh pixel, so no run is pending at end of stream
    let mut buf = Vec::new();
    for i in 0..90u32 {
        buf.push((i * 7 % 251) as u8);
        buf.push((i * 13 % 241) as u8);
        buf.push((i * 29 % 239) as u8);
    }
    let out = encode_qoi_simple(90, 1, &buf);
    let decoded = decode_qoi(&out).unwrap();
    assert_eq!(decoded, rgb_pixels_of(&buf));
}

#[test]
fn round_trip_with_runs_and_index_hits() {
    let mut buf = Vec::new();
    for chunk in [[5, 5, 5], [5, 5, 5], [5, 5, 5], [9, 9, 9], [5, 5, 5], [1, 2, 3]] {
        buf.extend_from_slice(&chunk);
    }
    let out = encode_qoi_simple(6, 1, &buf);
    let decoded = decode_qoi(&out).unwrap();
    assert_eq!(decoded, rgb_pixels_of(&buf));
}

#[test]
fn decoded_alpha_is_always_255() {
    // a trailing run: the unbiased final flush reads back one pixel long,
    // but every decoded pixel still carries full alpha
    let mut buf = Vec::new();
    for _ in 0..5 {
        buf.extend_from_slice(&[40, 50, 60]);
    }
    let out = encode_qoi_simple(5, 1, &buf);
    let decoded = decode_qoi(&out).unwrap();
    assert_eq!(decoded.len(), 6); // the known off-by-one of the final flush
    assert!(decoded.iter().all(|p| p[3] == 255));

    let out2 = encode_qoi_simple(3, 1, &[7, 8, 9, 7, 8, 9, 200, 100, 0]);
    let decoded2 = decode_qoi(&out2).unwrap();
    assert!(decoded2.iter().all(|p| p[3] == 255));
}

#[test]
fn trailing_fragment_is_dropped() {
    let out_whole = encode_qoi_simple(1, 1, &[10, 20, 30]);
    let out_frag = encode_qoi_simple(1, 1, &[10, 20, 30, 77, 88]);
    assert_eq!(&out_whole[14..], &out_frag[14..]);
}

#[test]
fn encode_image_matches_encode_qoi_simple() {
    let buf = [1, 2, 3, 4, 5, 6, 200, 201, 202];
    let img = Image::new_with_data(3, 1, &buf);
    let a = rs_wasm_encoders::encode_image(&img);
    let b = encode_qoi_simple(3, 1, &buf);
    assert_eq!(a, b);
}

#[test]
fn can_encode_small_buffers() {
    assert!(rs_wasm_encoders::can_encode(&[1, 2, 3]));
    assert!(rs_wasm_encoders::can_encode(&[]));
}
