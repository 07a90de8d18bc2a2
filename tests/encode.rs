use pngenc::{chunk, chunk_len, deflate, deflate_size, frame, ode, size, Color, EncodeError};

fn encode(color: Color, dims: (u32, u32), data: &[u8]) -> Vec<u8> {
    let mut out = Vec::new();
    ode(color, dims, data, &mut out).unwrap();
    out
}

fn be32(b: &[u8]) -> u32 {
    u32::from_be_bytes([b[0], b[1], b[2], b[3]])
}

/// Reads a zlib stream made only of stored blocks; panics on anything else.
fn inflate_stored(s: &[u8]) -> Vec<u8> {
    assert_eq!(s[0] & 0x0f, 8);
    assert_eq!((s[0] as u32 * 256 + s[1] as u32) % 31, 0);
    let mut pos = 2;
    let mut out = Vec::new();
    loop {
        let h = s[pos];
        assert_eq!((h >> 1) & 3, 0);
        let len = u16::from_le_bytes([s[pos + 1], s[pos + 2]]) as usize;
        let nlen = u16::from_le_bytes([s[pos + 3], s[pos + 4]]) as usize;
        assert_eq!(len ^ nlen, 0xffff);
        out.extend_from_slice(&s[pos + 5..pos + 5 + len]);
        pos += 5 + len;
        if h & 1 == 1 {
            break;
        }
    }
    assert_eq!(be32(&s[pos..]), simd_adler32::adler32(&out.as_slice()));
    assert_eq!(pos + 4, s.len());
    out
}

/// Splits a PNG file into its chunks, checking each CRC.
fn chunks(png: &[u8]) -> Vec<([u8; 4], Vec<u8>)> {
    assert_eq!(&png[..8], &[0x89, b'P', b'N', b'G', 0x0d, 0x0a, 0x1a, 0x0a]);
    let mut pos = 8;
    let mut out = Vec::new();
    while pos < png.len() {
        let len = be32(&png[pos..]) as usize;
        let ty = [png[pos + 4], png[pos + 5], png[pos + 6], png[pos + 7]];
        let data = png[pos + 8..pos + 8 + len].to_vec();
        assert_eq!(be32(&png[pos + 8 + len..]), crc32fast::hash(&png[pos + 4..pos + 8 + len]));
        out.push((ty, data));
        pos += 12 + len;
    }
    assert_eq!(pos, png.len());
    out
}

/// Decodes a file that this encoder wrote: width, height, color type, pixels.
fn decode(png: &[u8]) -> (u32, u32, u8, Vec<u8>) {
    let cs = chunks(png);
    assert_eq!(&cs[0].0, b"IHDR");
    assert_eq!(cs.last().unwrap().0, *b"IEND");
    let ihdr = &cs[0].1;
    let (w, h) = (be32(&ihdr[0..]), be32(&ihdr[4..]));
    assert_eq!(&ihdr[8..], &[8, ihdr[9], 0, 0, 0]);
    let channels = match ihdr[9] {
        0 => 1,
        4 => 2,
        2 => 3,
        6 => 4,
        t => panic!("color type {t}"),
    };
    let mut z = Vec::new();
    for (ty, data) in &cs {
        if ty == b"IDAT" {
            z.extend_from_slice(data);
        }
    }
    let framed = inflate_stored(&z);
    let row = w as usize * channels;
    assert_eq!(framed.len(), h as usize * (row + 1));
    let mut pixels = Vec::new();
    for r in 0..h as usize {
        assert_eq!(framed[r * (row + 1)], 0);
        pixels.extend_from_slice(&framed[r * (row + 1) + 1..(r + 1) * (row + 1)]);
    }
    (w, h, ihdr[9], pixels)
}

fn pattern(n: usize) -> Vec<u8> {
    (0..n).map(|i| (i * 7 + i / 251) as u8).collect()
}

#[test]
fn depth_of_each_color() {
    assert_eq!(Color::Y.depth(), 1);
    assert_eq!(Color::YA.depth(), 2);
    assert_eq!(Color::RGB.depth(), 3);
    assert_eq!(Color::RGBA.depth(), 4);
}

#[test]
fn one_pixel_rgb_exact_bytes() {
    let out = encode(Color::RGB, (1, 1), &[10, 20, 30]);
    let expected: Vec<u8> = vec![
        137, 80, 78, 71, 13, 10, 26, 10, 0, 0, 0, 13, 73, 72, 68, 82, 0, 0, 0, 1, 0, 0, 0, 1, 8,
        2, 0, 0, 0, 144, 119, 83, 222, 0, 0, 0, 1, 115, 82, 71, 66, 0, 174, 206, 28, 233, 0, 0, 0,
        15, 73, 68, 65, 84, 120, 1, 1, 4, 0, 251, 255, 0, 10, 20, 30, 0, 104, 0, 61, 232, 12,
        187, 131, 0, 0, 0, 0, 73, 69, 78, 68, 174, 66, 96, 130,
    ];
    assert_eq!(out, expected);
    assert_eq!(size(Color::RGB, (1, 1)), 85);
}

#[test]
fn one_pixel_rgb_structure() {
    let out = encode(Color::RGB, (1, 1), &[10, 20, 30]);
    let cs = chunks(&out);
    let tags: Vec<[u8; 4]> = cs.iter().map(|c| c.0).collect();
    assert_eq!(tags, vec![*b"IHDR", *b"sRGB", *b"IDAT", *b"IEND"]);
    assert_eq!(cs[0].1, vec![0, 0, 0, 1, 0, 0, 0, 1, 8, 2, 0, 0, 0]);
    assert_eq!(cs[1].1, vec![0]);
    assert_eq!(inflate_stored(&cs[2].1), vec![0, 10, 20, 30]);
    assert!(cs[3].1.is_empty());
}

#[test]
fn size_matches_output_for_many_shapes() {
    let colors = [Color::Y, Color::YA, Color::RGB, Color::RGBA];
    let shapes = [(0, 0), (0, 5), (5, 0), (1, 1), (3, 7), (100, 100), (300, 250), (21845, 1)];
    for c in colors {
        for (w, h) in shapes {
            let data = pattern(w as usize * h as usize * c.depth() as usize);
            let out = encode(c, (w, h), &data);
            assert_eq!(out.len(), size(c, (w, h)));
        }
    }
}

#[test]
fn size_formula_values() {
    // 8 + 25 + 13 + 12 + 12, plus the stream of the framed rows.
    assert_eq!(size(Color::Y, (0, 0)), 70 + 11);
    assert_eq!(size(Color::RGBA, (2, 3)), 70 + 11 + 27);
    assert_eq!(size(Color::Y, (65534, 1)), 70 + 16 + 65535);
    assert_eq!(size(Color::Y, (65535, 1)), 70 + 16 + 65536);
    assert_eq!(size(Color::Y, (65534, 2)), 70 + 21 + 131070);
    assert_eq!(size(Color::Y, (131070, 1)), 70 + 21 + 131071);
}

#[test]
fn round_trip_all_colors() {
    let colors = [Color::Y, Color::YA, Color::RGB, Color::RGBA];
    let codes = [0u8, 4, 2, 6];
    for (c, code) in colors.into_iter().zip(codes) {
        for (w, h) in [(1, 1), (17, 9), (400, 300), (0, 3), (3, 0)] {
            let data = pattern(w as usize * h as usize * c.depth() as usize);
            let out = encode(c, (w, h), &data);
            assert_eq!(decode(&out), (w, h, code, data));
        }
    }
}

#[test]
fn deterministic_output() {
    let data = pattern(64 * 48 * 4);
    assert_eq!(encode(Color::RGBA, (64, 48), &data), encode(Color::RGBA, (64, 48), &data));
}

#[test]
fn short_buffer_is_rejected_untouched() {
    let mut out = vec![1, 2, 3];
    assert_eq!(ode(Color::RGB, (2, 2), &[0; 11], &mut out), Err(EncodeError::ContractViolation));
    assert_eq!(out, vec![1, 2, 3]);
}

#[test]
fn long_buffer_is_rejected_untouched() {
    let mut out = Vec::new();
    assert_eq!(ode(Color::Y, (2, 2), &[0; 5], &mut out), Err(EncodeError::ContractViolation));
    assert!(out.is_empty());
    assert_eq!(ode(Color::Y, (0, 0), &[0; 1], &mut out), Err(EncodeError::ContractViolation));
    assert!(out.is_empty());
}

#[test]
fn huge_shape_is_rejected() {
    let mut out = Vec::new();
    let r = ode(Color::RGBA, (u32::MAX, u32::MAX), &[0; 4], &mut out);
    assert_eq!(r, Err(EncodeError::ContractViolation));
    assert!(out.is_empty());
}

#[test]
fn appends_after_existing_bytes() {
    let mut out = vec![9, 9];
    ode(Color::Y, (1, 1), &[5], &mut out).unwrap();
    assert_eq!(&out[..2], &[9, 9]);
    assert_eq!(out[2..].to_vec(), encode(Color::Y, (1, 1), &[5]));
}

/// The block headers of a stored stream: (final, length) per block.
fn blocks(s: &[u8]) -> Vec<(bool, usize)> {
    let mut pos = 2;
    let mut out = Vec::new();
    loop {
        let len = u16::from_le_bytes([s[pos + 1], s[pos + 2]]) as usize;
        let last = s[pos] == 1;
        assert!(s[pos] == 0 || last);
        out.push((last, len));
        pos += 5 + len;
        if last {
            return out;
        }
    }
}

#[test]
fn stored_blocks_at_boundaries() {
    let cases: [(usize, Vec<(bool, usize)>); 5] = [
        (0, vec![(true, 0)]),
        (65535, vec![(false, 65535), (true, 0)]),
        (65536, vec![(false, 65535), (true, 1)]),
        (131070, vec![(false, 65535), (false, 65535), (true, 0)]),
        (131071, vec![(false, 65535), (false, 65535), (true, 1)]),
    ];
    for (n, expected) in cases {
        let data = pattern(n);
        let z = deflate(&data);
        assert_eq!(z.len(), deflate_size(n));
        assert_eq!(&z[..2], &[0x78, 0x01]);
        assert_eq!(blocks(&z), expected);
        assert_eq!(inflate_stored(&z), data);
    }
}

#[test]
fn deflate_size_values() {
    assert_eq!(deflate_size(0), 11);
    assert_eq!(deflate_size(1), 12);
    assert_eq!(deflate_size(65534), 65545);
    assert_eq!(deflate_size(65535), 65551);
    assert_eq!(deflate_size(65536), 65552);
    assert_eq!(deflate_size(131070), 131091);
    assert_eq!(deflate_size(131071), 131092);
}

#[test]
fn empty_stream_exact_bytes() {
    assert_eq!(deflate(&[]), vec![0x78, 0x01, 1, 0, 0, 255, 255, 0, 0, 0, 1]);
}

#[test]
fn boundary_images_round_trip() {
    // Framed lengths 65535, 65536, 131070 and 131071.
    for (w, h) in [(65534u32, 1u32), (65535, 1), (65534, 2), (131070, 1)] {
        let data = pattern(w as usize * h as usize);
        let out = encode(Color::Y, (w, h), &data);
        assert_eq!(out.len(), size(Color::Y, (w, h)));
        assert_eq!(decode(&out), (w, h, 0, data));
    }
}

#[test]
fn zero_area_images() {
    for (w, h) in [(0u32, 0u32), (0, 4), (4, 0)] {
        let out = encode(Color::RGB, (w, h), &[]);
        let cs = chunks(&out);
        let framed = inflate_stored(&cs[2].1);
        // One tag byte per row, even when rows are empty.
        assert_eq!(framed, vec![0; h as usize]);
        assert_eq!(decode(&out), (w, h, 2, vec![]));
    }
}

#[test]
fn frame_inserts_tag_per_row() {
    assert_eq!(frame(&[1, 2, 3, 4, 5, 6], 3, 2), vec![0, 1, 2, 3, 0, 4, 5, 6]);
    assert_eq!(frame(&[], 0, 3), vec![0, 0, 0]);
    assert_eq!(frame(&[], 5, 0), Vec::<u8>::new());
}

#[test]
fn chunk_layout_and_crc() {
    let mut out = Vec::new();
    chunk(*b"IEND", &[], &mut out);
    assert_eq!(out, vec![0, 0, 0, 0, 73, 69, 78, 68, 0xae, 0x42, 0x60, 0x82]);
    let mut out = vec![7];
    chunk(*b"tEXt", &[1, 2, 3], &mut out);
    assert_eq!(out.len(), 1 + chunk_len(3));
    assert_eq!(&out[1..12], &[0, 0, 0, 3, b't', b'E', b'X', b't', 1, 2, 3][..]);
    assert_eq!(be32(&out[12..]), crc32fast::hash(b"tEXt\x01\x02\x03"));
    assert_eq!(chunk_len(13), 25);
}
