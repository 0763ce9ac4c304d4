use ironrdp_graphics::rdp6::BitmapStreamDecoder;
use lamco_rdp_server::server::planar::{
    encode_long_sequence, encode_rle_scanline, encode_segment, rle_compress_plane, zig_zag_encode,
    PlanarEncoder,
};
use lamco_rdp_server::server::planar_inspect::{
    inspect_stream, scan_scanline, summarize, ScanEnd, Segment, StreamHeader,
};

#[test]
fn test_zig_zag_encode() {
    assert_eq!(zig_zag_encode(0), 0);
    assert_eq!(zig_zag_encode(1), 2);
    assert_eq!(zig_zag_encode(-1), 1);
    assert_eq!(zig_zag_encode(2), 4);
    assert_eq!(zig_zag_encode(-2), 3);
    assert_eq!(zig_zag_encode(127), 254);
    assert_eq!(zig_zag_encode(-127), 253);
}

#[test]
fn zig_zag_wraps_beyond_a_signed_byte() {
    assert_eq!(zig_zag_encode(-128), 255);
    assert_eq!(zig_zag_encode(128), 255);
    assert_eq!(zig_zag_encode(255), 1);
    assert_eq!(zig_zag_encode(-255), 2);
}

#[test]
fn test_solid_color() {
    let w = 4;
    let h = 2;
    let mut bgra = vec![0u8; w * h * 4];
    for px in bgra.chunks_exact_mut(4) {
        px[0] = 0xFF; // B
        px[1] = 0x00; // G
        px[2] = 0x00; // R
        px[3] = 0xFF; // X
    }

    let mut enc = PlanarEncoder::new(w, h);
    let out = enc.encode(&bgra, w, h, 0);

    assert_eq!(out[0], 0x30);
    assert!(out.len() < w * h * 3);
}

#[test]
fn test_gradient() {
    let w = 64;
    let h = 64;
    let mut bgra = vec![0u8; w * h * 4];
    for y in 0..h {
        for x in 0..w {
            let idx = (y * w + x) * 4;
            bgra[idx] = (x * 4) as u8;
            bgra[idx + 1] = (y * 4) as u8;
            bgra[idx + 2] = 0;
            bgra[idx + 3] = 0xFF;
        }
    }

    let mut enc = PlanarEncoder::new(w, h);
    let out = enc.encode(&bgra, w, h, 0);

    assert_eq!(out[0], 0x30);
    assert!(out.len() < w * h * 3);
}

#[test]
fn test_roundtrip_ironrdp_decode_solid() {
    let w = 4usize;
    let h = 2usize;
    let mut bgra = vec![0u8; w * h * 4];
    for px in bgra.chunks_exact_mut(4) {
        px[0] = 0x00; // B
        px[1] = 0x55; // G
        px[2] = 0xAA; // R
        px[3] = 0xFF; // X
    }

    let mut enc = PlanarEncoder::new(w, h);
    let encoded = enc.encode(&bgra, w, h, 0);

    assert_eq!(encoded[0], 0x30);

    let mut decoder = BitmapStreamDecoder::default();
    let mut rgb_out = Vec::new();
    decoder
        .decode_bitmap_stream_to_rgb24(&encoded, &mut rgb_out, w, h)
        .expect("IronRDP failed to decode our Planar output");

    assert_eq!(rgb_out.len(), w * h * 3);
    for (i, chunk) in rgb_out.chunks_exact(3).enumerate() {
        assert_eq!(chunk[0], 0xAA, "R mismatch at pixel {i}");
        assert_eq!(chunk[1], 0x55, "G mismatch at pixel {i}");
        assert_eq!(chunk[2], 0x00, "B mismatch at pixel {i}");
    }
}

#[test]
fn test_roundtrip_ironrdp_decode_gradient() {
    let w = 8usize;
    let h = 4usize;
    let mut bgra = vec![0u8; w * h * 4];
    for y in 0..h {
        for x in 0..w {
            let idx = (y * w + x) * 4;
            bgra[idx] = (x * 16) as u8; // B
            bgra[idx + 1] = (y * 32) as u8; // G
            bgra[idx + 2] = ((x + y) * 8) as u8; // R
            bgra[idx + 3] = 0xFF; // X
        }
    }

    let mut enc = PlanarEncoder::new(w, h);
    let encoded = enc.encode(&bgra, w, h, 0);

    let mut decoder = BitmapStreamDecoder::default();
    let mut rgb_out = Vec::new();
    decoder
        .decode_bitmap_stream_to_rgb24(&encoded, &mut rgb_out, w, h)
        .expect("IronRDP failed to decode gradient Planar output");

    assert_eq!(rgb_out.len(), w * h * 3);
    for y in 0..h {
        for x in 0..w {
            let src = (y * w + x) * 4;
            let dst = (y * w + x) * 3;
            assert_eq!(rgb_out[dst], bgra[src + 2], "R mismatch at ({x},{y})");
            assert_eq!(rgb_out[dst + 1], bgra[src + 1], "G mismatch at ({x},{y})");
            assert_eq!(rgb_out[dst + 2], bgra[src], "B mismatch at ({x},{y})");
        }
    }
}

#[test]
fn test_roundtrip_ironrdp_decode_black_frame() {
    let w = 32usize;
    let h = 8usize;
    let bgra = vec![0u8; w * h * 4];

    let mut enc = PlanarEncoder::new(w, h);
    let encoded = enc.encode(&bgra, w, h, 0);

    let mut decoder = BitmapStreamDecoder::default();
    let mut rgb_out = Vec::new();
    decoder
        .decode_bitmap_stream_to_rgb24(&encoded, &mut rgb_out, w, h)
        .expect("IronRDP failed to decode all-zero Planar output");

    assert_eq!(rgb_out.len(), w * h * 3);
    for (i, &v) in rgb_out.iter().enumerate() {
        assert_eq!(v, 0, "non-zero at index {i}");
    }
}

#[test]
fn test_roundtrip_ironrdp_decode_mixed_pattern() {
    let w = 16usize;
    let h = 8usize;
    let mut bgra = vec![0u8; w * h * 4];
    for (i, chunk) in bgra.chunks_exact_mut(4).enumerate() {
        // Alternating pattern + some runs
        let v = if i % 3 == 0 {
            0x80
        } else if i % 5 == 0 {
            0xFF
        } else {
            i as u8
        };
        chunk[0] = v; // B
        chunk[1] = v / 2; // G
        chunk[2] = v ^ 0x55; // R
        chunk[3] = 0xFF; // X
    }

    let mut enc = PlanarEncoder::new(w, h);
    let encoded = enc.encode(&bgra, w, h, 0);

    let mut decoder = BitmapStreamDecoder::default();
    let mut rgb_out = Vec::new();
    decoder
        .decode_bitmap_stream_to_rgb24(&encoded, &mut rgb_out, w, h)
        .expect("IronRDP failed to decode mixed pattern");

    assert_eq!(rgb_out.len(), w * h * 3);
    for y in 0..h {
        for x in 0..w {
            let src = (y * w + x) * 4;
            let dst = (y * w + x) * 3;
            assert_eq!(rgb_out[dst], bgra[src + 2], "R mismatch at ({x},{y})");
            assert_eq!(rgb_out[dst + 1], bgra[src + 1], "G mismatch at ({x},{y})");
            assert_eq!(rgb_out[dst + 2], bgra[src], "B mismatch at ({x},{y})");
        }
    }
}

#[test]
fn test_roundtrip_fullhd_solid() {
    let w = 1920usize;
    let h = 1080usize;
    let mut bgra = vec![0u8; w * h * 4];
    for chunk in bgra.chunks_exact_mut(4) {
        chunk[0] = 0x1A; // B
        chunk[1] = 0x2B; // G
        chunk[2] = 0x3C; // R
        chunk[3] = 0xFF; // X
    }

    let mut enc = PlanarEncoder::new(w, h);
    let encoded = enc.encode(&bgra, w, h, 0);

    let mut decoder = BitmapStreamDecoder::default();
    let mut rgb_out = Vec::new();
    decoder
        .decode_bitmap_stream_to_rgb24(&encoded, &mut rgb_out, w, h)
        .expect("IronRDP failed to decode 1920x1080 Planar output");

    assert_eq!(rgb_out.len(), w * h * 3);
    for (i, chunk) in rgb_out.chunks_exact(3).enumerate() {
        assert_eq!(chunk[0], 0x3C, "R mismatch at pixel {i}");
        assert_eq!(chunk[1], 0x2B, "G mismatch at pixel {i}");
        assert_eq!(chunk[2], 0x1A, "B mismatch at pixel {i}");
    }
}

#[test]
fn test_roundtrip_run_remainder_edge_cases() {
    // Run lengths that have remainder 1 or 2 after decomposing into 32+16+n.
    for run_len in [33usize, 34, 49, 50, 51, 52, 835, 946, 947, 1919, 1920] {
        let w = run_len;
        let h = 1usize;
        let mut bgra = vec![0u8; w * h * 4];
        for px in bgra.chunks_exact_mut(4) {
            px[0] = 0x10; // B
            px[1] = 0x20; // G
            px[2] = 0x42; // R
            px[3] = 0xFF; // X
        }

        let mut enc = PlanarEncoder::new(w, h);
        let encoded = enc.encode(&bgra, w, h, 0);

        let mut decoder = BitmapStreamDecoder::default();
        let mut rgb_out = Vec::new();
        match decoder.decode_bitmap_stream_to_rgb24(&encoded, &mut rgb_out, w, h) {
            Ok(()) => {
                assert_eq!(rgb_out.len(), w * h * 3, "size mismatch for run={run_len}");
                for (i, chunk) in rgb_out.chunks_exact(3).enumerate() {
                    assert_eq!(chunk[0], 0x42, "R mismatch at pixel {i} for run={run_len}");
                    assert_eq!(chunk[1], 0x20, "G mismatch at pixel {i} for run={run_len}");
                    assert_eq!(chunk[2], 0x10, "B mismatch at pixel {i} for run={run_len}");
                }
            }
            Err(e) => panic!("IronRDP decode failed for run={run_len}: {e:?}"),
        }
    }
}

#[test]
fn test_roundtrip_1920_width_run835_regression() {
    let w = 1920usize;
    let h = 2usize;
    let mut bgra = vec![0u8; w * h * 4];
    // Row 0: first 835 pixels R=0x50, rest R=0x60
    for x in 0..w {
        let r = if x < 835 { 0x50u8 } else { 0x60 };
        bgra[x * 4 + 2] = r;
        bgra[x * 4 + 3] = 0xFF;
    }
    // Row 1: same as row 0 (delta = 0 for all pixels = run=1920)
    for x in 0..w {
        let r = if x < 835 { 0x50u8 } else { 0x60 };
        bgra[w * 4 + x * 4 + 2] = r;
        bgra[w * 4 + x * 4 + 3] = 0xFF;
    }

    let mut enc = PlanarEncoder::new(w, h);
    let encoded = enc.encode(&bgra, w, h, 0);

    let mut decoder = BitmapStreamDecoder::default();
    let mut rgb_out = Vec::new();
    decoder
        .decode_bitmap_stream_to_rgb24(&encoded, &mut rgb_out, w, h)
        .expect("1920-width run835 regression test failed");

    assert_eq!(rgb_out.len(), w * h * 3);
}

fn scanline(input: &[u8]) -> Vec<u8> {
    let mut output = Vec::new();
    encode_rle_scanline(input, &mut output);
    output
}

#[test]
fn scanlines_are_segmented_canonically() {
    assert_eq!(scanline(&[]), Vec::<u8>::new());
    assert_eq!(scanline(&[7]), vec![0x10, 7]);
    // Three in a row are not worth a run, four are.
    assert_eq!(scanline(&[7, 7, 7]), vec![0x30, 7, 7, 7]);
    assert_eq!(scanline(&[7, 7, 7, 7]), vec![0x13, 7]);
    assert_eq!(
        scanline(&[0x10, 0x10, 0x10, 0x10, 0x10, 0x20, 0x30]),
        vec![0x14, 0x10, 0x20, 0x20, 0x30]
    );
    // Sixteen different values: a full chunk and one more.
    let values: Vec<u8> = (0..16).collect();
    let mut expected = vec![0xF0];
    expected.extend_from_slice(&values[..15]);
    expected.extend_from_slice(&[0x10, 15]);
    assert_eq!(scanline(&values), expected);
}

#[test]
fn segments_carry_long_runs_behind_them() {
    let mut output = Vec::new();
    encode_segment(&[5], 15, &mut output);
    assert_eq!(output, vec![0x1F, 5]);

    let mut output = Vec::new();
    encode_segment(&[5], 16, &mut output);
    assert_eq!(output, vec![0x1F, 5, 0x10, 5]);

    let mut output = vec![9];
    encode_segment(&[], 20, &mut output);
    assert_eq!(output, vec![9]);
}

#[test]
fn long_runs_use_the_extended_forms() {
    let bytes = |run: usize| {
        let mut output = Vec::new();
        encode_long_sequence(run, 5, &mut output);
        output
    };
    assert_eq!(bytes(0), Vec::<u8>::new());
    assert_eq!(bytes(1), vec![0x10, 5]);
    assert_eq!(bytes(3), vec![0x30, 5, 5, 5]);
    assert_eq!(bytes(4), vec![0x13, 5]);
    assert_eq!(bytes(15), vec![0x1E, 5]);
    assert_eq!(bytes(16), vec![0x01]);
    assert_eq!(bytes(31), vec![0xF1]);
    assert_eq!(bytes(32), vec![0x02]);
    assert_eq!(bytes(47), vec![0xF2]);
    assert_eq!(bytes(48), vec![0xF2, 0x10, 5]);
}

#[test]
fn planes_are_compressed_row_by_row() {
    // A run does not cross the end of a row.
    let plane = [3u8; 8];
    assert_eq!(rle_compress_plane(&plane, 4, 2), vec![0x13, 3, 0x13, 3]);
    // Values behind the plane do not count.
    assert_eq!(rle_compress_plane(&plane, 2, 1), vec![0x20, 3, 3]);
}

#[test]
fn an_encoded_stream_has_exactly_these_bytes() {
    // Two rows of two pixels; blue, green, red, unused.
    let bgra = [1, 2, 3, 9, 4, 5, 6, 9, 2, 2, 2, 9, 4, 5, 7, 9];
    let mut enc = PlanarEncoder::new(2, 2);
    let out = enc.encode(&bgra, 2, 2, 0);
    let expected = vec![
        0x30, 0x20, 3, 6, 0x20, 1, 2, // red: 3 6, then -1 +1
        0x20, 2, 5, 0x20, 0, 0, // green: 2 5, then 0 0
        0x20, 1, 4, 0x20, 2, 0, // blue: 1 4, then +1 0
    ];
    assert_eq!(out, expected);
}

#[test]
fn alpha_and_row_padding_do_not_count() {
    let tight = [1, 2, 3, 0, 4, 5, 6, 0];
    let padded = [1, 2, 3, 77, 88, 88, 4, 5, 6, 99];
    let mut enc = PlanarEncoder::new(0, 0);
    let first = enc.encode(&tight, 1, 2, 0);
    let second = enc.encode(&padded, 1, 2, 6);
    assert_eq!(first, second);
}

#[test]
fn deltas_beyond_a_signed_byte_survive() {
    let bgra = [0, 255, 10, 0, 255, 0, 200, 0];
    let mut enc = PlanarEncoder::new(1, 2);
    let encoded = enc.encode(&bgra, 1, 2, 0);
    let decoded = inspect_stream(&encoded, 1, 2).expect("decodable");
    assert_eq!(decoded.rgb, vec![10, 255, 0, 200, 0, 255]);
}

#[test]
fn scanlines_grow_by_at_most_a_fifteenth() {
    for n in [1usize, 14, 15, 16, 30, 31, 100] {
        let line: Vec<u8> = (0..n).map(|i| (i * 37 % 251) as u8).collect();
        assert!(scanline(&line).len() <= n + (n + 14) / 15);
    }
    assert_eq!(scanline(&[1, 2, 3]).len(), 4);
}

#[test]
fn headers_are_taken_apart() {
    let header = StreamHeader::parse(0x30);
    assert_eq!(
        header,
        StreamHeader {
            color_loss_level: 0,
            chroma_subsampling: false,
            rle_enabled: true,
            no_alpha: true,
        }
    );
    assert_eq!(header.plane_count(), 3);
    let header = StreamHeader::parse(0x0D);
    assert_eq!(header.color_loss_level, 5);
    assert!(header.chroma_subsampling);
    assert!(!header.rle_enabled);
    assert_eq!(header.plane_count(), 4);
}

#[test]
fn streams_are_inspected() {
    let bgra = [7u8; 4 * 6];
    let mut enc = PlanarEncoder::new(3, 2);
    let encoded = enc.encode(&bgra, 3, 2, 0);
    let summary = inspect_stream(&encoded, 3, 2).expect("decodable");
    assert!(summary.size_matches);
    assert_eq!(summary.uniform, Some(7));
    assert_eq!(summary.rgb, vec![7; 18]);
    assert!(inspect_stream(&encoded[..4], 3, 2).is_err());
}

#[test]
fn decoded_streams_show_the_pixels_of_the_bitmap() {
    for (width, height, padding) in [(1usize, 1usize, 0usize), (5, 3, 0), (64, 4, 8), (100, 2, 4)] {
        let stride = width * 4 + padding;
        let bgra: Vec<u8> =
            (0..stride * height).map(|i| (i / 9 * 37 % 256) as u8).collect();
        let mut enc = PlanarEncoder::new(width, height);
        let encoded = enc.encode(&bgra, width, height, stride);
        let decoded = inspect_stream(&encoded, width, height).expect("decodable");
        let mut expected = Vec::new();
        for y in 0..height {
            for x in 0..width {
                let at = y * stride + x * 4;
                expected.extend_from_slice(&[bgra[at + 2], bgra[at + 1], bgra[at]]);
            }
        }
        assert_eq!(decoded.rgb, expected);
        // What follows the planes does not count.
        let mut longer = encoded.clone();
        longer.push(0);
        assert_eq!(inspect_stream(&longer, width, height).expect("decodable").rgb, expected);
        // Another size, a missing byte or a zero control byte find no planes.
        assert!(inspect_stream(&encoded, width, height + 1).is_err());
        assert!(inspect_stream(&encoded[..encoded.len() - 1], width, height).is_err());
        let mut broken = encoded.clone();
        broken[1] = 0;
        assert!(inspect_stream(&broken, width, height).is_err());
    }
}

#[test]
fn bitmaps_without_columns_have_no_pixels() {
    assert_eq!(inspect_stream(&[0x30], 0, 0).expect("decodable").rgb, Vec::<u8>::new());
    assert_eq!(inspect_stream(&[0x30], 0, 7).expect("decodable").rgb, Vec::<u8>::new());
    // Columns without rows are not readable.
    assert!(inspect_stream(&[0x30], 7, 0).is_err());
    assert!(inspect_stream(&[0x30, 0x07, 0x07, 0x07], 7, 0).is_err());
}

#[test]
fn summaries_compare_size_and_values() {
    let summary = summarize(vec![1, 1, 2], 3);
    assert!(summary.size_matches);
    assert_eq!(summary.uniform, None);
    let summary = summarize(vec![4, 4], 3);
    assert!(!summary.size_matches);
    assert_eq!(summary.uniform, Some(4));
    assert_eq!(summarize(Vec::new(), 0).uniform, None);
}

#[test]
fn first_scanlines_are_scanned() {
    let line = scanline(&[1, 2, 2, 2, 2, 2, 2]);
    let scan = scan_scanline(&line, 7);
    assert_eq!(scan.end, ScanEnd::Done { consumed: 3 });
    assert_eq!(scan.column, 7);
    assert_eq!(scan.segments, vec![Segment { control: 0x25, raw_count: 2, run: 5 }]);

    assert_eq!(scan_scanline(&[0x10, 5, 0], 3).end, ScanEnd::InvalidControl { offset: 2 });
    assert_eq!(
        scan_scanline(&[0x30, 5], 3).end,
        ScanEnd::NotEnoughBytes { needed: 3, available: 1 }
    );
    assert_eq!(scan_scanline(&[0xF2], 40).end, ScanEnd::Overflow { column: 47 });
    // Data that ends early is not an error.
    assert_eq!(scan_scanline(&[0x10, 5], 3).end, ScanEnd::Done { consumed: 2 });
}
