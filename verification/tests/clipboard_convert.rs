use lamco_rdp_server::clipboard::convert::{
    fits, linux_route, to_linux, to_windows, windows_route, ClipboardError, LinuxRoute, WindowsRoute,
};
use lamco_rdp_server::clipboard::image::{blank_mask, header_size, unroundable_row};
use lamco_rdp_server::clipboard::jpeg::calm_jpeg;
use lamco_rdp_server::clipboard::text::{
    ansi_bytes, ansi_from_unicode, linux_bytes, rtf_to_linux, text_from_unicode, text_to_unicode,
    unicode_bytes, units_before_nul,
};

fn utf16le(text: &str) -> Vec<u8> {
    text.encode_utf16().flat_map(|unit| unit.to_le_bytes()).collect()
}

#[test]
fn text_goes_out_with_crlf_and_a_terminator() {
    let mut expected = utf16le("a\r\nb\r\nc");
    expected.extend_from_slice(&[0, 0]);
    assert_eq!(unicode_bytes("a\nb\r\nc"), expected);
    assert_eq!(text_to_unicode(b"a\nb\r\nc"), expected);
    assert_eq!(unicode_bytes(""), vec![0, 0]);
    assert_eq!(unicode_bytes("x\0y"), {
        let mut bytes = utf16le("xy");
        bytes.extend_from_slice(&[0, 0]);
        bytes
    });
}

#[test]
fn text_comes_in_with_lf_up_to_the_terminator() {
    let mut data = utf16le("a\r\nb");
    data.extend_from_slice(&[0, 0]);
    data.extend_from_slice(&utf16le("not this"));
    assert_eq!(text_from_unicode(&data), b"a\nb".to_vec());
    // An odd last byte does not count.
    assert_eq!(text_from_unicode(&[0x41, 0, 0x42]), b"A".to_vec());
    assert_eq!(text_from_unicode(&[0, 0]), Vec::<u8>::new());
}

#[test]
fn text_survives_the_way_there_and_back() {
    for text in ["", "plain", "two\nlines", "old\r\nlines\r\n", "\r\r\n", "smile \u{1F600}", "a\0b"] {
        let there = unicode_bytes(text);
        assert_eq!(text_from_unicode(&there), linux_bytes(text));
    }
    assert_eq!(linux_bytes("\r\r\n\0"), b"\r\n".to_vec());
}

#[test]
fn malformed_text_is_replaced() {
    // A lone surrogate.
    assert_eq!(text_from_unicode(&[0x00, 0xD8, 0x41, 0x00]), "\u{FFFD}A".as_bytes().to_vec());
    let mut expected = utf16le("\u{FFFD}A");
    expected.extend_from_slice(&[0, 0]);
    assert_eq!(text_to_unicode(&[0xFF, 0x41]), expected);
}

#[test]
fn units_stop_in_front_of_a_zero() {
    assert_eq!(units_before_nul(&[0x41, 0x01, 0, 0, 0x42, 0]), vec![0x141]);
    assert_eq!(units_before_nul(&[0x41]), Vec::<u16>::new());
}

#[test]
fn single_byte_text_is_terminated_once() {
    let mut data = utf16le("hi");
    data.extend_from_slice(&[0, 0, 0, 0]);
    assert_eq!(ansi_from_unicode(&data), b"hi\0".to_vec());
    assert_eq!(ansi_bytes("hi\0\0"), b"hi\0".to_vec());
    assert_eq!(ansi_bytes("\0"), b"\0".to_vec());
}

#[test]
fn rich_text_keeps_its_bytes_but_for_line_ends() {
    assert_eq!(rtf_to_linux(b"{\\rtf1\r\nx}\0"), b"{\\rtf1\nx}".to_vec());
}

#[test]
fn routes_to_windows() {
    assert_eq!(windows_route(13, "image/png"), WindowsRoute::UnicodeText);
    assert_eq!(windows_route(8, "image/png"), WindowsRoute::PngToDib);
    assert_eq!(windows_route(8, "image/jpeg"), WindowsRoute::JpegToDib);
    assert_eq!(windows_route(8, "image/x-bmp"), WindowsRoute::BmpToDib);
    assert_eq!(windows_route(8, "image/gif"), WindowsRoute::PassThrough);
    assert_eq!(windows_route(17, "image/png;q=1"), WindowsRoute::PngToDibV5);
    assert_eq!(windows_route(17, "image/jpeg"), WindowsRoute::JpegToDibV5);
    assert_eq!(windows_route(17, "image/bmp"), WindowsRoute::PassThrough);
    assert_eq!(windows_route(0xD011, "image/png"), WindowsRoute::PassThrough);
    assert_eq!(windows_route(1, "text/plain"), WindowsRoute::PassThrough);
}

/// A bitmap of 2 by 1 pixels with a 40-byte header, 24 or 32 bits for each pixel.
fn dib(bits: u16) -> Vec<u8> {
    let mut data = Vec::new();
    data.extend_from_slice(&40u32.to_le_bytes());
    data.extend_from_slice(&2i32.to_le_bytes());
    data.extend_from_slice(&(-1i32).to_le_bytes());
    data.extend_from_slice(&1u16.to_le_bytes());
    data.extend_from_slice(&bits.to_le_bytes());
    data.extend_from_slice(&[0; 24]);
    if bits == 32 {
        data.extend_from_slice(&[1, 2, 3, 255, 4, 5, 6, 255]);
    } else {
        data.extend_from_slice(&[1, 2, 3, 4, 5, 6, 0, 0]);
    }
    data
}

/// The same pixels with a 124-byte header and the given red mask.
fn dibv5(red_mask: u32) -> Vec<u8> {
    let mut data = vec![0u8; 124];
    data[0..4].copy_from_slice(&124u32.to_le_bytes());
    data[4..8].copy_from_slice(&2i32.to_le_bytes());
    data[8..12].copy_from_slice(&(-1i32).to_le_bytes());
    data[12..14].copy_from_slice(&1u16.to_le_bytes());
    data[14..16].copy_from_slice(&32u16.to_le_bytes());
    data[16..20].copy_from_slice(&3u32.to_le_bytes());
    data[40..44].copy_from_slice(&red_mask.to_le_bytes());
    data[44..48].copy_from_slice(&0x0000_FF00u32.to_le_bytes());
    data[48..52].copy_from_slice(&0x0000_00FFu32.to_le_bytes());
    data[52..56].copy_from_slice(&0xFF00_0000u32.to_le_bytes());
    data.extend_from_slice(&[1, 2, 3, 255, 4, 5, 6, 255]);
    data
}

#[test]
fn routes_to_linux() {
    let plain = dib(32);
    let v5 = dibv5(0x00FF_0000);
    assert_eq!(linux_route("image/png", &plain), LinuxRoute::DibToPng);
    assert_eq!(linux_route("image/png", &v5), LinuxRoute::DibV5ToPng);
    assert_eq!(linux_route("image/png", &[1, 0, 0, 0]), LinuxRoute::DibV5ToPng);
    assert_eq!(linux_route("image/png", &[40, 0, 0]), LinuxRoute::TooSmall);
    assert_eq!(linux_route("image/jpeg", &plain), LinuxRoute::DibToJpeg);
    assert_eq!(linux_route("image/jpeg", &v5), LinuxRoute::DibV5ToJpeg);
    assert_eq!(linux_route("image/jpeg", &[]), LinuxRoute::TooSmall);
    assert_eq!(linux_route("image/bmp", &[]), LinuxRoute::DibToBmp);
    assert_eq!(linux_route("text/rtf", b"ab"), LinuxRoute::RichText);
    assert_eq!(linux_route("text/plain;charset=utf-8", b"ab"), LinuxRoute::UnicodeText);
    assert_eq!(linux_route("text/html", b"ab"), LinuxRoute::UnicodeText);
    assert_eq!(linux_route("text/plain", b"a"), LinuxRoute::PassThrough);
    assert_eq!(linux_route("text/uri-list", b"ab"), LinuxRoute::PassThrough);
}

#[test]
fn header_sizes_are_little_endian() {
    assert_eq!(header_size(&[40, 1, 0, 0]), Some(296));
    assert_eq!(header_size(&[40, 1, 0]), None);
}

#[test]
fn pixels_survive_png() {
    let original = dib(32);
    let png = to_linux(LinuxRoute::DibToPng, original.clone()).expect("a PNG file");
    assert_eq!(&png[1..4], b"PNG");
    let back = to_windows(WindowsRoute::PngToDib, png.clone()).expect("a bitmap");
    assert_eq!(header_size(&back), Some(40));
    assert_eq!(&back[40..], &original[40..]);

    let v5 = to_windows(WindowsRoute::PngToDibV5, png).expect("a bitmap");
    assert_eq!(header_size(&v5), Some(124));
    assert!(!blank_mask(&v5));
    let again = to_linux(LinuxRoute::DibV5ToPng, v5).expect("a PNG file");
    assert_eq!(&again[1..4], b"PNG");
}

#[test]
fn jpeg_is_made_and_read() {
    let jpeg = to_linux(LinuxRoute::DibToJpeg, dib(24)).expect("a JPEG file");
    assert_eq!(&jpeg[..2], &[0xFF, 0xD8]);
    let back = to_windows(WindowsRoute::JpegToDib, jpeg.clone()).expect("a bitmap");
    assert_eq!(header_size(&back), Some(40));
    // Two pixels of four bytes each.
    assert_eq!(back.len(), 48);
    assert_eq!(back[14], 32);
    let v5 = to_windows(WindowsRoute::JpegToDibV5, jpeg).expect("a bitmap");
    assert_eq!(header_size(&v5), Some(124));
    assert_eq!(v5.len(), 132);
    assert!(!blank_mask(&v5));
    // A bitmap with an alpha channel goes through a colour conversion.
    let from_v5 = to_linux(LinuxRoute::DibV5ToJpeg, dibv5(0x00FF_0000));
    if let Ok(bytes) = from_v5 {
        assert_eq!(&bytes[..2], &[0xFF, 0xD8]);
    }
}

/// A grey JPEG file without a picture: its tables, its frame and an empty scan.
fn grey_jpeg(frame: u8, side: u16, sampling: u8, quantiser: u16, category: u8) -> Vec<u8> {
    let mut data = vec![0xFF, 0xD8];
    // One 16-bit table.
    data.extend_from_slice(&[0xFF, 0xDB, 0, 131, 0x10]);
    data.extend_from_slice(&quantiser.to_be_bytes());
    data.extend_from_slice(&[0; 126]);
    data.extend_from_slice(&[0xFF, frame, 0, 11, 8]);
    data.extend_from_slice(&side.to_be_bytes());
    data.extend_from_slice(&side.to_be_bytes());
    data.extend_from_slice(&[1, 1, sampling, 0]);
    // One code of one bit.
    data.extend_from_slice(&[0xFF, 0xC4, 0, 20, 0x00, 1]);
    data.extend_from_slice(&[0; 15]);
    data.push(category);
    data.extend_from_slice(&[0xFF, 0xDA, 0, 8, 1, 1, 0, 0, 63, 0]);
    data.extend_from_slice(&[0x12, 0xFF, 0x00, 0xFF, 0xD3, 0xFF, 0xD9]);
    data
}

#[test]
fn jpeg_files_are_looked_at_before_they_are_decoded() {
    // What this side makes is usual.
    let jpeg = to_linux(LinuxRoute::DibToJpeg, dib(24)).expect("a JPEG file");
    assert!(calm_jpeg(&jpeg));
    assert!(fits(WindowsRoute::JpegToDib, &jpeg));
    assert!(fits(WindowsRoute::JpegToDibV5, &jpeg));

    assert!(calm_jpeg(&grey_jpeg(0xC0, 800, 0x11, 16, 11)));
    // Two steps of 32767 times 65535 do not fit 32 bits.
    let wild = grey_jpeg(0xC0, 16, 0x11, 65535, 15);
    assert!(!calm_jpeg(&wild));
    assert!(!fits(WindowsRoute::JpegToDib, &wild));
    assert!(fits(WindowsRoute::PassThrough, &wild));
    // In several passes only 16 bits are kept.
    assert!(calm_jpeg(&grey_jpeg(0xC2, 16, 0x11, 65535, 15)));
    // Nine blocks of 2047 times 65535 fit, of 4095 times 65535 they do not.
    assert!(calm_jpeg(&grey_jpeg(0xC1, 8, 0x11, 65535, 11)));
    assert!(!calm_jpeg(&grey_jpeg(0xC1, 8, 0x11, 65535, 12)));
    // Unusual sampling, sides and frames.
    assert!(calm_jpeg(&grey_jpeg(0xC0, 16, 0x22, 1, 11)));
    assert!(!calm_jpeg(&grey_jpeg(0xC0, 16, 0x44, 1, 11)));
    assert!(!calm_jpeg(&grey_jpeg(0xC0, 0xFFF9, 0x11, 1, 1)));
    assert!(!calm_jpeg(&grey_jpeg(0xC9, 16, 0x11, 1, 11)));
    // A second pass in a file of one pass.
    let mut twice = grey_jpeg(0xC0, 16, 0x11, 1, 11);
    let end = twice.len() - 2;
    twice.splice(end..end, [0xFF, 0xDA, 0, 8]);
    assert!(!calm_jpeg(&twice));
    // Behind the end of the image anything may follow.
    let mut more = grey_jpeg(0xC0, 16, 0x11, 1, 11);
    more.extend_from_slice(&[0xFF, 0xDA]);
    assert!(calm_jpeg(&more));
    // What is cut off or no JPEG file at all is refused by the decoder.
    let cut = &grey_jpeg(0xC0, 16, 0x11, 65535, 15)[..40];
    assert!(calm_jpeg(cut));
    for data in [cut.to_vec(), vec![1, 2, 3], Vec::new()] {
        assert!(calm_jpeg(&data));
        assert!(matches!(
            to_windows(WindowsRoute::JpegToDib, data),
            Err(ClipboardError::Core(_))
        ));
    }
}

/// The place of the first segment with this marker.
fn segment(jpeg: &[u8], marker: u8) -> usize {
    let mut at = 2;
    while jpeg[at + 1] != marker {
        at += 2 + 0x100 * jpeg[at + 2] as usize + jpeg[at + 3] as usize;
    }
    at
}

#[test]
fn intervals_bound_the_brightness() {
    // A code of zeros alone for no step, and another one for steps of 11 bits.
    let mut large = grey_jpeg(0xC0, 8000, 0x11, 16, 11);
    let at = segment(&large, 0xC4);
    large.splice(at..at + 22, [&[0xFF, 0xC4, 0, 21, 0, 1, 1][..], &[0; 14], &[0, 11]].concat());
    assert!(!calm_jpeg(&large));
    let with_interval = |interval: u16| {
        let mut jpeg = large.clone();
        let at = segment(&jpeg, 0xDA);
        let [high, low] = interval.to_be_bytes();
        jpeg.splice(at..at, [0xFF, 0xDD, 0, 4, high, low]);
        jpeg
    };
    assert!(calm_jpeg(&with_interval(1000)));
    assert!(!calm_jpeg(&with_interval(0)));
    assert!(!calm_jpeg(&with_interval(0xFFFF)));
    // The last word counts.
    let mut taken_back = with_interval(1000);
    let at = segment(&taken_back, 0xDA);
    taken_back.splice(at..at, [0xFF, 0xDD, 0, 4, 0, 0]);
    assert!(!calm_jpeg(&taken_back));
    // Where zeros are a step, an interval that is cut off has no bound.
    let mut restless = with_interval(1000);
    let at = segment(&restless, 0xC4);
    restless.splice(at..at, [&[0xFF, 0xC4, 0, 20, 3][..], &[1], &[0; 15], &[11]].concat());
    assert!(!calm_jpeg(&restless));
    // An interval that is longer than the picture changes nothing of it.
    let jpeg = to_linux(LinuxRoute::DibToJpeg, dib(24)).expect("a JPEG file");
    let mut marked = jpeg.clone();
    let at = segment(&marked, 0xDA);
    marked.splice(at..at, [0xFF, 0xDD, 0, 4, 0, 9]);
    assert_eq!(
        to_windows(WindowsRoute::JpegToDib, marked).expect("a bitmap"),
        to_windows(WindowsRoute::JpegToDib, jpeg).expect("a bitmap")
    );
}

#[test]
fn four_components_are_taken_in_one_pass() {
    let four = |frame: u8, last_sampling: u8| {
        let mut jpeg = vec![0xFF, 0xD8, 0xFF, 0xDB, 0, 67, 0];
        jpeg.extend_from_slice(&[1; 64]);
        jpeg.extend_from_slice(&[0xFF, frame, 0, 20, 8, 0, 8, 0, 8, 4, 1, 0x11, 0, 2, 0x11, 0]);
        jpeg.extend_from_slice(&[3, 0x11, 0, 4, last_sampling, 0]);
        // In either table one code: no step, and the end of a block.
        for table in [0x00, 0x10] {
            jpeg.extend_from_slice(&[0xFF, 0xC4, 0, 20, table, 1]);
            jpeg.extend_from_slice(&[0; 16]);
        }
        jpeg.extend_from_slice(&[0xFF, 0xDA, 0, 14, 4, 1, 0, 2, 0, 3, 0, 4, 0, 0, 63, 0]);
        jpeg.extend_from_slice(&[0x00, 0xFF, 0xD9]);
        jpeg
    };
    assert!(calm_jpeg(&four(0xC0, 0x11)));
    assert!(!calm_jpeg(&four(0xC0, 0x22)));
    assert!(!calm_jpeg(&four(0xC2, 0x11)));
    // Half of each ink, and half of black on top.
    let bitmap = to_windows(WindowsRoute::JpegToDib, four(0xC0, 0x11)).expect("a bitmap");
    assert_eq!(bitmap[40..], [64, 64, 64, 255].repeat(64));
}

#[test]
fn grey_survives_jpeg() {
    let mut grey = dib(24);
    for byte in &mut grey[40..46] {
        *byte = 128;
    }
    let jpeg = to_linux(LinuxRoute::DibToJpeg, grey).expect("a JPEG file");
    let back = to_windows(WindowsRoute::JpegToDib, jpeg).expect("a bitmap");
    assert_eq!(&back[40..], &[128, 128, 128, 255, 128, 128, 128, 255]);
}

#[test]
fn image_files_of_another_kind_are_refused() {
    let png = to_linux(LinuxRoute::DibToPng, dib(32)).expect("a PNG file");
    let jpeg = to_linux(LinuxRoute::DibToJpeg, dib(24)).expect("a JPEG file");
    for route in [WindowsRoute::JpegToDib, WindowsRoute::JpegToDibV5] {
        assert!(matches!(to_windows(route, png.clone()), Err(ClipboardError::Core(_))));
    }
    for route in [WindowsRoute::PngToDib, WindowsRoute::PngToDibV5] {
        assert!(matches!(to_windows(route, jpeg.clone()), Err(ClipboardError::Core(_))));
    }
}

#[test]
fn bmp_files_are_bitmaps_behind_a_header() {
    let original = dib(32);
    let bmp = to_linux(LinuxRoute::DibToBmp, original.clone()).expect("a BMP file");
    assert_eq!(&bmp[..2], b"BM");
    assert_eq!(bmp.len(), original.len() + 14);
    // The size of the file and, behind four zeros, the place of the pixels.
    assert_eq!(&bmp[2..14], &[62, 0, 0, 0, 0, 0, 0, 0, 54, 0, 0, 0]);
    // A colour table of 256 entries stands in front of the pixels.
    let mut indexed = dib(8);
    indexed.resize(40 + 1024, 7);
    let bmp = to_linux(LinuxRoute::DibToBmp, indexed.clone()).expect("a BMP file");
    assert_eq!(&bmp[2..14], &[54, 4, 0, 0, 0, 0, 0, 0, 54, 4, 0, 0][..]);
    indexed.pop();
    assert!(to_linux(LinuxRoute::DibToBmp, indexed).is_err());
    let bmp = to_linux(LinuxRoute::DibToBmp, original.clone()).expect("a BMP file");
    assert_eq!(to_windows(WindowsRoute::BmpToDib, bmp).expect("a bitmap"), original);
    assert!(matches!(
        to_windows(WindowsRoute::BmpToDib, b"not a bitmap file".to_vec()),
        Err(ClipboardError::Core(_))
    ));
}

#[test]
fn failed_conversions_are_reported() {
    assert!(matches!(
        to_linux(LinuxRoute::TooSmall, vec![1]),
        Err(ClipboardError::TooSmallForBitmap)
    ));
    assert!(matches!(
        to_linux(LinuxRoute::DibToPng, vec![40, 0, 0, 0]),
        Err(ClipboardError::Core(_))
    ));
    assert!(matches!(
        to_linux(LinuxRoute::DibV5ToPng, vec![1, 0, 0, 0]),
        Err(ClipboardError::Core(_))
    ));
    assert!(matches!(
        to_windows(WindowsRoute::PngToDib, vec![1, 2, 3]),
        Err(ClipboardError::Core(_))
    ));
    assert!(matches!(
        to_windows(WindowsRoute::JpegToDibV5, vec![1, 2, 3]),
        Err(ClipboardError::Core(_))
    ));
    assert!(matches!(
        to_linux(LinuxRoute::DibToBmp, vec![1, 2, 3]),
        Err(ClipboardError::Core(_))
    ));
}

#[test]
fn blank_masks_are_noticed() {
    assert!(blank_mask(&dibv5(0)));
    assert!(!blank_mask(&dibv5(0x00FF_0000)));
    assert!(!blank_mask(&dib(32)));
    // Without a single whole pixel nothing is read through the mask.
    assert!(!blank_mask(&dibv5(0)[..130]));
}

#[test]
fn rows_that_cannot_be_rounded_up_are_refused() {
    let routes = [
        LinuxRoute::DibToPng,
        LinuxRoute::DibV5ToPng,
        LinuxRoute::DibToJpeg,
        LinuxRoute::DibV5ToJpeg,
    ];
    for (header, width) in [(40u32, 0x5555_5555u32), (124, 0x5555_5555), (40, 0xAAAA_AAAB)] {
        for height in [0u32, 1, 0x8000_0000] {
            let mut data = vec![0u8; header as usize + 16];
            data[0..4].copy_from_slice(&header.to_le_bytes());
            data[4..8].copy_from_slice(&width.to_le_bytes());
            data[8..12].copy_from_slice(&height.to_le_bytes());
            data[14] = 24;
            assert!(unroundable_row(&data));
            for route in routes {
                assert!(matches!(
                    to_linux(route, data.clone()),
                    Err(ClipboardError::RowTooLong)
                ));
            }
            // Neighbouring widths and other depths are left to the converter.
            data[4..8].copy_from_slice(&0x5555_5554u32.to_le_bytes());
            assert!(!unroundable_row(&data));
            data[4..8].copy_from_slice(&width.to_le_bytes());
            data[14] = 32;
            assert!(!unroundable_row(&data));
            for route in routes {
                assert!(matches!(
                    to_linux(route, data.clone()),
                    Err(ClipboardError::Core(_))
                ));
            }
        }
    }
    // A BMP file keeps the rows as they are.
    let mut data = dib(24);
    data[4..8].copy_from_slice(&0x5555_5555u32.to_le_bytes());
    assert!(to_linux(LinuxRoute::DibToBmp, data).is_ok());
    assert!(!unroundable_row(&dib(24)));
}

#[test]
fn other_data_passes_through() {
    assert_eq!(to_windows(WindowsRoute::PassThrough, vec![1, 2]).unwrap(), vec![1, 2]);
    assert_eq!(to_linux(LinuxRoute::PassThrough, vec![1, 2]).unwrap(), vec![1, 2]);
    assert_eq!(
        to_linux(LinuxRoute::UnicodeText, utf16le("x\r\n")).unwrap(),
        b"x\n".to_vec()
    );
    assert_eq!(
        to_linux(LinuxRoute::RichText, b"x\r\n".to_vec()).unwrap(),
        b"x\n".to_vec()
    );
    assert_eq!(
        to_windows(WindowsRoute::UnicodeText, b"x".to_vec()).unwrap(),
        vec![0x78, 0, 0, 0]
    );
}
