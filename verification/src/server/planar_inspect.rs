//! Offline inspection of a dumped RDP6 planar stream: its header, what a decoder
//! makes of it, and where the first scanline stops making sense.
use vstd::arithmetic::div_mod::lemma_multiply_divide_lt;
use vstd::prelude::*;
use ironrdp_graphics::rdp6::{BitmapDecodeError, BitmapStreamDecoder};
use crate::server::planar::{encoding_of, FORMAT_HEADER};
use crate::server::planar_decode::{
    decode_stream, decode_values, lemma_encode_is_lossless, literal_count, run_count, DecodedPlanes,
};

verus! {

/// The fields of a stream's first byte.
#[derive(Clone, Copy, Debug, PartialEq, Eq)]
pub struct StreamHeader {
    pub color_loss_level: u8,
    pub chroma_subsampling: bool,
    pub rle_enabled: bool,
    pub no_alpha: bool,
}

impl StreamHeader {
    /// Takes the format header apart: three bits of colour loss level, then one
    /// bit each for chroma subsampling, run-length encoding and "no alpha".
    pub fn parse(header: u8) -> (fields: Self)
        ensures
            fields.color_loss_level == header % 8,
            fields.chroma_subsampling == (header / 8 % 2 == 1),
            fields.rle_enabled == (header / 16 % 2 == 1),
            fields.no_alpha == (header / 32 % 2 == 1),
    {
        assert(header & 0x07 == header % 8) by (bit_vector);
        assert((header & 0x08 != 0) == (header / 8 % 2 == 1)) by (bit_vector);
        assert((header & 0x10 != 0) == (header / 16 % 2 == 1)) by (bit_vector);
        assert((header & 0x20 != 0) == (header / 32 % 2 == 1)) by (bit_vector);
        StreamHeader {
            color_loss_level: header & 0x07,
            chroma_subsampling: (header & 0x08) != 0,
            rle_enabled: (header & 0x10) != 0,
            no_alpha: (header & 0x20) != 0,
        }
    }

    /// How many colour planes follow the header.
    pub fn plane_count(&self) -> (count: usize)
        ensures
            count == if self.no_alpha {
                3int
            } else {
                4int
            },
    {
        if self.no_alpha {
            3
        } else {
            4
        }
    }
}

// ---------------------------------------------------------------------------
// Decoding
// ---------------------------------------------------------------------------

/// Declares `ironrdp_graphics::rdp6::BitmapDecodeError`, the decoder's error.
/// Claimed: nothing; it is only carried through.
#[verifier::external_type_specification]
#[verifier::external_body]
pub struct ExBitmapDecodeError(BitmapDecodeError);

/// The RGB24 bytes that `ironrdp_graphics` reads out of a stream for a bitmap of
/// the given size, or `None` where it reports an error.
pub uninterp spec fn rgb24_of(stream: Seq<u8>, width: nat, height: nat) -> Option<Seq<u8>>;

/// The RGB24 bytes of three colour planes, row after row.
pub open spec fn rgb24_of_planes(planes: DecodedPlanes, width: nat, height: nat) -> Seq<u8> {
    Seq::new(
        width * height * 3,
        |i: int|
            {
                let y = i / 3 / width as int;
                let x = i / 3 % width as int;
                if i % 3 == 0 {
                    planes.red[y][x]
                } else if i % 3 == 1 {
                    planes.green[y][x]
                } else {
                    planes.blue[y][x]
                }
            },
    )
}

/// The RGB24 bytes of a BGRX bitmap.
pub open spec fn rgb24_of_bitmap(bgra: Seq<u8>, width: nat, height: nat, stride: int) -> Seq<u8> {
    Seq::new(
        width * height * 3,
        |i: int| bgra[i / 3 / width as int * stride + i / 3 % width as int * 4 + (2 - i % 3)],
    )
}

/// The stream has the header that the encoder writes: three colour planes, run-length
/// encoded, nothing lost.
pub open spec fn has_encoder_header(stream: Seq<u8>) -> bool {
    stream.len() > 0 && stream[0] == FORMAT_HEADER
}

/// Every column has a pixel. The decoder reads a first row before it counts rows, so
/// that it finds none in a bitmap with columns and without rows.
pub open spec fn has_rows(width: nat, height: nat) -> bool {
    height > 0 || width == 0
}

/// Calls `BitmapStreamDecoder::decode_bitmap_stream_to_rgb24` of `ironrdp_graphics`
/// on a fresh decoder and an empty buffer. Claimed: the outcome depends on the
/// stream and the size alone, a decoded bitmap has three bytes for each pixel, and a
/// stream with the header that the encoder writes is read as `decode_stream` says,
/// by rows, planes and segments, and refused where that finds no planes. Rows
/// without columns are counted one by one.
#[verifier::external_body]
fn decode_rgb24(stream: &[u8], width: usize, height: usize) -> (decoded: Result<
    Vec<u8>,
    BitmapDecodeError,
>)
    requires
        width * height * 3 <= isize::MAX,
        width > 0 || height <= 0xFFFF_FFFF,
    ensures
        decoded is Ok <==> rgb24_of(stream@, width as nat, height as nat) is Some,
        decoded is Ok ==> decoded->Ok_0@ == rgb24_of(stream@, width as nat, height as nat)->Some_0,
        decoded is Ok ==> decoded->Ok_0@.len() == width * height * 3,
        has_encoder_header(stream@) && has_rows(width as nat, height as nat) ==> match decode_stream(
            stream@,
            width as nat,
            height as nat,
        ) {
            Some(planes) => decoded is Ok && decoded->Ok_0@ == rgb24_of_planes(
                planes,
                width as nat,
                height as nat,
            ),
            None => decoded is Err,
        },
{
    let mut pixels = Vec::new();
    BitmapStreamDecoder::default()
        .decode_bitmap_stream_to_rgb24(stream, &mut pixels, width, height)
        .map(|_done| pixels)
}

/// What is worth knowing of a decoded bitmap.
#[derive(Debug)]
pub struct DecodedSummary {
    /// The decoded RGB24 bytes.
    pub rgb: Vec<u8>,
    /// There are three bytes for each pixel.
    pub size_matches: bool,
    /// The one value of all decoded bytes, where they are all the same.
    pub uniform: Option<u8>,
}

pub open spec fn is_uniform(rgb: Seq<u8>) -> bool {
    forall|i: int, j: int| 0 <= i < rgb.len() && 0 <= j < rgb.len() ==> rgb[i] == rgb[j]
}

/// Sums up decoded RGB24 bytes against the expected size.
pub fn summarize(rgb: Vec<u8>, expected: usize) -> (summary: DecodedSummary)
    ensures
        summary.rgb == rgb,
        summary.size_matches == (rgb@.len() == expected),
        summary.uniform == if rgb@.len() > 0 && is_uniform(rgb@) {
            Some(rgb@[0])
        } else {
            None
        },
{
    let size_matches: bool = rgb.len() == expected;
    let mut i: usize = 0;
    let mut same: bool = true;
    while i < rgb.len() && same
        invariant
            i <= rgb@.len(),
            same ==> forall|k: int| 0 <= k < i ==> #[trigger] rgb@[k] == rgb@[0],
            !same ==> !is_uniform(rgb@),
        decreases rgb@.len() - i + if same { 1int } else { 0int },
    {
        if rgb[i] != rgb[0] {
            same = false;
        } else {
            i += 1;
        }
    }
    let uniform: Option<u8> = if same && rgb.len() > 0 {
        Some(rgb[0])
    } else {
        None
    };
    DecodedSummary { rgb, size_matches, uniform }
}

/// The pixels of a bitmap come back out of its encoding: the planes that the format's
/// rules find in it are the bitmap's red, green and blue bytes.
pub proof fn lemma_pixels_come_back(bgra: Seq<u8>, width: nat, height: nat, stride: int)
    ensures
        ({
            let stream = encoding_of(bgra, width, height, stride);
            &&& has_encoder_header(stream)
            &&& decode_stream(stream, width, height) is Some
            &&& rgb24_of_planes(decode_stream(stream, width, height)->Some_0, width, height)
                == rgb24_of_bitmap(bgra, width, height, stride)
        }),
{
    lemma_encode_is_lossless(bgra, width, height, stride);
    let planes = decode_stream(encoding_of(bgra, width, height, stride), width, height)->Some_0;
    let found = rgb24_of_planes(planes, width, height);
    let pixels = rgb24_of_bitmap(bgra, width, height, stride);
    assert forall|i: int| 0 <= i < width * height * 3 implies found[i] == pixels[i] by {
        let pixel = i / 3;
        let w = width as int;
        let h = height as int;
        assert(0 <= pixel < h * w && w > 0) by (nonlinear_arith)
            requires
                0 <= i < w * h * 3,
                pixel == i / 3,
                0 <= w,
                0 <= h,
        ;
        lemma_multiply_divide_lt(pixel, w, h);
        assert(0 <= pixel / w && 0 <= pixel % w < w) by (nonlinear_arith)
            requires
                0 <= pixel,
                0 < w,
        ;
        let row = pixel / w;
        let column = pixel % w;
        assert(planes.red[row][column] == bgra[row * stride + column * 4 + 2]);
        assert(planes.green[row][column] == bgra[row * stride + column * 4 + 1]);
        assert(planes.blue[row][column] == bgra[row * stride + column * 4 + 0]);
    }
    assert(found =~= pixels);
}

/// Decodes a stream for a bitmap of the given size and sums the result up. The
/// decoder reads what the encoder wrote: the encoding of a bitmap gives its pixels.
pub fn inspect_stream(data: &[u8], width: usize, height: usize) -> (outcome: Result<
    DecodedSummary,
    BitmapDecodeError,
>)
    requires
        width * height * 3 <= isize::MAX,
        width > 0 || height <= 0xFFFF_FFFF,
    ensures
        outcome is Ok <==> rgb24_of(data@, width as nat, height as nat) is Some,
        outcome is Ok ==> ({
            let rgb = rgb24_of(data@, width as nat, height as nat)->Some_0;
            let summary = outcome->Ok_0;
            &&& summary.rgb@ == rgb
            &&& summary.size_matches
            &&& summary.uniform == if rgb.len() > 0 && is_uniform(rgb) {
                Some(rgb[0])
            } else {
                None
            }
        }),
        has_encoder_header(data@) && has_rows(width as nat, height as nat) ==> match decode_stream(
            data@,
            width as nat,
            height as nat,
        ) {
            Some(planes) => outcome is Ok && outcome->Ok_0.rgb@ == rgb24_of_planes(
                planes,
                width as nat,
                height as nat,
            ),
            None => outcome is Err,
        },
        forall|bgra: Seq<u8>, stride: int|
            has_rows(width as nat, height as nat) && data@ == #[trigger] encoding_of(
                bgra,
                width as nat,
                height as nat,
                stride,
            ) ==> outcome is Ok && outcome->Ok_0.rgb@ == rgb24_of_bitmap(
                bgra,
                width as nat,
                height as nat,
                stride,
            ),
{
    proof {
        assert forall|bgra: Seq<u8>, stride: int|
            data@ == #[trigger] encoding_of(bgra, width as nat, height as nat, stride) implies ({
            &&& has_encoder_header(data@)
            &&& decode_stream(data@, width as nat, height as nat) is Some
            &&& rgb24_of_planes(
                decode_stream(data@, width as nat, height as nat)->Some_0,
                width as nat,
                height as nat,
            ) == rgb24_of_bitmap(bgra, width as nat, height as nat, stride)
        }) by {
            lemma_pixels_come_back(bgra, width as nat, height as nat, stride);
        }
    }
    match decode_rgb24(data, width, height) {
        Ok(rgb) => {
            assert(width * height >= 0) by (nonlinear_arith);
            Ok(summarize(rgb, width * height * 3))
        },
        Err(error) => Err(error),
    }
}

// ---------------------------------------------------------------------------
// Scanning the first scanline
// ---------------------------------------------------------------------------

/// One segment met on the way.
#[derive(Clone, Copy, Debug, PartialEq, Eq)]
pub struct Segment {
    pub control: u8,
    pub raw_count: usize,
    pub run: usize,
}

/// How a scan ended.
#[derive(Clone, Copy, Debug, PartialEq, Eq)]
pub enum ScanEnd {
    /// The scanline, or the data, is finished after `consumed` bytes.
    Done { consumed: usize },
    /// A control byte is zero.
    InvalidControl { offset: usize },
    /// A segment announces more literals than there are bytes.
    NotEnoughBytes { needed: usize, available: usize },
    /// A segment reaches beyond the scanline.
    Overflow { column: usize },
}

/// The segments of a scanline, the column that they reach, and the end.
#[derive(Debug)]
pub struct Scan {
    pub segments: Vec<Segment>,
    pub column: usize,
    pub end: ScanEnd,
}

pub ghost struct ScanModel {
    pub segments: Seq<Segment>,
    pub column: int,
    pub end: ScanEnd,
}

pub open spec fn segment_of(control: u8) -> Segment {
    Segment {
        control,
        raw_count: literal_count(control) as usize,
        run: run_count(control) as usize,
    }
}

/// Scans on from byte `at`, with `column` values behind it.
pub open spec fn scan_from(src: Seq<u8>, at: int, column: int, width: int) -> ScanModel
    decreases src.len() - at,
{
    if column >= width || at >= src.len() {
        ScanModel { segments: seq![], column, end: ScanEnd::Done { consumed: at as usize } }
    } else if src[at] == 0 {
        ScanModel { segments: seq![], column, end: ScanEnd::InvalidControl { offset: at as usize } }
    } else {
        let segment = segment_of(src[at]);
        let next = at + 1 + segment.raw_count;
        let reached = column + segment.raw_count + segment.run;
        if next > src.len() {
            ScanModel {
                segments: seq![segment],
                column,
                end: ScanEnd::NotEnoughBytes {
                    needed: segment.raw_count,
                    available: (src.len() - at - 1) as usize,
                },
            }
        } else if reached > width {
            ScanModel {
                segments: seq![segment],
                column: reached,
                end: ScanEnd::Overflow { column: reached as usize },
            }
        } else {
            let more = scan_from(src, next, reached, width);
            ScanModel { segments: seq![segment] + more.segments, ..more }
        }
    }
}

/// Walks over the control bytes of the first scanline.
pub fn scan_scanline(src: &[u8], width: usize) -> (scan: Scan)
    requires
        width + 47 <= usize::MAX,
    ensures
        ({
            let model = scan_from(src@, 0, 0, width as int);
            &&& scan.segments@ == model.segments
            &&& scan.column == model.column
            &&& scan.end == model.end
        }),
{
    let total: usize = src.len();
    let ghost model = scan_from(src@, 0, 0, width as int);
    let mut segments: Vec<Segment> = Vec::new();
    let mut at: usize = 0;
    let mut column: usize = 0;
    assert(seq![] + model.segments =~= model.segments);
    while column < width && at < total
        invariant
            total == src@.len(),
            at <= total,
            column <= width,
            width + 47 <= usize::MAX,
            model == scan_from(src@, 0, 0, width as int),
            ({
                let rest = scan_from(src@, at as int, column as int, width as int);
                &&& segments@ + rest.segments == model.segments
                &&& rest.column == model.column
                &&& rest.end == model.end
            }),
        decreases total - at,
    {
        let control: u8 = src[at];
        if control == 0 {
            assert(segments@ =~= model.segments);
            return Scan { segments, column, end: ScanEnd::InvalidControl { offset: at } };
        }
        assert(control & 0x0f == control % 16) by (bit_vector);
        assert((control >> 4) & 0x0f == control / 16) by (bit_vector);
        let rle: usize = (control & 0x0f) as usize;
        let raw: usize = ((control >> 4) & 0x0f) as usize;
        let segment = match rle {
            1 => Segment { control, raw_count: 0, run: 16 + raw },
            2 => Segment { control, raw_count: 0, run: 32 + raw },
            _ => Segment { control, raw_count: raw, run: rle },
        };
        assert(segment == segment_of(control));
        let ghost before = segments@;
        let ghost rest = scan_from(src@, at as int, column as int, width as int);
        segments.push(segment);
        at += 1;
        if segment.raw_count > total - at {
            assert(segments@ =~= before + rest.segments);
            return Scan {
                segments,
                column,
                end: ScanEnd::NotEnoughBytes {
                    needed: segment.raw_count,
                    available: total - at,
                },
            };
        }
        column += segment.raw_count + segment.run;
        at += segment.raw_count;
        if column > width {
            assert(segments@ =~= before + rest.segments);
            return Scan { segments, column, end: ScanEnd::Overflow { column } };
        }
        assert(segments@ + scan_from(src@, at as int, column as int, width as int).segments
            =~= before + rest.segments);
    }
    assert(segments@ =~= model.segments);
    Scan { segments, column, end: ScanEnd::Done { consumed: at } }
}

proof fn lemma_scan_of_decodable(src: Seq<u8>, at: int, column: int, width: int, last: u8)
    requires
        0 <= at <= src.len() <= usize::MAX,
        0 <= column <= width,
        decode_values(src.skip(at), (width - column) as nat, last) is Some,
    ensures
        ({
            let scan = scan_from(src, at, column, width);
            let unread = decode_values(src.skip(at), (width - column) as nat, last)->Some_0.1;
            &&& scan.column == width
            &&& scan.end == ScanEnd::Done { consumed: (src.len() - unread.len()) as usize }
        }),
    decreases width - column,
{
    if column < width {
        let rest = src.skip(at);
        let literals = literal_count(rest[0]);
        let run = run_count(rest[0]);
        assert(rest.skip(1 + literals as int) =~= src.skip(at + 1 + literals));
        let value = if literals > 0 {
            rest.subrange(1, 1 + literals as int).last()
        } else {
            last
        };
        lemma_scan_of_decodable(src, at + 1 + literals, column + literals + run, width, value);
    }
}

/// A scanline that can be decoded is scanned to its end, and the scan consumes
/// what decoding consumes.
pub proof fn lemma_scan_agrees_with_decoding(src: Seq<u8>, width: nat)
    requires
        src.len() <= usize::MAX,
        decode_values(src, width, 0) is Some,
    ensures
        scan_from(src, 0, 0, width as int).column == width,
        scan_from(src, 0, 0, width as int).end == (ScanEnd::Done {
            consumed: (src.len() - decode_values(src, width, 0)->Some_0.1.len()) as usize,
        }),
{
    assert(src.skip(0) =~= src);
    lemma_scan_of_decodable(src, 0, 0, width as int, 0);
}

/// How many values the segments of a scan stand for.
pub open spec fn values_of(segments: Seq<Segment>) -> int
    decreases segments.len(),
{
    if segments.len() == 0 {
        0
    } else {
        segments[0].raw_count + segments[0].run + values_of(segments.skip(1))
    }
}

/// How many bytes the segments of a scan take.
pub open spec fn bytes_of(segments: Seq<Segment>) -> int
    decreases segments.len(),
{
    if segments.len() == 0 {
        0
    } else {
        1 + segments[0].raw_count + bytes_of(segments.skip(1))
    }
}

/// The end of a scan is where it says, and for the reason that it gives: after whole
/// segments that fill the scanline or end the data, at a zero, in front of literals
/// that are missing, or behind the end of the scanline.
pub proof fn lemma_scans_end_for_a_reason(src: Seq<u8>, at: int, column: int, width: int)
    requires
        0 <= at <= src.len() <= usize::MAX,
        0 <= column,
        width + 47 <= usize::MAX,
        column <= width,
    ensures
        ({
            let scan = scan_from(src, at, column, width);
            match scan.end {
                ScanEnd::Done { consumed } => {
                    &&& scan.column == column + values_of(scan.segments)
                    &&& consumed == at + bytes_of(scan.segments)
                    &&& scan.column == width || consumed == src.len()
                },
                ScanEnd::InvalidControl { offset } => {
                    &&& at <= offset < src.len()
                    &&& src[offset as int] == 0
                    &&& offset == at + bytes_of(scan.segments)
                    &&& scan.column == column + values_of(scan.segments) && scan.column < width
                },
                ScanEnd::NotEnoughBytes { needed, available } => {
                    &&& needed > available
                    &&& scan.segments.len() > 0 && scan.segments.last().raw_count == needed
                    &&& at + bytes_of(scan.segments) - needed + available == src.len()
                    &&& scan.column < width
                },
                ScanEnd::Overflow { column: reached } => {
                    &&& reached > width
                    &&& reached == scan.column
                    &&& reached == column + values_of(scan.segments)
                    &&& at + bytes_of(scan.segments) <= src.len()
                },
            }
        }),
    decreases src.len() - at,
{
    if column < width && at < src.len() && src[at] != 0 {
        let segment = segment_of(src[at]);
        let next = at + 1 + segment.raw_count;
        let reached = column + segment.raw_count + segment.run;
        assert(seq![segment].skip(1) =~= seq![]);
        assert(values_of(seq![segment].skip(1)) == 0 && bytes_of(seq![segment].skip(1)) == 0);
        if next <= src.len() && reached <= width {
            lemma_scans_end_for_a_reason(src, next, reached, width);
            let more = scan_from(src, next, reached, width);
            assert((seq![segment] + more.segments).skip(1) =~= more.segments);
            if more.segments.len() > 0 {
                assert((seq![segment] + more.segments).last() == more.segments.last());
            }
        }
    }
}

/// The segments of a scan are what the control bytes say: the high half literals and
/// the low half repeats, or a run of 16 or 32 more than the high half.
pub proof fn lemma_segments_say_what_they_hold(control: u8)
    ensures
        segment_of(control).control == control,
        control % 16 == 1 ==> segment_of(control).raw_count == 0 && segment_of(control).run == 16
            + control / 16,
        control % 16 == 2 ==> segment_of(control).raw_count == 0 && segment_of(control).run == 32
            + control / 16,
        control % 16 != 1 && control % 16 != 2 ==> segment_of(control).raw_count == control / 16
            && segment_of(control).run == control % 16,
{
}

/// Bytes are uniform where each of them is the first.
pub proof fn lemma_uniform_bytes_are_the_first(rgb: Seq<u8>)
    ensures
        is_uniform(rgb) <==> forall|i: int| 0 <= i < rgb.len() ==> #[trigger] rgb[i] == rgb[0],
{
    if forall|i: int| 0 <= i < rgb.len() ==> #[trigger] rgb[i] == rgb[0] {
        assert forall|i: int, j: int| 0 <= i < rgb.len() && 0 <= j < rgb.len() implies rgb[i]
            == rgb[j] by {
            assert(rgb[i] == rgb[0] && rgb[j] == rgb[0]);
        }
    }
}

} // verus!
