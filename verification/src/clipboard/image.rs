//! Images on their way between the two clipboards. The Windows side speaks device
//! independent bitmaps (a 40-byte header, or 124 bytes for version 5), the Linux
//! side PNG, JPEG and BMP files. `lamco_clipboard_core` converts.
use vstd::arithmetic::power2::pow2;
use vstd::prelude::*;
use lamco_clipboard_core::ClipboardError as CoreError;
use crate::clipboard::jpeg::is_calm_jpeg;

verus! {

/// Declares `lamco_clipboard_core::ClipboardError`, the error of all conversions.
/// Claimed: nothing; it is only carried through.
#[verifier::external_type_specification]
#[verifier::external_body]
pub struct ExCoreError(CoreError);

/// A little-endian 32-bit number at `at`.
pub open spec fn le32(data: Seq<u8>, at: int) -> int {
    data[at] + 0x100 * data[at + 1] + 0x10000 * data[at + 2] + 0x1000000 * data[at + 3]
}

/// The magnitude of a signed 32-bit number that is given as an unsigned one.
pub open spec fn magnitude32(raw: int) -> int {
    if raw < 0x80000000 {
        raw
    } else {
        0x100000000 - raw
    }
}

/// The bytes begin with a bitmap header that claims `size` bytes for itself.
pub open spec fn has_header_size(data: Seq<u8>, size: int) -> bool {
    data.len() >= size && size >= 40 && le32(data, 0) == size
}

/// A 32-bit bitmap with a header of `size` bytes and four bytes for each of its
/// pixels.
pub open spec fn is_whole_bitmap(data: Seq<u8>, size: int) -> bool {
    &&& has_header_size(data, size)
    &&& data[14] == 32 && data[15] == 0
    &&& data.len() == size + 4 * (magnitude32(le32(data, 4)) * magnitude32(le32(data, 8)))
}

/// The bytes begin as a PNG file does.
pub open spec fn is_png(data: Seq<u8>) -> bool {
    data.len() >= 8 && data.take(8) == seq![137u8, 80, 78, 71, 13, 10, 26, 10]
}

/// The bytes begin as a JPEG file does.
pub open spec fn is_jpeg(data: Seq<u8>) -> bool {
    data.len() >= 2 && data[0] == 0xFF && data[1] == 0xD8
}

/// A 32-bit version 5 bitmap whose pixels are to be read through a colour mask
/// without any bit. No shift fits such a mask, so no colour can be taken out.
pub open spec fn has_blank_mask(data: Seq<u8>) -> bool {
    let width = magnitude32(le32(data, 4));
    let height = magnitude32(le32(data, 8));
    &&& has_header_size(data, 124)
    &&& data[14] == 32 && data[15] == 0
    &&& le32(data, 16) == 3
    &&& le32(data, 40) == 0 || le32(data, 44) == 0 || le32(data, 48) == 0
    &&& width > 0 && height > 0 && data.len() - 124 >= width * height * 4
}

/// A 24-bit bitmap whose rows of three bytes a pixel end one byte short of the
/// largest 32-bit address. Where addresses have 32 bits, such a row cannot be
/// rounded up to a multiple of four, and on no machine do the data hold one.
pub open spec fn has_unroundable_row(data: Seq<u8>) -> bool {
    &&& 40 <= data.len() <= 0xFFFF_FFFF
    &&& data[14] == 24 && data[15] == 0
    &&& magnitude32(le32(data, 4)) == 0x5555_5555
}

pub(crate) fn read_le32(data: &[u8], at: usize) -> (value: u32)
    requires
        at + 4 <= data@.len(),
    ensures
        value == le32(data@, at as int),
{
    let total: usize = data.len();
    assert(at + 4 <= total);
    data[at] as u32 + 0x100 * data[at + 1] as u32 + 0x10000 * data[at + 2] as u32 + 0x1000000
        * data[at + 3] as u32
}

/// The header size that a bitmap claims, where the data is long enough for one.
pub fn header_size(data: &[u8]) -> (size: Option<u32>)
    ensures
        data@.len() < 4 ==> size is None,
        data@.len() >= 4 ==> size is Some && size->Some_0 == le32(data@, 0),
{
    if data.len() >= 4 {
        Some(read_le32(data, 0))
    } else {
        None
    }
}

/// Whether a bitmap is to be read through a colour mask without any bit.
pub fn blank_mask(data: &[u8]) -> (blank: bool)
    ensures
        blank == has_blank_mask(data@),
{
    let total: usize = data.len();
    if total < 124 || read_le32(data, 0) != 124 || data[14] != 32 || data[15] != 0 || read_le32(
        data,
        16,
    ) != 3 {
        return false;
    }
    if read_le32(data, 40) != 0 && read_le32(data, 44) != 0 && read_le32(data, 48) != 0 {
        return false;
    }
    let width: u64 = magnitude(read_le32(data, 4));
    let height: u64 = magnitude(read_le32(data, 8));
    assert(0 <= width * height <= 0x80000000 * 0x80000000) by (nonlinear_arith)
        requires
            0 <= width <= 0x80000000,
            0 <= height <= 0x80000000,
    ;
    let pixels: u128 = width as u128 * height as u128;
    assert(width * height > 0 <==> width > 0 && height > 0) by (nonlinear_arith)
        requires
            0 <= width,
            0 <= height,
    ;
    pixels > 0 && (total - 124) as u128 >= pixels * 4
}

/// Whether the rows of a bitmap cannot be rounded up on every machine.
pub fn unroundable_row(data: &[u8]) -> (unroundable: bool)
    ensures
        unroundable == has_unroundable_row(data@),
{
    let total: usize = data.len();
    total >= 40 && total as u64 <= 0xFFFF_FFFF && data[14] == 24 && data[15] == 0 && magnitude(
        read_le32(data, 4),
    ) == 0x5555_5555
}

fn magnitude(raw: u32) -> (value: u64)
    ensures
        value == magnitude32(raw as int),
        value <= 0x80000000,
{
    if raw < 0x80000000 {
        raw as u64
    } else {
        0x100000000u64 - raw as u64
    }
}

// ---------------------------------------------------------------------------
// Outside conversions
// ---------------------------------------------------------------------------

/// A conversion came out as its name says: the bytes, or an error for `None`.
pub open spec fn yields(converted: Result<Vec<u8>, CoreError>, named: Option<Seq<u8>>) -> bool {
    match named {
        Some(bytes) => converted is Ok && converted->Ok_0@ == bytes,
        None => converted is Err,
    }
}

/// What `png_to_dib` makes of a PNG file.
pub uninterp spec fn dib_of_png(data: Seq<u8>) -> Option<Seq<u8>>;

/// What `jpeg_to_dib` makes of a JPEG file.
pub uninterp spec fn dib_of_jpeg(data: Seq<u8>) -> Option<Seq<u8>>;

/// What `png_to_dibv5` makes of a PNG file.
pub uninterp spec fn dibv5_of_png(data: Seq<u8>) -> Option<Seq<u8>>;

/// What `jpeg_to_dibv5` makes of a JPEG file.
pub uninterp spec fn dibv5_of_jpeg(data: Seq<u8>) -> Option<Seq<u8>>;

/// What `dib_to_png` makes of a bitmap.
pub uninterp spec fn png_of_dib(data: Seq<u8>) -> Option<Seq<u8>>;

/// What `dibv5_to_png` makes of a bitmap.
pub uninterp spec fn png_of_dibv5(data: Seq<u8>) -> Option<Seq<u8>>;

/// What `dib_to_jpeg` makes of a bitmap.
pub uninterp spec fn jpeg_of_dib(data: Seq<u8>) -> Option<Seq<u8>>;

/// What `dibv5_to_jpeg` makes of a bitmap.
pub uninterp spec fn jpeg_of_dibv5(data: Seq<u8>) -> Option<Seq<u8>>;

/// A number as four little-endian bytes.
pub open spec fn le32_bytes(value: int) -> Seq<u8> {
    seq![
        (value % 0x100) as u8,
        (value / 0x100 % 0x100) as u8,
        (value / 0x10000 % 0x100) as u8,
        (value / 0x1000000 % 0x100) as u8,
    ]
}

/// How many colours the table of a bitmap has.
pub open spec fn colour_count(data: Seq<u8>) -> int {
    let bits = data[14] + 0x100 * data[15];
    if le32(data, 32) != 0 {
        le32(data, 32)
    } else if bits <= 8 {
        pow2(bits as nat) as int
    } else {
        0
    }
}

/// Where the pixels of a bitmap begin: behind the header, the colour masks that may
/// follow a 40-byte header, and the colour table.
pub open spec fn pixel_offset(data: Seq<u8>) -> int {
    let masks: int = if le32(data, 0) == 40 && le32(data, 16) == 3 {
        12
    } else if le32(data, 0) == 40 && le32(data, 16) == 6 {
        16
    } else {
        0
    };
    le32(data, 0) + masks + 4 * colour_count(data)
}

/// What `dib_to_bmp` makes of a bitmap: a BMP file with a 14-byte header, which holds
/// the size of the file and the place of the pixels. A bitmap must have room for its
/// own header and table, and the file's size must fit 32 bits.
pub open spec fn bmp_of_dib(data: Seq<u8>) -> Option<Seq<u8>> {
    if data.len() >= 40 && le32(data, 0) >= 40 && pixel_offset(data) <= data.len() && 14 + data.len()
        <= 0xFFFF_FFFF {
        Some(
            seq![0x42u8, 0x4D] + le32_bytes(14int + data.len()) + seq![0u8, 0, 0, 0] + le32_bytes(
                14 + pixel_offset(data),
            ) + data,
        )
    } else {
        None
    }
}

/// A bitmap comes back out of the BMP file that was made of it.
pub proof fn lemma_bmp_round_trip(data: Seq<u8>)
    ensures
        bmp_of_dib(data) is Some ==> dib_of_bmp(bmp_of_dib(data)->Some_0) == Some(data),
{
    if bmp_of_dib(data) is Some {
        let file = bmp_of_dib(data)->Some_0;
        assert(file.skip(14) =~= data);
    }
}

/// What `bmp_to_dib` makes of a BMP file: the file without its 14-byte header.
pub open spec fn dib_of_bmp(data: Seq<u8>) -> Option<Seq<u8>> {
    if data.len() >= 14 && data[0] == 0x42 && data[1] == 0x4D {
        Some(data.skip(14))
    } else {
        None
    }
}

/// Calls `lamco_clipboard_core::image::png_to_dib`. Claimed: the outcome depends on
/// the data alone, only what begins as a PNG file is converted, and it becomes a
/// whole bitmap with a 40-byte header.
#[verifier::external_body]
pub(crate) fn png_to_dib(data: &[u8]) -> (converted: Result<Vec<u8>, CoreError>)
    ensures
        yields(converted, dib_of_png(data@)),
        converted is Ok ==> is_png(data@) && is_whole_bitmap(converted->Ok_0@, 40),
{
    lamco_clipboard_core::image::png_to_dib(data)
}

/// Calls `lamco_clipboard_core::image::jpeg_to_dib`. Claimed: the outcome depends on
/// the data alone, only what begins as a JPEG file is converted, and it becomes a
/// whole bitmap with a 40-byte header. The head of the data is usual: on others the
/// decoder below it can overflow or leave its buffers.
#[verifier::external_body]
pub(crate) fn jpeg_to_dib(data: &[u8]) -> (converted: Result<Vec<u8>, CoreError>)
    requires
        is_calm_jpeg(data@),
    ensures
        yields(converted, dib_of_jpeg(data@)),
        converted is Ok ==> is_jpeg(data@) && is_whole_bitmap(converted->Ok_0@, 40),
{
    lamco_clipboard_core::image::jpeg_to_dib(data)
}

/// Calls `lamco_clipboard_core::image::bmp_to_dib`. Claimed: it accepts what is at
/// least 14 bytes long and begins with `BM`, and takes the first 14 bytes off.
#[verifier::external_body]
pub(crate) fn bmp_to_dib(data: &[u8]) -> (converted: Result<Vec<u8>, CoreError>)
    ensures
        yields(converted, dib_of_bmp(data@)),
{
    lamco_clipboard_core::image::bmp_to_dib(data)
}

/// Calls `lamco_clipboard_core::image::png_to_dibv5`. Claimed: the outcome depends
/// on the data alone, only what begins as a PNG file is converted, and it becomes a
/// whole bitmap with a 124-byte header and without a blank mask.
#[verifier::external_body]
pub(crate) fn png_to_dibv5(data: &[u8]) -> (converted: Result<Vec<u8>, CoreError>)
    ensures
        yields(converted, dibv5_of_png(data@)),
        converted is Ok ==> is_png(data@) && is_whole_bitmap(converted->Ok_0@, 124)
            && !has_blank_mask(converted->Ok_0@),
{
    lamco_clipboard_core::image::png_to_dibv5(data)
}

/// Calls `lamco_clipboard_core::image::jpeg_to_dibv5`. Claimed: the outcome depends
/// on the data alone, only what begins as a JPEG file is converted, and it becomes a
/// whole bitmap with a 124-byte header and without a blank mask. The head of the
/// data is usual, as for `jpeg_to_dib`.
#[verifier::external_body]
pub(crate) fn jpeg_to_dibv5(data: &[u8]) -> (converted: Result<Vec<u8>, CoreError>)
    requires
        is_calm_jpeg(data@),
    ensures
        yields(converted, dibv5_of_jpeg(data@)),
        converted is Ok ==> is_jpeg(data@) && is_whole_bitmap(converted->Ok_0@, 124)
            && !has_blank_mask(converted->Ok_0@),
{
    lamco_clipboard_core::image::jpeg_to_dibv5(data)
}

/// Calls `lamco_clipboard_core::image::dib_to_png`. Claimed: the outcome depends on
/// the data alone, less than 40 bytes are an error, and what comes out begins as a
/// PNG file. A row that cannot be rounded up would overflow an address.
#[verifier::external_body]
pub(crate) fn dib_to_png(data: &[u8]) -> (converted: Result<Vec<u8>, CoreError>)
    requires
        !has_unroundable_row(data@),
    ensures
        yields(converted, png_of_dib(data@)),
        data@.len() < 40 ==> converted is Err,
        converted is Ok ==> is_png(converted->Ok_0@),
{
    lamco_clipboard_core::image::dib_to_png(data)
}

/// Calls `lamco_clipboard_core::image::dibv5_to_png`. Claimed: the outcome depends
/// on the data alone, a header of neither 40 nor 124 bytes is an error, and what
/// comes out begins as a PNG file. A blank colour mask would be shifted out of
/// range, and a row that cannot be rounded up would overflow an address.
#[verifier::external_body]
pub(crate) fn dibv5_to_png(data: &[u8]) -> (converted: Result<Vec<u8>, CoreError>)
    requires
        !has_blank_mask(data@),
        !has_unroundable_row(data@),
    ensures
        yields(converted, png_of_dibv5(data@)),
        converted is Ok ==> has_header_size(data@, 40) || has_header_size(data@, 124),
        converted is Ok ==> is_png(converted->Ok_0@),
{
    lamco_clipboard_core::image::dibv5_to_png(data)
}

/// Calls `lamco_clipboard_core::image::dib_to_jpeg`. Claimed: the outcome depends on
/// the data alone, less than 40 bytes are an error, and what comes out begins as a
/// JPEG file. A row that cannot be rounded up would overflow an address.
#[verifier::external_body]
pub(crate) fn dib_to_jpeg(data: &[u8]) -> (converted: Result<Vec<u8>, CoreError>)
    requires
        !has_unroundable_row(data@),
    ensures
        yields(converted, jpeg_of_dib(data@)),
        data@.len() < 40 ==> converted is Err,
        converted is Ok ==> is_jpeg(converted->Ok_0@),
{
    lamco_clipboard_core::image::dib_to_jpeg(data)
}

/// Calls `lamco_clipboard_core::image::dibv5_to_jpeg`. Claimed: the outcome depends
/// on the data alone, a header of neither 40 nor 124 bytes is an error, and what
/// comes out begins as a JPEG file. A blank colour mask would be shifted out of
/// range, and a row that cannot be rounded up would overflow an address.
#[verifier::external_body]
pub(crate) fn dibv5_to_jpeg(data: &[u8]) -> (converted: Result<Vec<u8>, CoreError>)
    requires
        !has_blank_mask(data@),
        !has_unroundable_row(data@),
    ensures
        yields(converted, jpeg_of_dibv5(data@)),
        converted is Ok ==> has_header_size(data@, 40) || has_header_size(data@, 124),
        converted is Ok ==> is_jpeg(converted->Ok_0@),
{
    lamco_clipboard_core::image::dibv5_to_jpeg(data)
}

/// Calls `lamco_clipboard_core::image::dib_to_bmp`. Claimed: it puts a 14-byte header
/// in front of the bitmap, as `bmp_of_dib` says, and refuses all others.
#[verifier::external_body]
pub(crate) fn dib_to_bmp(data: &[u8]) -> (converted: Result<Vec<u8>, CoreError>)
    ensures
        yields(converted, bmp_of_dib(data@)),
{
    lamco_clipboard_core::image::dib_to_bmp(data)
}

// ---------------------------------------------------------------------------
// Laws
// ---------------------------------------------------------------------------

/// A number comes back out of its four bytes.
pub proof fn lemma_numbers_come_back(value: int, before: Seq<u8>, after: Seq<u8>)
    requires
        0 <= value <= 0xFFFF_FFFF,
    ensures
        le32_bytes(value).len() == 4,
        le32(before + le32_bytes(value) + after, before.len() as int) == value,
{
    let all = before + le32_bytes(value) + after;
    let at = before.len() as int;
    assert(all[at] == le32_bytes(value)[0] && all[at + 1] == le32_bytes(value)[1]);
    assert(all[at + 2] == le32_bytes(value)[2] && all[at + 3] == le32_bytes(value)[3]);
    assert(value % 0x100 + 0x100 * (value / 0x100 % 0x100) + 0x10000 * (value / 0x10000 % 0x100)
        + 0x1000000 * (value / 0x1000000 % 0x100) == value);
}

/// A size counts the same with either sign.
pub proof fn lemma_sizes_have_no_sign(size: int)
    ensures
        0 <= size < 0x8000_0000 ==> magnitude32(size) == size,
        0 < size <= 0x8000_0000 ==> magnitude32(0x1_0000_0000 - size) == size,
{
}

/// Images are known by the bytes that they begin with, all of which count.
pub proof fn lemma_images_are_known_by_their_marks(data: Seq<u8>, rest: Seq<u8>)
    ensures
        is_png(seq![137u8, 80, 78, 71, 13, 10, 26, 10] + rest),
        is_jpeg(seq![0xFFu8, 0xD8] + rest),
        is_png(data) ==> data[0] == 137 && data[1] == 80 && data[2] == 78 && data[3] == 71
            && data[4] == 13 && data[5] == 10 && data[6] == 26 && data[7] == 10,
        is_jpeg(data) ==> data[0] == 0xFF && data[1] == 0xD8,
        is_png(data) ==> data.len() >= 8,
        is_jpeg(data) ==> data.len() >= 2,
{
    let mark = seq![137u8, 80, 78, 71, 13, 10, 26, 10];
    assert((mark + rest).take(8) =~= mark);
    if is_png(data) {
        assert(data.take(8)[0] == data[0] && data.take(8)[1] == data[1]);
        assert(data.take(8)[2] == data[2] && data.take(8)[3] == data[3]);
        assert(data.take(8)[4] == data[4] && data.take(8)[5] == data[5]);
        assert(data.take(8)[6] == data[6] && data.take(8)[7] == data[7]);
    }
}

/// A blank mask is one of the three colour masks of a whole version 5 bitmap that reads its
/// pixels through masks: all four bytes of it are zero.
pub proof fn lemma_blank_masks_have_no_bit(data: Seq<u8>)
    ensures
        has_blank_mask(data) <==> {
            &&& data.len() >= 124
            &&& data[0] == 124 && data[1] == 0 && data[2] == 0 && data[3] == 0
            &&& data[14] == 32 && data[15] == 0
            &&& data[16] == 3 && data[17] == 0 && data[18] == 0 && data[19] == 0
            &&& {
                ||| data[40] == 0 && data[41] == 0 && data[42] == 0 && data[43] == 0
                ||| data[44] == 0 && data[45] == 0 && data[46] == 0 && data[47] == 0
                ||| data[48] == 0 && data[49] == 0 && data[50] == 0 && data[51] == 0
            }
            &&& magnitude32(le32(data, 4)) > 0
            &&& magnitude32(le32(data, 8)) > 0
            &&& data.len() >= 124 + 4 * (magnitude32(le32(data, 4)) * magnitude32(le32(data, 8)))
        },
{
    let width = magnitude32(le32(data, 4));
    let height = magnitude32(le32(data, 8));
    assert(width * height * 4 == 4 * (width * height));
}

/// A row that cannot be rounded up has 0x5555_5555 pixels of 24 bits, to the right or to the
/// left.
pub proof fn lemma_unroundable_rows_have_one_width(data: Seq<u8>)
    ensures
        has_unroundable_row(data) <==> {
            &&& 40 <= data.len() <= 0xFFFF_FFFF
            &&& data[14] == 24 && data[15] == 0
            &&& {
                ||| data[4] == 0x55 && data[5] == 0x55 && data[6] == 0x55 && data[7] == 0x55
                ||| data[4] == 0xAB && data[5] == 0xAA && data[6] == 0xAA && data[7] == 0xAA
            }
        },
{
}

} // verus!
