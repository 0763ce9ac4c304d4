//! Which conversion clipboard data needs, by the format that is asked for, and
//! its outcome.
use vstd::prelude::*;
use vstd::utf8::encode_utf8;
use lamco_clipboard_core::ClipboardError as CoreError;
use crate::clipboard::image::{
    bmp_of_dib, bmp_to_dib, dib_of_bmp, dib_of_jpeg, dib_of_png, dib_to_bmp, dib_to_jpeg,
    dib_to_png, dibv5_of_jpeg, dibv5_of_png, dibv5_to_jpeg, dibv5_to_png, has_blank_mask,
    has_unroundable_row, header_size, is_jpeg, is_png, is_whole_bitmap, jpeg_of_dib, jpeg_of_dibv5, jpeg_to_dib,
    jpeg_to_dibv5, le32, lemma_bmp_round_trip, png_of_dib, png_of_dibv5, png_to_dib, png_to_dibv5,
    unroundable_row,
};
use crate::clipboard::jpeg::{calm_jpeg, is_calm_jpeg};
use crate::clipboard::text::{
    linux_text, rtf_to_linux, text_from_unicode, text_to_unicode, unicode_text, unicode_text_bytes,
    utf8_lossy,
};
use crate::strings::{has_prefix, same_text};

verus! {

/// Single-byte text.
pub const CF_TEXT: u32 = 1;
/// Device independent bitmap.
pub const CF_DIB: u32 = 8;
/// UTF-16LE text.
pub const CF_UNICODETEXT: u32 = 13;
/// Device independent bitmap, version 5.
pub const CF_DIBV5: u32 = 17;
/// PNG file.
pub const CF_PNG: u32 = 0xD011;

/// Why clipboard data could not be converted.
#[derive(Debug)]
pub enum ClipboardError {
    /// The conversion itself failed.
    Core(CoreError),
    /// The data is too small for a bitmap header.
    TooSmallForBitmap,
    /// A row of the bitmap is longer than the data can be.
    RowTooLong,
}

/// What a conversion comes to: the bytes, or that it failed.
pub fn finish(converted: Result<Vec<u8>, CoreError>) -> (outcome: Result<Vec<u8>, ClipboardError>)
    ensures
        converted is Ok ==> outcome is Ok && outcome->Ok_0 == converted->Ok_0,
        converted is Err ==> outcome == Err::<Vec<u8>, _>(ClipboardError::Core(converted->Err_0)),
{
    match converted {
        Ok(bytes) => Ok(bytes),
        Err(error) => Err(ClipboardError::Core(error)),
    }
}

// ---------------------------------------------------------------------------
// Linux to Windows
// ---------------------------------------------------------------------------

/// The conversion for data on its way to Windows.
#[derive(Clone, Copy, Debug, PartialEq, Eq)]
pub enum WindowsRoute {
    UnicodeText,
    PngToDib,
    JpegToDib,
    BmpToDib,
    PngToDibV5,
    JpegToDibV5,
    PassThrough,
}

pub open spec fn windows_route_of(format_id: u32, mime: Seq<char>) -> WindowsRoute {
    let png = "image/png"@.is_prefix_of(mime);
    let jpeg = "image/jpeg"@.is_prefix_of(mime);
    let bmp = "image/bmp"@.is_prefix_of(mime) || "image/x-bmp"@.is_prefix_of(mime);
    if format_id == CF_UNICODETEXT {
        WindowsRoute::UnicodeText
    } else if format_id == CF_DIB && png {
        WindowsRoute::PngToDib
    } else if format_id == CF_DIB && jpeg {
        WindowsRoute::JpegToDib
    } else if format_id == CF_DIB && bmp {
        WindowsRoute::BmpToDib
    } else if format_id == CF_DIBV5 && png {
        WindowsRoute::PngToDibV5
    } else if format_id == CF_DIBV5 && jpeg {
        WindowsRoute::JpegToDibV5
    } else {
        WindowsRoute::PassThrough
    }
}

/// Picks the conversion for data of type `mime` that Windows wants as `format_id`.
pub fn windows_route(format_id: u32, mime: &str) -> (route: WindowsRoute)
    ensures
        route == windows_route_of(format_id, mime@),
{
    if format_id == CF_UNICODETEXT {
        WindowsRoute::UnicodeText
    } else if format_id == CF_DIB {
        if has_prefix(mime, "image/png") {
            WindowsRoute::PngToDib
        } else if has_prefix(mime, "image/jpeg") {
            WindowsRoute::JpegToDib
        } else if has_prefix(mime, "image/bmp") || has_prefix(mime, "image/x-bmp") {
            WindowsRoute::BmpToDib
        } else {
            WindowsRoute::PassThrough
        }
    } else if format_id == CF_DIBV5 {
        if has_prefix(mime, "image/png") {
            WindowsRoute::PngToDibV5
        } else if has_prefix(mime, "image/jpeg") {
            WindowsRoute::JpegToDibV5
        } else {
            WindowsRoute::PassThrough
        }
    } else {
        WindowsRoute::PassThrough
    }
}

/// What a conversion to Windows comes to: the bytes, or `None` for a failed
/// conversion.
pub open spec fn windows_data(route: WindowsRoute, data: Seq<u8>) -> Option<Seq<u8>> {
    match route {
        WindowsRoute::UnicodeText => Some(unicode_text_bytes(utf8_lossy(data))),
        WindowsRoute::PngToDib => dib_of_png(data),
        WindowsRoute::JpegToDib => dib_of_jpeg(data),
        WindowsRoute::BmpToDib => dib_of_bmp(data),
        WindowsRoute::PngToDibV5 => dibv5_of_png(data),
        WindowsRoute::JpegToDibV5 => dibv5_of_jpeg(data),
        WindowsRoute::PassThrough => Some(data),
    }
}

/// The data can be handed to the converter of a route. Only JPEG files can be unfit.
pub open spec fn fits_route(route: WindowsRoute, data: Seq<u8>) -> bool {
    route == WindowsRoute::JpegToDib || route == WindowsRoute::JpegToDibV5 ==> is_calm_jpeg(data)
}

/// Whether the data can be handed to the converter of a route.
pub fn fits(route: WindowsRoute, data: &[u8]) -> (fit: bool)
    ensures
        fit == fits_route(route, data@),
{
    match route {
        WindowsRoute::JpegToDib => calm_jpeg(data),
        WindowsRoute::JpegToDibV5 => calm_jpeg(data),
        _ => true,
    }
}

/// A bitmap for Windows that was made of an image file: whole, with a header of
/// `size` bytes, and fit to be read back.
pub open spec fn is_sent_bitmap(bytes: Seq<u8>, size: int) -> bool {
    is_whole_bitmap(bytes, size) && !has_blank_mask(bytes)
}

/// What a conversion of an image file to a bitmap may come to: a bitmap, of a file
/// that begins as it should, or an error.
pub open spec fn bitmap_or_error(
    outcome: Result<Vec<u8>, ClipboardError>,
    file_fits: bool,
    size: int,
) -> bool {
    match outcome {
        Ok(bytes) => file_fits && is_sent_bitmap(bytes@, size),
        Err(error) => error is Core,
    }
}

/// Converts clipboard data for Windows.
pub fn to_windows(route: WindowsRoute, data: Vec<u8>) -> (outcome: Result<Vec<u8>, ClipboardError>)
    requires
        fits_route(route, data@),
    ensures
        match windows_data(route, data@) {
            Some(bytes) => outcome is Ok && outcome->Ok_0@ == bytes,
            None => outcome is Err && outcome->Err_0 is Core,
        },
        route == WindowsRoute::PngToDib ==> bitmap_or_error(outcome, is_png(data@), 40),
        route == WindowsRoute::PngToDibV5 ==> bitmap_or_error(outcome, is_png(data@), 124),
        route == WindowsRoute::JpegToDib ==> bitmap_or_error(outcome, is_jpeg(data@), 40),
        route == WindowsRoute::JpegToDibV5 ==> bitmap_or_error(outcome, is_jpeg(data@), 124),
{
    match route {
        WindowsRoute::UnicodeText => Ok(text_to_unicode(data.as_slice())),
        WindowsRoute::PngToDib => finish(png_to_dib(data.as_slice())),
        WindowsRoute::JpegToDib => finish(jpeg_to_dib(data.as_slice())),
        WindowsRoute::BmpToDib => finish(bmp_to_dib(data.as_slice())),
        WindowsRoute::PngToDibV5 => finish(png_to_dibv5(data.as_slice())),
        WindowsRoute::JpegToDibV5 => finish(jpeg_to_dibv5(data.as_slice())),
        WindowsRoute::PassThrough => Ok(data),
    }
}

// ---------------------------------------------------------------------------
// Windows to Linux
// ---------------------------------------------------------------------------

/// The conversion for data on its way to Linux.
#[derive(Clone, Copy, Debug, PartialEq, Eq)]
pub enum LinuxRoute {
    DibToPng,
    DibV5ToPng,
    DibToJpeg,
    DibV5ToJpeg,
    DibToBmp,
    RichText,
    UnicodeText,
    PassThrough,
    /// An image is asked for, and the data cannot even hold a header size.
    TooSmall,
}

/// The type is asked for as plain text or as HTML, with or without parameters.
pub open spec fn is_wide_text(mime: Seq<char>) -> bool {
    "text/plain"@.is_prefix_of(mime) || "text/html"@.is_prefix_of(mime)
}

pub open spec fn linux_route_of(mime: Seq<char>, data: Seq<u8>) -> LinuxRoute {
    if "image/png"@.is_prefix_of(mime) {
        if data.len() < 4 {
            LinuxRoute::TooSmall
        } else if le32(data, 0) == 40 {
            LinuxRoute::DibToPng
        } else {
            LinuxRoute::DibV5ToPng
        }
    } else if "image/jpeg"@.is_prefix_of(mime) {
        if data.len() < 4 {
            LinuxRoute::TooSmall
        } else if le32(data, 0) == 124 {
            LinuxRoute::DibV5ToJpeg
        } else {
            LinuxRoute::DibToJpeg
        }
    } else if "image/bmp"@.is_prefix_of(mime) || "image/x-bmp"@.is_prefix_of(mime) {
        LinuxRoute::DibToBmp
    } else if mime == "text/rtf"@ || mime == "application/rtf"@ {
        LinuxRoute::RichText
    } else if is_wide_text(mime) && data.len() >= 2 {
        LinuxRoute::UnicodeText
    } else {
        LinuxRoute::PassThrough
    }
}

/// Picks the conversion for Windows data that is asked for as `mime`. Bitmaps are
/// told apart by the size of their header.
pub fn linux_route(mime: &str, data: &[u8]) -> (route: LinuxRoute)
    ensures
        route == linux_route_of(mime@, data@),
{
    if has_prefix(mime, "image/png") {
        match header_size(data) {
            None => LinuxRoute::TooSmall,
            Some(40) => LinuxRoute::DibToPng,
            Some(_) => LinuxRoute::DibV5ToPng,
        }
    } else if has_prefix(mime, "image/jpeg") {
        match header_size(data) {
            None => LinuxRoute::TooSmall,
            Some(124) => LinuxRoute::DibV5ToJpeg,
            Some(_) => LinuxRoute::DibToJpeg,
        }
    } else if has_prefix(mime, "image/bmp") || has_prefix(mime, "image/x-bmp") {
        LinuxRoute::DibToBmp
    } else if same_text(mime, "text/rtf") || same_text(mime, "application/rtf") {
        LinuxRoute::RichText
    } else if (has_prefix(mime, "text/plain") || has_prefix(mime, "text/html")) && data.len() >= 2 {
        LinuxRoute::UnicodeText
    } else {
        LinuxRoute::PassThrough
    }
}

/// The route reads the pixels of a bitmap, row by row.
pub open spec fn reads_rows(route: LinuxRoute) -> bool {
    route == LinuxRoute::DibToPng || route == LinuxRoute::DibV5ToPng || route
        == LinuxRoute::DibToJpeg || route == LinuxRoute::DibV5ToJpeg
}

/// An image is asked for out of a bitmap with rows that no data can hold.
pub open spec fn row_is_too_long(route: LinuxRoute, data: Seq<u8>) -> bool {
    reads_rows(route) && has_unroundable_row(data)
}

/// What a conversion to Linux comes to: the bytes, or `None` for an error.
pub open spec fn linux_data(route: LinuxRoute, data: Seq<u8>) -> Option<Seq<u8>> {
    if row_is_too_long(route, data) {
        None
    } else {
        match route {
            LinuxRoute::DibToPng => png_of_dib(data),
            LinuxRoute::DibV5ToPng => png_of_dibv5(data),
            LinuxRoute::DibToJpeg => jpeg_of_dib(data),
            LinuxRoute::DibV5ToJpeg => jpeg_of_dibv5(data),
            LinuxRoute::DibToBmp => bmp_of_dib(data),
            LinuxRoute::RichText => Some(encode_utf8(linux_text(utf8_lossy(data)))),
            LinuxRoute::UnicodeText => Some(encode_utf8(linux_text(unicode_text(data)))),
            LinuxRoute::PassThrough => Some(data),
            LinuxRoute::TooSmall => None,
        }
    }
}

/// Which error a failed conversion to Linux comes with: two are told apart before
/// the conversion, all others are its own.
pub open spec fn is_linux_error(error: ClipboardError, route: LinuxRoute, data: Seq<u8>) -> bool {
    &&& error is TooSmallForBitmap <==> route == LinuxRoute::TooSmall
    &&& error is RowTooLong <==> row_is_too_long(route, data)
}

/// Converts Windows clipboard data for Linux.
pub fn to_linux(route: LinuxRoute, data: Vec<u8>) -> (outcome: Result<Vec<u8>, ClipboardError>)
    requires
        route == LinuxRoute::DibV5ToPng || route == LinuxRoute::DibV5ToJpeg ==> !has_blank_mask(data@),
    ensures
        match linux_data(route, data@) {
            Some(bytes) => outcome is Ok && outcome->Ok_0@ == bytes,
            None => outcome is Err && is_linux_error(outcome->Err_0, route, data@),
        },
        outcome is Ok && (route == LinuxRoute::DibToPng || route == LinuxRoute::DibV5ToPng)
            ==> is_png(outcome->Ok_0@),
        outcome is Ok && (route == LinuxRoute::DibToJpeg || route == LinuxRoute::DibV5ToJpeg)
            ==> is_jpeg(outcome->Ok_0@),
        outcome is Ok && route == LinuxRoute::DibToBmp ==> dib_of_bmp(outcome->Ok_0@) == Some(data@),
        route == LinuxRoute::UnicodeText ==> forall|text: Seq<char>|
            data@ == #[trigger] unicode_text_bytes(text) ==> outcome is Ok && outcome->Ok_0@
                == encode_utf8(linux_text(text)),
{
    proof {
        lemma_bmp_round_trip(data@);
    }
    let too_long: bool = match route {
        LinuxRoute::DibToPng => unroundable_row(data.as_slice()),
        LinuxRoute::DibV5ToPng => unroundable_row(data.as_slice()),
        LinuxRoute::DibToJpeg => unroundable_row(data.as_slice()),
        LinuxRoute::DibV5ToJpeg => unroundable_row(data.as_slice()),
        _ => false,
    };
    if too_long {
        return Err(ClipboardError::RowTooLong);
    }
    match route {
        LinuxRoute::DibToPng => finish(dib_to_png(data.as_slice())),
        LinuxRoute::DibV5ToPng => finish(dibv5_to_png(data.as_slice())),
        LinuxRoute::DibToJpeg => finish(dib_to_jpeg(data.as_slice())),
        LinuxRoute::DibV5ToJpeg => finish(dibv5_to_jpeg(data.as_slice())),
        LinuxRoute::DibToBmp => finish(dib_to_bmp(data.as_slice())),
        LinuxRoute::RichText => Ok(rtf_to_linux(data.as_slice())),
        LinuxRoute::UnicodeText => Ok(text_from_unicode(data.as_slice())),
        LinuxRoute::PassThrough => Ok(data),
        LinuxRoute::TooSmall => Err(ClipboardError::TooSmallForBitmap),
    }
}

/// A bitmap that this side made for Windows is read back by the converter of its
/// own kind, which can read it: plain bitmaps as such, version 5 bitmaps with their
/// alpha channel.
pub proof fn lemma_bitmap_kinds_are_told_apart(mime: Seq<char>, data: Seq<u8>)
    requires
        "image/png"@.is_prefix_of(mime),
    ensures
        is_sent_bitmap(data, 40) ==> linux_route_of(mime, data) == LinuxRoute::DibToPng
            && !has_unroundable_row(data),
        is_sent_bitmap(data, 124) ==> linux_route_of(mime, data) == LinuxRoute::DibV5ToPng
            && !has_blank_mask(data) && !has_unroundable_row(data),
{
}

// ---------------------------------------------------------------------------
// Laws
// ---------------------------------------------------------------------------

proof fn lemma_begins(prefix: Seq<char>, rest: Seq<char>)
    ensures
        prefix.is_prefix_of(prefix + rest),
{
    assert((prefix + rest).subrange(0, prefix.len() as int) =~= prefix);
}

/// What begins with one text does not begin with another that differs from it at `i`.
proof fn lemma_begins_otherwise(prefix: Seq<char>, rest: Seq<char>, other: Seq<char>, i: int)
    requires
        0 <= i < prefix.len(),
        i < other.len(),
        prefix[i] != other[i],
    ensures
        !other.is_prefix_of(prefix + rest),
{
    let text = prefix + rest;
    if other.is_prefix_of(text) {
        assert(text.subrange(0, other.len() as int)[i] == text[i]);
    }
}

proof fn lemma_image_types(rest: Seq<char>)
    ensures
        !"image/png"@.is_prefix_of("image/jpeg"@ + rest),
        !"image/png"@.is_prefix_of("image/bmp"@ + rest),
        !"image/png"@.is_prefix_of("image/x-bmp"@ + rest),
        !"image/jpeg"@.is_prefix_of("image/bmp"@ + rest),
        !"image/jpeg"@.is_prefix_of("image/x-bmp"@ + rest),
        "image/png"@.is_prefix_of("image/png"@ + rest),
        "image/jpeg"@.is_prefix_of("image/jpeg"@ + rest),
        "image/bmp"@.is_prefix_of("image/bmp"@ + rest),
        "image/x-bmp"@.is_prefix_of("image/x-bmp"@ + rest),
{
    reveal_strlit("image/png");
    reveal_strlit("image/jpeg");
    reveal_strlit("image/bmp");
    reveal_strlit("image/x-bmp");
    lemma_begins_otherwise("image/jpeg"@, rest, "image/png"@, 6);
    lemma_begins_otherwise("image/bmp"@, rest, "image/png"@, 6);
    lemma_begins_otherwise("image/x-bmp"@, rest, "image/png"@, 6);
    lemma_begins_otherwise("image/bmp"@, rest, "image/jpeg"@, 6);
    lemma_begins_otherwise("image/x-bmp"@, rest, "image/jpeg"@, 6);
    lemma_begins("image/png"@, rest);
    lemma_begins("image/jpeg"@, rest);
    lemma_begins("image/bmp"@, rest);
    lemma_begins("image/x-bmp"@, rest);
}

/// Windows gets what it asks for: Unicode text of whatever is there, and of an image
/// file the bitmap of the kind that was asked for, whatever parameters its type has.
pub proof fn lemma_windows_gets_what_it_asks_for(rest: Seq<char>, mime: Seq<char>, data: Seq<u8>)
    ensures
        windows_data(windows_route_of(13, mime), data) == Some(unicode_text_bytes(utf8_lossy(data))),
        windows_data(windows_route_of(8, "image/png"@ + rest), data) == dib_of_png(data),
        windows_data(windows_route_of(8, "image/jpeg"@ + rest), data) == dib_of_jpeg(data),
        windows_data(windows_route_of(8, "image/bmp"@ + rest), data) == dib_of_bmp(data),
        windows_data(windows_route_of(8, "image/x-bmp"@ + rest), data) == dib_of_bmp(data),
        windows_data(windows_route_of(17, "image/png"@ + rest), data) == dibv5_of_png(data),
        windows_data(windows_route_of(17, "image/jpeg"@ + rest), data) == dibv5_of_jpeg(data),
{
    lemma_image_types(rest);
}

/// Nothing else is converted for Windows: data of formats that are no text and no
/// bitmap goes out as it is, and so does data that is no image.
pub proof fn lemma_windows_gets_other_data_unchanged(
    format_id: u32,
    mime: Seq<char>,
    data: Seq<u8>,
)
    requires
        format_id != 13,
        (format_id != 8 && format_id != 17) || (forall|rest: Seq<char>|
            mime != #[trigger] ("image/"@ + rest)),
    ensures
        windows_data(windows_route_of(format_id, mime), data) == Some(data),
        fits_route(windows_route_of(format_id, mime), data),
{
    if format_id == 8 || format_id == 17 {
        lemma_no_image(mime);
    }
}

proof fn lemma_no_image(mime: Seq<char>)
    requires
        forall|rest: Seq<char>| mime != #[trigger] ("image/"@ + rest),
    ensures
        !"image/png"@.is_prefix_of(mime),
        !"image/jpeg"@.is_prefix_of(mime),
        !"image/bmp"@.is_prefix_of(mime),
        !"image/x-bmp"@.is_prefix_of(mime),
{
    reveal_strlit("image/");
    reveal_strlit("image/png");
    reveal_strlit("image/jpeg");
    reveal_strlit("image/bmp");
    reveal_strlit("image/x-bmp");
    lemma_no_longer_type(mime, "image/"@, "image/png"@);
    lemma_no_longer_type(mime, "image/"@, "image/jpeg"@);
    lemma_no_longer_type(mime, "image/"@, "image/bmp"@);
    lemma_no_longer_type(mime, "image/"@, "image/x-bmp"@);
}

proof fn lemma_no_longer_type(mime: Seq<char>, family: Seq<char>, full: Seq<char>)
    requires
        forall|rest: Seq<char>| mime != #[trigger] (family + rest),
        family.len() <= full.len(),
        forall|i: int| 0 <= i < family.len() ==> family[i] == full[i],
    ensures
        !full.is_prefix_of(mime),
{
    if full.is_prefix_of(mime) {
        assert forall|i: int| 0 <= i < family.len() implies mime[i] == family[i] by {
            assert(mime.subrange(0, full.len() as int)[i] == full[i]);
        }
        let rest = mime.skip(family.len() as int);
        assert(mime =~= family + rest);
    }
}

/// Linux gets the image file that it asks for. A bitmap is read by the size of its
/// header: for PNG every header but the plain one is one of version 5, for JPEG only
/// the one of version 5 is.
pub proof fn lemma_linux_gets_the_image_it_asks_for(rest: Seq<char>, data: Seq<u8>)
    ensures
        ({
            let header = data[0] + 0x100 * data[1] + 0x10000 * data[2] + 0x1000000 * data[3];
            let png = linux_data(linux_route_of("image/png"@ + rest, data), data);
            let jpeg = linux_data(linux_route_of("image/jpeg"@ + rest, data), data);
            let bmp = linux_data(linux_route_of("image/bmp"@ + rest, data), data);
            let x_bmp = linux_data(linux_route_of("image/x-bmp"@ + rest, data), data);
            &&& data.len() < 4 ==> png is None && jpeg is None
            &&& has_unroundable_row(data) ==> png is None && jpeg is None
            &&& data.len() >= 4 && !has_unroundable_row(data) ==> {
                &&& header == 40 ==> png == png_of_dib(data)
                &&& header != 40 ==> png == png_of_dibv5(data)
                &&& header == 124 ==> jpeg == jpeg_of_dibv5(data)
                &&& header != 124 ==> jpeg == jpeg_of_dib(data)
            }
            &&& bmp == bmp_of_dib(data)
            &&& x_bmp == bmp_of_dib(data)
        }),
{
    lemma_image_types(rest);
}

/// Plain text and HTML are read as Unicode text where there is at least one unit of
/// it, and otherwise handed on.
pub proof fn lemma_text_types_are_wide(mime: Seq<char>, rest: Seq<char>, data: Seq<u8>)
    requires
        mime == "text/plain"@ + rest || mime == "text/html"@ + rest,
    ensures
        data.len() >= 2 ==> linux_data(linux_route_of(mime, data), data) == Some(
            encode_utf8(linux_text(unicode_text(data))),
        ),
        data.len() >= 2 ==> linux_route_of(mime, data) == LinuxRoute::UnicodeText,
        data.len() < 2 ==> linux_data(linux_route_of(mime, data), data) == Some(data),
{
    reveal_strlit("image/png");
    reveal_strlit("image/jpeg");
    reveal_strlit("image/bmp");
    reveal_strlit("image/x-bmp");
    reveal_strlit("text/plain");
    reveal_strlit("text/html");
    reveal_strlit("text/rtf");
    reveal_strlit("application/rtf");
    lemma_begins("text/plain"@, rest);
    lemma_begins("text/html"@, rest);
    let first = if mime == "text/plain"@ + rest {
        "text/plain"@
    } else {
        "text/html"@
    };
    lemma_begins_otherwise(first, rest, "image/png"@, 0);
    lemma_begins_otherwise(first, rest, "image/jpeg"@, 0);
    lemma_begins_otherwise(first, rest, "image/bmp"@, 0);
    lemma_begins_otherwise(first, rest, "image/x-bmp"@, 0);
    assert(mime[0] == 't' && mime[5] == first[5]);
    assert("text/rtf"@[5] == 'r' && "application/rtf"@[0] == 'a');
}

/// Rich text is single-byte text under both of its types.
pub proof fn lemma_rich_text_is_text(data: Seq<u8>)
    ensures
        linux_data(linux_route_of("text/rtf"@, data), data) == Some(
            encode_utf8(linux_text(utf8_lossy(data))),
        ),
        linux_data(linux_route_of("application/rtf"@, data), data) == Some(
            encode_utf8(linux_text(utf8_lossy(data))),
        ),
{
    reveal_strlit("image/png");
    reveal_strlit("image/jpeg");
    reveal_strlit("image/bmp");
    reveal_strlit("image/x-bmp");
    reveal_strlit("text/rtf");
    reveal_strlit("application/rtf");
    let none: Seq<char> = seq![];
    assert("text/rtf"@ + none =~= "text/rtf"@);
    assert("application/rtf"@ + none =~= "application/rtf"@);
    lemma_begins_otherwise("text/rtf"@, none, "image/png"@, 0);
    lemma_begins_otherwise("text/rtf"@, none, "image/jpeg"@, 0);
    lemma_begins_otherwise("text/rtf"@, none, "image/bmp"@, 0);
    lemma_begins_otherwise("text/rtf"@, none, "image/x-bmp"@, 0);
    lemma_begins_otherwise("application/rtf"@, none, "image/png"@, 0);
    lemma_begins_otherwise("application/rtf"@, none, "image/jpeg"@, 0);
    lemma_begins_otherwise("application/rtf"@, none, "image/bmp"@, 0);
    lemma_begins_otherwise("application/rtf"@, none, "image/x-bmp"@, 0);
}

/// Data of all other types reaches Linux as it is.
pub proof fn lemma_linux_gets_other_data_unchanged(mime: Seq<char>, data: Seq<u8>)
    requires
        forall|rest: Seq<char>| mime != #[trigger] ("image/"@ + rest),
        forall|rest: Seq<char>| mime != #[trigger] ("text/plain"@ + rest),
        forall|rest: Seq<char>| mime != #[trigger] ("text/html"@ + rest),
        mime != "text/rtf"@,
        mime != "application/rtf"@,
    ensures
        linux_data(linux_route_of(mime, data), data) == Some(data),
{
    lemma_no_image(mime);
    lemma_no_longer_type(mime, "text/plain"@, "text/plain"@);
    lemma_no_longer_type(mime, "text/html"@, "text/html"@);
}

/// The two errors that are told apart before a conversion come where they belong, and
/// every other failure is the conversion's own.
pub proof fn lemma_errors_say_what_is_wrong(
    error: ClipboardError,
    rest: Seq<char>,
    data: Seq<u8>,
)
    requires
        is_linux_error(error, linux_route_of("image/png"@ + rest, data), data) || is_linux_error(
            error,
            linux_route_of("image/jpeg"@ + rest, data),
            data,
        ),
    ensures
        error is TooSmallForBitmap <==> data.len() < 4,
        error is RowTooLong <==> has_unroundable_row(data),
        error is Core <==> data.len() >= 4 && !has_unroundable_row(data),
{
    lemma_image_types(rest);
}

/// Only what reads the rows of a bitmap can find one too long.
pub proof fn lemma_only_bitmaps_have_rows(route: LinuxRoute, data: Seq<u8>)
    ensures
        row_is_too_long(route, data) <==> has_unroundable_row(data) && (route
            == LinuxRoute::DibToPng || route == LinuxRoute::DibV5ToPng || route
            == LinuxRoute::DibToJpeg || route == LinuxRoute::DibV5ToJpeg),
        !(data[14] == 24) ==> !row_is_too_long(route, data),
{
}

/// What became of an image is a bitmap with a header of the size asked for, out of a file of
/// the right kind, or an error of the conversion.
pub proof fn lemma_images_become_bitmaps(
    outcome: Result<Vec<u8>, ClipboardError>,
    file_fits: bool,
    size: int,
)
    requires
        bitmap_or_error(outcome, file_fits, size),
    ensures
        !file_fits ==> outcome is Err,
        outcome is Err ==> outcome->Err_0 is Core,
        outcome matches Ok(bytes) ==> {
            &&& bytes@.len() >= size >= 40
            &&& bytes@[0] + 256 * bytes@[1] + 65536 * bytes@[2] + 16777216 * bytes@[3] == size
        },
{
}

/// Only JPEG files can be unfit, and those whose head is usual are not.
pub proof fn lemma_only_jpeg_files_are_unfit(route: WindowsRoute, data: Seq<u8>)
    ensures
        route == WindowsRoute::JpegToDib || route == WindowsRoute::JpegToDibV5 ==> (fits_route(
            route,
            data,
        ) <==> is_calm_jpeg(data)),
        route != WindowsRoute::JpegToDib && route != WindowsRoute::JpegToDibV5 ==> fits_route(
            route,
            data,
        ),
{
}

} // verus!
