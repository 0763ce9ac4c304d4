//! Text on its way between the two clipboards: UTF-8 with LF line ends on the
//! Linux side, NUL-terminated UTF-16LE with CRLF line ends on the Windows side.
use vstd::prelude::*;
use vstd::slice::slice_to_vec;
use vstd::utf8::{encode_utf8, valid_utf8, decode_utf8};
use lamco_clipboard_core::sanitize::{sanitize_text_for_linux, sanitize_text_for_windows};
use crate::strings::{chars_of, text_of};

verus! {

// ---------------------------------------------------------------------------
// Line ends and NUL characters
// ---------------------------------------------------------------------------

/// Every CR LF pair, read from the left, becomes a single LF.
pub open spec fn crlf_to_lf(text: Seq<char>) -> Seq<char>
    decreases text.len(),
{
    if text.len() == 0 {
        seq![]
    } else if text.len() >= 2 && text[0] == '\r' && text[1] == '\n' {
        seq!['\n'] + crlf_to_lf(text.skip(2))
    } else {
        seq![text[0]] + crlf_to_lf(text.skip(1))
    }
}

/// Every LF becomes a CR LF pair.
pub open spec fn lf_to_crlf(text: Seq<char>) -> Seq<char>
    decreases text.len(),
{
    if text.len() == 0 {
        seq![]
    } else if text[0] == '\n' {
        seq!['\r', '\n'] + lf_to_crlf(text.skip(1))
    } else {
        seq![text[0]] + lf_to_crlf(text.skip(1))
    }
}

/// The text without its NUL characters.
pub open spec fn without_nul(text: Seq<char>) -> Seq<char>
    decreases text.len(),
{
    if text.len() == 0 {
        seq![]
    } else if text[0] == '\0' {
        without_nul(text.skip(1))
    } else {
        seq![text[0]] + without_nul(text.skip(1))
    }
}

/// Text as the Linux side keeps it.
pub open spec fn linux_text(text: Seq<char>) -> Seq<char> {
    without_nul(crlf_to_lf(text))
}

/// Text as the Windows side keeps it. CR LF pairs that are there already are not
/// doubled.
pub open spec fn windows_text(text: Seq<char>) -> Seq<char> {
    without_nul(lf_to_crlf(crlf_to_lf(text)))
}

proof fn lemma_no_leading_lf(text: Seq<char>)
    ensures
        lf_to_crlf(text).len() > 0 ==> lf_to_crlf(text)[0] != '\n',
{
}

proof fn lemma_line_ends_round_trip(text: Seq<char>)
    ensures
        crlf_to_lf(lf_to_crlf(text)) == text,
    decreases text.len(),
{
    if text.len() > 0 {
        let rest = text.skip(1);
        let more = lf_to_crlf(rest);
        lemma_line_ends_round_trip(rest);
        lemma_no_leading_lf(rest);
        if text[0] == '\n' {
            let whole = seq!['\r', '\n'] + more;
            assert(whole.skip(2) =~= more);
            assert(seq!['\n'] + rest =~= text);
        } else {
            let whole = seq![text[0]] + more;
            assert(whole.skip(1) =~= more);
            assert(seq![text[0]] + rest =~= text);
        }
    } else {
        assert(text =~= seq![]);
    }
}

proof fn lemma_without_nul_concat(a: Seq<char>, b: Seq<char>)
    ensures
        without_nul(a + b) == without_nul(a) + without_nul(b),
    decreases a.len(),
{
    if a.len() == 0 {
        assert(a + b =~= b);
        assert(without_nul(a) + without_nul(b) =~= without_nul(b));
    } else {
        assert((a + b).skip(1) =~= a.skip(1) + b);
        lemma_without_nul_concat(a.skip(1), b);
        assert(without_nul(a) + without_nul(b) =~= if a[0] == '\0' {
            without_nul(a.skip(1)) + without_nul(b)
        } else {
            seq![a[0]] + (without_nul(a.skip(1)) + without_nul(b))
        });
    }
}

proof fn lemma_nul_and_line_ends(text: Seq<char>)
    ensures
        without_nul(lf_to_crlf(text)) == lf_to_crlf(without_nul(text)),
    decreases text.len(),
{
    if text.len() > 0 {
        let rest = text.skip(1);
        let head = if text[0] == '\n' {
            seq!['\r', '\n']
        } else {
            seq![text[0]]
        };
        lemma_nul_and_line_ends(rest);
        lemma_without_nul_concat(head, lf_to_crlf(rest));
        if text[0] == '\0' {
            assert(without_nul(head) =~= seq![]) by {
                reveal_with_fuel(without_nul, 2);
            }
            assert(without_nul(head) + lf_to_crlf(without_nul(rest)) =~= lf_to_crlf(
                without_nul(rest),
            ));
        } else {
            assert(without_nul(head) =~= head) by {
                reveal_with_fuel(without_nul, 3);
            }
            let kept = seq![text[0]] + without_nul(rest);
            assert(kept.skip(1) =~= without_nul(rest));
        }
    }
}

proof fn lemma_without_nul_is_clean(text: Seq<char>)
    ensures
        forall|i: int| 0 <= i < without_nul(text).len() ==> #[trigger] without_nul(text)[i] != '\0',
        without_nul(without_nul(text)) == without_nul(text),
    decreases text.len(),
{
    if text.len() > 0 {
        let rest = text.skip(1);
        lemma_without_nul_is_clean(rest);
        if text[0] != '\0' {
            let kept = seq![text[0]] + without_nul(rest);
            assert(kept.skip(1) =~= without_nul(rest));
            assert forall|i: int| 0 <= i < kept.len() implies #[trigger] kept[i] != '\0' by {
                if i > 0 {
                    assert(kept[i] == without_nul(rest)[i - 1]);
                }
            }
        }
    }
}

/// What goes to Windows and comes back is what the Linux side would keep anyway.
pub proof fn lemma_text_round_trip(text: Seq<char>)
    ensures
        linux_text(windows_text(text)) == linux_text(text),
{
    let lines = crlf_to_lf(text);
    lemma_nul_and_line_ends(lines);
    lemma_line_ends_round_trip(without_nul(lines));
    lemma_without_nul_is_clean(lines);
}

/// Neither side's text holds a NUL character.
pub proof fn lemma_texts_hold_no_nul(text: Seq<char>)
    ensures
        forall|i: int| 0 <= i < linux_text(text).len() ==> #[trigger] linux_text(text)[i] != '\0',
        forall|i: int|
            0 <= i < windows_text(text).len() ==> #[trigger] windows_text(text)[i] != '\0',
{
    lemma_without_nul_is_clean(crlf_to_lf(text));
    lemma_without_nul_is_clean(lf_to_crlf(crlf_to_lf(text)));
}

/// Calls `lamco_clipboard_core::sanitize::sanitize_text_for_linux`. Claimed: it
/// turns CR LF pairs into LF and drops NUL characters.
#[verifier::external_body]
fn sanitize_for_linux(text: &str) -> (sanitized: String)
    ensures
        sanitized@ == linux_text(text@),
{
    sanitize_text_for_linux(text)
}

/// Calls `lamco_clipboard_core::sanitize::sanitize_text_for_windows`. Claimed: it
/// turns CR LF pairs into LF, then every LF into CR LF, and drops NUL characters.
#[verifier::external_body]
fn sanitize_for_windows(text: &str) -> (sanitized: String)
    ensures
        sanitized@ == windows_text(text@),
{
    sanitize_text_for_windows(text)
}

// ---------------------------------------------------------------------------
// UTF-16 and UTF-8
// ---------------------------------------------------------------------------

/// The UTF-16 units of one character.
pub open spec fn char_units(c: char) -> Seq<u16> {
    let scalar = c as u32 as int;
    if scalar < 0x10000 {
        seq![scalar as u16]
    } else {
        seq![
            (0xD800 + (scalar - 0x10000) / 0x400) as u16,
            (0xDC00 + (scalar - 0x10000) % 0x400) as u16,
        ]
    }
}

/// The UTF-16 units of a text.
pub open spec fn utf16_units(text: Seq<char>) -> Seq<u16>
    decreases text.len(),
{
    if text.len() == 0 {
        seq![]
    } else {
        char_units(text[0]) + utf16_units(text.skip(1))
    }
}

/// Units as bytes, low byte first.
pub open spec fn le_bytes(units: Seq<u16>) -> Seq<u8> {
    Seq::new(
        2 * units.len(),
        |i: int|
            if i % 2 == 0 {
                (units[i / 2] % 256) as u8
            } else {
                (units[i / 2] / 256) as u8
            },
    )
}

/// Bytes as units, low byte first. A last odd byte does not count.
pub open spec fn le_units(bytes: Seq<u8>) -> Seq<u16> {
    Seq::new(bytes.len() / 2, |i: int| (bytes[2 * i] + 256 * bytes[2 * i + 1]) as u16)
}

/// The units in front of the first zero.
pub open spec fn before_zero(units: Seq<u16>) -> Seq<u16>
    decreases units.len(),
{
    if units.len() == 0 || units[0] == 0 {
        seq![]
    } else {
        seq![units[0]] + before_zero(units.skip(1))
    }
}

/// The text that UTF-16 units stand for; `None` where they stand for none.
pub open spec fn utf16_text(units: Seq<u16>) -> Option<Seq<char>> {
    if exists|text: Seq<char>| #[trigger] utf16_units(text) == units {
        Some(choose|text: Seq<char>| #[trigger] utf16_units(text) == units)
    } else {
        None
    }
}

/// What `String::from_utf16_lossy` makes of UTF-16 units.
pub uninterp spec fn utf16_lossy(units: Seq<u16>) -> Seq<char>;

/// What `String::from_utf8_lossy` makes of bytes.
pub uninterp spec fn utf8_lossy(bytes: Seq<u8>) -> Seq<char>;

/// Calls `String::from_utf16_lossy`. Claimed: the text depends on the units alone,
/// and the units of a text give that text back.
#[verifier::external_body]
fn from_utf16_lossy(units: &[u16]) -> (text: String)
    ensures
        text@ == utf16_lossy(units@),
        forall|source: Seq<char>| #[trigger] utf16_units(source) == units@ ==> text@ == source,
{
    String::from_utf16_lossy(units)
}

/// Calls `String::from_utf8_lossy`. Claimed: the text depends on the bytes alone,
/// and valid UTF-8 is decoded.
#[verifier::external_body]
fn from_utf8_lossy(bytes: &[u8]) -> (text: String)
    ensures
        text@ == utf8_lossy(bytes@),
        valid_utf8(bytes@) ==> text@ == decode_utf8(bytes@),
{
    String::from_utf8_lossy(bytes).into_owned()
}

/// The UTF-16 units of a text.
fn encode_utf16(text: &str) -> (units: Vec<u16>)
    ensures
        units@ == utf16_units(text@),
{
    let chars: Vec<char> = chars_of(text);
    let mut units: Vec<u16> = Vec::new();
    let mut i: usize = 0;
    assert(chars@.skip(0) =~= chars@);
    assert(units@ + utf16_units(chars@) =~= utf16_units(chars@));
    while i < chars.len()
        invariant
            i <= chars@.len(),
            chars@ == text@,
            units@ + utf16_units(chars@.skip(i as int)) == utf16_units(text@),
        decreases chars@.len() - i,
    {
        let c: char = chars[i];
        let ghost before = units@;
        let ghost rest = chars@.skip(i as int);
        proof {
            vstd::utf8::char_is_scalar(c);
            assert(rest[0] == c);
            assert(rest.skip(1) =~= chars@.skip(i + 1));
        }
        let scalar: u32 = c as u32;
        if scalar < 0x10000 {
            units.push(scalar as u16);
        } else {
            let above: u32 = scalar - 0x10000;
            units.push((0xD800 + above / 0x400) as u16);
            units.push((0xDC00 + above % 0x400) as u16);
        }
        assert(units@ =~= before + char_units(c));
        i += 1;
        assert(before + (char_units(c) + utf16_units(chars@.skip(i as int))) =~= units@
            + utf16_units(chars@.skip(i as int)));
    }
    assert(units@ + seq![] =~= units@);
    units
}

/// Calls `ironrdp_pdu::utils::from_utf16_bytes`. Claimed: it reads little-endian
/// pairs, ignores an odd last byte and decodes the units as
/// `String::from_utf16_lossy` does.
#[verifier::external_body]
fn from_utf16_bytes(bytes: &[u8]) -> (text: String)
    ensures
        text@ == utf16_lossy(le_units(bytes@)),
{
    ironrdp_pdu::utils::from_utf16_bytes(bytes)
}

/// What the first unit of a character tells: a unit of its own, or the first of two.
proof fn lemma_first_unit(c: char)
    ensures
        c as u32 as int <= 0x10FFFF,
        ({
            let scalar = c as u32 as int;
            let units = char_units(c);
            if units.len() == 1 {
                &&& units[0] == scalar
                &&& !(0xD800 <= units[0] <= 0xDFFF)
            } else {
                &&& units.len() == 2
                &&& 0xD800 <= units[0] < 0xDC00
                &&& scalar == 0x10000 + (units[0] - 0xD800) * 0x400 + (units[1] - 0xDC00)
            }
        }),
{
    vstd::utf8::char_is_scalar(c);
    let scalar = c as u32 as int;
    if scalar >= 0x10000 {
        assert(0 <= (scalar - 0x10000) / 0x400 < 0x400);
    }
}

/// No two texts have the same UTF-16 units.
pub proof fn lemma_utf16_is_unique(a: Seq<char>, b: Seq<char>)
    requires
        utf16_units(a) == utf16_units(b),
    ensures
        a == b,
        utf16_text(utf16_units(a)) == Some(a),
{
    lemma_same_units(a, b);
    let chosen = choose|text: Seq<char>| #[trigger] utf16_units(text) == utf16_units(a);
    lemma_same_units(a, chosen);
}

proof fn lemma_same_units(a: Seq<char>, b: Seq<char>)
    requires
        utf16_units(a) == utf16_units(b),
    ensures
        a == b,
    decreases a.len(),
{
    let units = utf16_units(a);
    if a.len() > 0 {
        lemma_first_unit(a[0]);
        assert(units.len() > 0 && units[0] == char_units(a[0])[0]);
    }
    if b.len() > 0 {
        lemma_first_unit(b[0]);
        assert(units.len() > 0 && units[0] == char_units(b[0])[0]);
    }
    if a.len() == 0 || b.len() == 0 {
        assert(a =~= b);
    } else {
        let size = char_units(a[0]).len() as int;
        assert(char_units(b[0]).len() == size);
        assert(size == 2 ==> units[1] == char_units(a[0])[1] && units[1] == char_units(b[0])[1]);
        assert(a[0] as u32 == b[0] as u32);
        vstd::utf8::char_u32_cast(a[0], b[0] as u32);
        vstd::utf8::char_u32_cast(b[0], b[0] as u32);
        assert(units.skip(size) =~= utf16_units(a.skip(1)));
        assert(units.skip(size) =~= utf16_units(b.skip(1)));
        lemma_same_units(a.skip(1), b.skip(1));
        assert(a =~= seq![a[0]] + a.skip(1));
        assert(b =~= seq![b[0]] + b.skip(1));
    }
}

proof fn lemma_le_round_trip(units: Seq<u16>)
    ensures
        le_units(le_bytes(units)) == units,
{
    let bytes = le_bytes(units);
    assert forall|i: int| 0 <= i < units.len() implies le_units(bytes)[i] == units[i] by {
        assert(2 * i / 2 == i && (2 * i) % 2 == 0);
        assert((2 * i + 1) / 2 == i && (2 * i + 1) % 2 == 1);
        assert(bytes[2 * i] == (units[i] % 256) as u8);
        assert(bytes[2 * i + 1] == (units[i] / 256) as u8);
    }
    assert(le_units(bytes) =~= units);
}

proof fn lemma_units_hold_no_zero(text: Seq<char>)
    requires
        forall|i: int| 0 <= i < text.len() ==> #[trigger] text[i] != '\0',
    ensures
        forall|i: int| 0 <= i < utf16_units(text).len() ==> #[trigger] utf16_units(text)[i] != 0,
    decreases text.len(),
{
    if text.len() > 0 {
        let rest = text.skip(1);
        assert forall|i: int| 0 <= i < rest.len() implies #[trigger] rest[i] != '\0' by {
            assert(rest[i] == text[i + 1]);
        }
        lemma_units_hold_no_zero(rest);
        let head = char_units(text[0]);
        let units = head + utf16_units(rest);
        assert(text[0] != '\0');
        assert(forall|i: int| 0 <= i < head.len() ==> #[trigger] head[i] != 0) by {
            let c: char = text[0];
            let scalar = c as u32 as int;
            vstd::utf8::char_is_scalar(c);
            assert(scalar <= 0x10FFFF);
            if scalar == 0 {
                vstd::utf8::char_u32_cast(c, 0);
                assert(c == '\0');
            }
            assert(0 < scalar <= 0x10FFFF);
            assert(scalar >= 0x10000 ==> 0 <= (scalar - 0x10000) / 0x400 < 0x400);
        }
        assert forall|i: int| 0 <= i < units.len() implies #[trigger] units[i] != 0 by {
            if i >= head.len() {
                assert(units[i] == utf16_units(rest)[i - head.len()]);
            }
        }
    }
}

proof fn lemma_before_zero_of_terminated(units: Seq<u16>)
    requires
        forall|i: int| 0 <= i < units.len() ==> #[trigger] units[i] != 0,
    ensures
        before_zero(units.push(0)) == units,
    decreases units.len(),
{
    if units.len() > 0 {
        let rest = units.skip(1);
        assert(units.push(0).skip(1) =~= rest.push(0));
        assert forall|i: int| 0 <= i < rest.len() implies #[trigger] rest[i] != 0 by {
            assert(rest[i] == units[i + 1]);
        }
        assert(units[0] != 0);
        lemma_before_zero_of_terminated(rest);
        assert(seq![units[0]] + rest =~= units);
    } else {
        assert(units =~= seq![]);
    }
}

// ---------------------------------------------------------------------------
// Conversions
// ---------------------------------------------------------------------------

/// The `CF_UNICODETEXT` bytes of a text: CRLF line ends, UTF-16LE, a final NUL.
pub open spec fn unicode_text_bytes(text: Seq<char>) -> Seq<u8> {
    le_bytes(utf16_units(windows_text(text)).push(0))
}

/// The text that `CF_UNICODETEXT` bytes hold, up to the first NUL.
pub open spec fn unicode_text(bytes: Seq<u8>) -> Seq<char> {
    utf16_lossy(before_zero(le_units(bytes)))
}

/// The text without the NUL characters at its end.
pub open spec fn trim_trailing_nul(text: Seq<char>) -> Seq<char>
    decreases text.len(),
{
    if text.len() > 0 && text.last() == '\0' {
        trim_trailing_nul(text.drop_last())
    } else {
        text
    }
}

/// The units of UTF-16LE bytes in front of the first NUL.
pub fn units_before_nul(bytes: &[u8]) -> (units: Vec<u16>)
    ensures
        units@ == before_zero(le_units(bytes@)),
{
    let ghost all = le_units(bytes@);
    let mut units: Vec<u16> = Vec::new();
    let mut i: usize = 0;
    let total: usize = bytes.len();
    let pairs: usize = total / 2;
    assert(all.skip(0) =~= all);
    assert(units@ + before_zero(all) =~= before_zero(all));
    while i < pairs
        invariant
            all == le_units(bytes@),
            total == bytes@.len(),
            i <= pairs == total / 2,
            units@ + before_zero(all.skip(i as int)) == before_zero(all),
        decreases pairs - i,
    {
        let unit: u16 = bytes[2 * i] as u16 + 256 * bytes[2 * i + 1] as u16;
        assert(all.skip(i as int)[0] == unit);
        if unit == 0 {
            assert(units@ + seq![] =~= units@);
            return units;
        }
        let ghost before = units@;
        units.push(unit);
        assert(all.skip(i as int).skip(1) =~= all.skip(i + 1));
        assert(before + (seq![unit] + before_zero(all.skip(i + 1))) =~= units@ + before_zero(
            all.skip(i + 1),
        ));
        i += 1;
    }
    assert(units@ + seq![] =~= units@);
    units
}

/// A text as `CF_UNICODETEXT`.
pub fn unicode_bytes(text: &str) -> (bytes: Vec<u8>)
    ensures
        bytes@ == unicode_text_bytes(text@),
{
    let sanitized: String = sanitize_for_windows(text);
    let mut units: Vec<u16> = encode_utf16(sanitized.as_str());
    units.push(0);
    let mut bytes: Vec<u8> = Vec::new();
    let mut i: usize = 0;
    while i < units.len()
        invariant
            i <= units@.len(),
            bytes@ == le_bytes(units@.take(i as int)),
        decreases units@.len() - i,
    {
        let unit: u16 = units[i];
        bytes.push((unit % 256) as u8);
        bytes.push((unit / 256) as u8);
        i += 1;
        assert(bytes@ =~= le_bytes(units@.take(i as int)));
    }
    assert(units@.take(units@.len() as int) =~= units@);
    bytes
}

/// A text as bytes for the Linux side: LF line ends, no NUL.
pub fn linux_bytes(text: &str) -> (bytes: Vec<u8>)
    ensures
        bytes@ == encode_utf8(linux_text(text@)),
{
    let sanitized: String = sanitize_for_linux(text);
    slice_to_vec(sanitized.as_str().as_bytes())
}

/// A text as NUL-terminated bytes, without NUL characters at its end.
pub fn ansi_bytes(text: &str) -> (bytes: Vec<u8>)
    ensures
        bytes@ == encode_utf8(trim_trailing_nul(text@)).push(0),
{
    let mut chars: Vec<char> = chars_of(text);
    while chars.len() > 0 && chars[chars.len() - 1] == '\0'
        invariant
            trim_trailing_nul(chars@) == trim_trailing_nul(text@),
        decreases chars@.len(),
    {
        let ghost before = chars@;
        chars.pop();
        assert(chars@ =~= before.drop_last());
    }
    let trimmed: String = text_of(chars.as_slice());
    let mut bytes: Vec<u8> = slice_to_vec(trimmed.as_str().as_bytes());
    bytes.push(0);
    bytes
}

/// Clipboard text of the Linux side as `CF_UNICODETEXT`.
pub fn text_to_unicode(data: &[u8]) -> (bytes: Vec<u8>)
    ensures
        bytes@ == unicode_text_bytes(utf8_lossy(data@)),
        valid_utf8(data@) ==> bytes@ == unicode_text_bytes(decode_utf8(data@)),
{
    let text: String = from_utf8_lossy(data);
    unicode_bytes(text.as_str())
}

/// `CF_UNICODETEXT` as text of the Linux side. What was made of a text by
/// `unicode_bytes` comes back as that text's Linux form.
pub fn text_from_unicode(data: &[u8]) -> (bytes: Vec<u8>)
    ensures
        bytes@ == encode_utf8(linux_text(unicode_text(data@))),
        forall|text: Seq<char>|
            data@ == #[trigger] unicode_text_bytes(text) ==> bytes@ == encode_utf8(
                linux_text(text),
            ),
{
    let units: Vec<u16> = units_before_nul(data);
    let text: String = from_utf16_lossy(units.as_slice());
    proof {
        assert forall|source: Seq<char>|
            data@ == #[trigger] unicode_text_bytes(source) implies linux_text(text@) == linux_text(
            source,
        ) by {
            let sent = windows_text(source);
            lemma_texts_hold_no_nul(source);
            lemma_units_hold_no_zero(sent);
            lemma_le_round_trip(utf16_units(sent).push(0));
            lemma_before_zero_of_terminated(utf16_units(sent));
            assert(utf16_units(sent) == units@);
            lemma_text_round_trip(source);
        }
    }
    linux_bytes(text.as_str())
}

/// UTF-16LE text as NUL-terminated single-byte text.
pub fn ansi_from_unicode(data: &[u8]) -> (bytes: Vec<u8>)
    ensures
        bytes@ == encode_utf8(trim_trailing_nul(utf16_lossy(le_units(data@)))).push(0),
{
    let text: String = from_utf16_bytes(data);
    ansi_bytes(text.as_str())
}

/// Rich text is plain single-byte markup: only its line ends change.
pub fn rtf_to_linux(data: &[u8]) -> (bytes: Vec<u8>)
    ensures
        bytes@ == encode_utf8(linux_text(utf8_lossy(data@))),
        valid_utf8(data@) ==> bytes@ == encode_utf8(linux_text(decode_utf8(data@))),
{
    let text: String = from_utf8_lossy(data);
    linux_bytes(text.as_str())
}

// ---------------------------------------------------------------------------
// Laws of units and bytes
// ---------------------------------------------------------------------------

/// A character of the basic plane is its own unit. Any other becomes a high and a low
/// surrogate, from which its number can be computed.
pub proof fn lemma_units_of_a_character(c: char)
    ensures
        (c as u32) < 0x10000 ==> char_units(c).len() == 1 && char_units(c)[0] == c as u32,
        (c as u32) >= 0x10000 ==> {
            let high = char_units(c)[0];
            let low = char_units(c)[1];
            &&& char_units(c).len() == 2
            &&& 0xD800 <= high < 0xDC00 <= low < 0xE000
            &&& (high - 0xD800) * 0x400 + (low - 0xDC00) + 0x10000 == c as u32
        },
        utf16_units(seq![c]) == char_units(c),
{
    let rest = seq![c].skip(1);
    assert(rest.len() == 0);
    assert(utf16_units(rest) =~= seq![]);
    assert(char_units(c) + utf16_units(rest) =~= char_units(c));
}

/// The units of a text are those of its parts, one behind the other.
pub proof fn lemma_units_of_joined_texts(a: Seq<char>, b: Seq<char>)
    ensures
        utf16_units(a + b) == utf16_units(a) + utf16_units(b),
    decreases a.len(),
{
    if a.len() == 0 {
        assert(a + b =~= b);
        assert(utf16_units(a) + utf16_units(b) =~= utf16_units(b));
    } else {
        lemma_units_of_joined_texts(a.skip(1), b);
        assert((a + b).skip(1) =~= a.skip(1) + b);
        assert(char_units(a[0]) + (utf16_units(a.skip(1)) + utf16_units(b)) =~= (char_units(a[0])
            + utf16_units(a.skip(1))) + utf16_units(b));
    }
}

/// A unit stands in two bytes, the low one in front, and is read from them.
pub proof fn lemma_units_stand_in_two_bytes(units: Seq<u16>, bytes: Seq<u8>, i: int)
    requires
        0 <= i < units.len(),
    ensures
        le_bytes(units).len() == 2 * units.len(),
        units[i] == le_bytes(units)[2 * i] + 256 * le_bytes(units)[2 * i + 1],
        le_units(bytes).len() == bytes.len() / 2,
        2 * i + 1 < bytes.len() ==> le_units(bytes)[i] == bytes[2 * i] + 256 * bytes[2 * i + 1],
        le_units(le_bytes(units)) == units,
{
    lemma_le_round_trip(units);
    assert((2 * i) % 2 == 0 && (2 * i) / 2 == i);
    assert((2 * i + 1) % 2 == 1 && (2 * i + 1) / 2 == i);
}

/// A zero ends the units, whatever follows it, and nothing else does.
pub proof fn lemma_zero_ends_units(units: Seq<u16>, rest: Seq<u16>)
    requires
        forall|i: int| 0 <= i < units.len() ==> #[trigger] units[i] != 0,
    ensures
        before_zero(units) == units,
        before_zero(units.push(0) + rest) == units,
    decreases units.len(),
{
    let all = units.push(0) + rest;
    if units.len() > 0 {
        lemma_zero_ends_units(units.skip(1), rest);
        assert(all.skip(1) =~= units.skip(1).push(0) + rest);
        assert(all[0] == units[0]);
        assert(seq![units[0]] + units.skip(1) =~= units);
    } else {
        assert(all[0] == 0);
        assert(units =~= seq![]);
    }
}

/// Clipboard text ends with a zero unit behind the units of the text.
pub proof fn lemma_clipboard_text_is_terminated(text: Seq<char>)
    ensures
        ({
            let bytes = unicode_text_bytes(text);
            let units = utf16_units(windows_text(text));
            &&& bytes.len() == 2 * units.len() + 2
            &&& bytes[bytes.len() - 2] == 0 && bytes[bytes.len() - 1] == 0
            &&& le_units(bytes) == units.push(0)
            &&& before_zero(le_units(bytes)) == units
        }),
{
    let units = utf16_units(windows_text(text));
    let ended = units.push(0);
    lemma_units_stand_in_two_bytes(ended, seq![], units.len() as int);
    lemma_texts_hold_no_nul(text);
    lemma_units_hold_no_zero(windows_text(text));
    lemma_before_zero_of_terminated(units);
}

/// Every NUL at the end goes, and nothing in front of another character.
pub proof fn lemma_trailing_nuls_go(text: Seq<char>)
    ensures
        trim_trailing_nul(text.push('\0')) == trim_trailing_nul(text),
        text.len() > 0 && text.last() != '\0' ==> trim_trailing_nul(text) == text,
        text.len() == 0 ==> trim_trailing_nul(text) == text,
{
    assert(text.push('\0').drop_last() =~= text);
}

} // verus!
