//! Which JPEG files can be handed to the decoder.
//!
//! The decoder multiplies the mean brightness of a block, which it adds up from
//! block to block, with a factor out of the file. It takes it for granted that the
//! product fits 32 bits, and that the colours are sampled in one of the usual ways.
//! A file can break both rules, so its head is looked at first: the segments in
//! front of the picture, one after the other.
use vstd::prelude::*;
use vstd::arithmetic::power2::{lemma2_to64, lemma_pow2_unfold, pow2};
use crate::clipboard::image::is_jpeg;

verus! {

/// The largest brightness of a block that leaves room for rounding.
pub const MAX_BRIGHTNESS: u64 = 0x7FFF_0000;

/// The largest width and height that leave room for rounding up to whole blocks.
pub const MAX_SIDE: u16 = 0xFFF8;

/// The largest file whose segments can be counted in 32 bits.
pub const MAX_FILE: u64 = 0xFFFF_FFFF;

/// What the head of a file says.
#[derive(Clone, Copy, Debug, PartialEq, Eq)]
pub struct JpegHead {
    pub width: u16,
    pub height: u16,
    /// How many colour components there are; 0 before the frame was described.
    pub components: u8,
    /// The picture comes in several passes.
    pub progressive: bool,
    /// The largest factor for the brightness of a block.
    pub quantiser: u16,
    /// How many bits a step from block to block takes at most.
    pub category: u8,
    /// After how many units of blocks the brightness starts anew; 0 for never.
    pub interval: u16,
    /// In some code table, a code of zeros alone stands for a step.
    pub restless: bool,
}

/// Nothing was said yet.
pub open spec fn blank_head() -> JpegHead {
    JpegHead {
        width: 0,
        height: 0,
        components: 0,
        progressive: false,
        quantiser: 0,
        category: 0,
        interval: 0,
        restless: false,
    }
}

/// A big-endian 16-bit number at `at`.
pub open spec fn be16(data: Seq<u8>, at: int) -> int {
    0x100 * data[at] + data[at + 1]
}

pub open spec fn larger(a: int, b: int) -> int {
    if a < b {
        b
    } else {
        a
    }
}

/// The largest number of `category` bits.
pub open spec fn largest_step(category: int) -> int
    decreases category,
{
    if category <= 0 {
        0
    } else {
        2 * largest_step(category - 1) + 1
    }
}

/// A bound on the steps that are added up: all blocks of the picture, or the blocks of
/// an interval. A unit has at most four blocks of a component. Where the data end, an
/// interval goes on without starting anew: the decoder reads at most some bits that it
/// holds already and, where the end is not marked, up to two more rows of units.
/// Behind them it reads zeros, so that such an interval is bounded where zeros are no
/// step.
pub open spec fn step_bound(head: JpegHead) -> int {
    let across = head.width as int / 8 + 2;
    let all = across * (head.height as int / 8 + 2);
    let run = 4 * (head.interval + 2 * across) + 1024;
    if head.interval > 0 && !head.restless && run < all {
        run
    } else {
        all
    }
}

/// A bound on the brightness of any block: every step that is added up is the
/// largest.
pub open spec fn brightness_bound(head: JpegHead) -> int {
    step_bound(head) * (largest_step(head.category as int) * head.quantiser)
}

/// Markers of the segments that a head is made of: frames, tables, intervals,
/// application data and comments.
pub open spec fn is_segment(marker: u8) -> bool {
    0xC0 <= marker <= 0xC2 || marker == 0xC4 || marker == 0xDB || marker == 0xDD || 0xE0 <= marker
        <= 0xEF || marker == 0xFE
}

/// The largest first factor of the tables from `at` to `end`; `None` where they are
/// malformed.
pub open spec fn quantiser_after(data: Seq<u8>, at: int, end: int, most: int) -> Option<int>
    decreases end - at,
{
    if at >= end {
        Some(most)
    } else if data[at] >= 0x20 {
        None
    } else {
        let wide = data[at] >= 0x10;
        let next = if wide {
            at + 129
        } else {
            at + 65
        };
        let first = if wide {
            be16(data, at + 1)
        } else {
            data[at + 1] as int
        };
        if next > end {
            None
        } else {
            quantiser_after(data, next, end, larger(most, first))
        }
    }
}

/// The sum of `count` bytes.
pub open spec fn sum_of(data: Seq<u8>, at: int, count: int) -> int
    decreases count,
{
    if count <= 0 {
        0
    } else {
        sum_of(data, at, count - 1) + data[at + count - 1]
    }
}

/// The largest of `most` and `count` bytes.
pub open spec fn largest_of(data: Seq<u8>, at: int, count: int, most: int) -> int
    decreases count,
{
    if count <= 0 {
        most
    } else {
        larger(largest_of(data, at, count - 1, most), data[at + count - 1] as int)
    }
}

/// The largest category of the code tables from `at` to `end`; `None` where they are
/// malformed or name a category that there is not. Only tables for the brightness
/// of blocks count.
pub open spec fn category_after(data: Seq<u8>, at: int, end: int, most: int) -> Option<int>
    decreases end - at,
{
    if at >= end {
        Some(most)
    } else if at + 17 > end {
        None
    } else {
        let count = sum_of(data, at + 1, 16);
        let next = at + 17 + count;
        let largest = if data[at] < 0x10 {
            largest_of(data, at + 17, count, most)
        } else {
            most
        };
        if count < 0 || next > end || largest > 15 {
            None
        } else {
            category_after(data, next, end, largest)
        }
    }
}

/// In some table for the brightness of blocks, from `at` to `end`, the first code, which
/// is the one of zeros alone, stands for a step.
pub open spec fn steps_on_zeros(data: Seq<u8>, at: int, end: int) -> bool
    decreases end - at,
{
    if at + 17 > end {
        false
    } else {
        let count = sum_of(data, at + 1, 16);
        let next = at + 17 + count;
        if count < 0 || next > end {
            false
        } else {
            (data[at] < 0x10 && count > 0 && data[at + 17] != 0) || steps_on_zeros(data, next, end)
        }
    }
}

/// The head after the frame described at `at`; `None` for an unusual frame. Usual are
/// one component or three, of 8 bits, the first of them sampled once or twice in
/// either direction and the others once; and four in one pass, all sampled once.
pub open spec fn frame_after(data: Seq<u8>, at: int, head: JpegHead) -> Option<JpegHead> {
    let size = be16(data, at + 2);
    let height = be16(data, at + 5);
    let width = be16(data, at + 7);
    let components = data[at + 9];
    let sampling = data[at + 11];
    let sides_fit = 0 < height <= MAX_SIDE && 0 < width <= MAX_SIDE;
    let colours_fit = components == 1 || (components == 3 && data[at + 14] == 0x11 && data[at + 17]
        == 0x11) || (components == 4 && sampling == 0x11 && data[at + 14] == 0x11 && data[at + 17]
        == 0x11 && data[at + 20] == 0x11 && data[at + 1] != 0xC2);
    let sampling_fits = sampling == 0x11 || sampling == 0x12 || sampling == 0x21 || sampling == 0x22;
    if head.components == 0 && size >= 11 && data[at + 4] == 8 && sides_fit && size == 8 + 3
        * components && colours_fit && sampling_fits {
        Some(
            JpegHead {
                width: width as u16,
                height: height as u16,
                components,
                progressive: data[at + 1] == 0xC2,
                ..head
            },
        )
    } else {
        None
    }
}

/// The segment at `at` stands for a picture out of a film, whose tables are left out.
pub open spec fn is_film(data: Seq<u8>, at: int) -> bool {
    &&& data[at + 4] == 0x41
    &&& data[at + 5] == 0x56
    &&& data[at + 6] == 0x49
    &&& data[at + 7] == 0x31
    &&& data[at + 8] == 0
}

/// The head after the segment at `at`; `None` for an unusual segment.
pub open spec fn head_after(data: Seq<u8>, at: int, head: JpegHead) -> Option<JpegHead> {
    let marker = data[at + 1];
    let size = be16(data, at + 2);
    let end = at + 2 + size;
    if marker == 0xDB {
        match quantiser_after(data, at + 4, end, head.quantiser as int) {
            Some(most) => Some(JpegHead { quantiser: most as u16, ..head }),
            None => None,
        }
    } else if marker == 0xC4 {
        match category_after(data, at + 4, end, head.category as int) {
            Some(most) => Some(
                JpegHead {
                    category: most as u8,
                    restless: head.restless || steps_on_zeros(data, at + 4, end),
                    ..head
                },
            ),
            None => None,
        }
    } else if marker == 0xDD && size == 4 {
        Some(JpegHead { interval: be16(data, at + 4) as u16, ..head })
    } else if marker <= 0xC2 {
        frame_after(data, at, head)
    } else if (marker == 0xE0 && (size == 6 || (size > 6 && is_film(data, at)))) || (marker == 0xEE
        && head.components != 0) {
        None
    } else {
        Some(head)
    }
}

/// From `at` to the end of the image there are no markers but restarts.
pub open spec fn is_one_pass(data: Seq<u8>, at: int) -> bool
    decreases data.len() - at,
{
    if at + 1 >= data.len() || (data[at] == 0xFF && data[at + 1] == 0xD9) {
        true
    } else if data[at] == 0xFF && data[at + 1] != 0 && data[at + 1] != 0xFF && !(0xD0 <= data[at
        + 1] <= 0xD7) {
        false
    } else {
        is_one_pass(data, at + 1)
    }
}

/// The picture's data begins at `at`. In several passes the brightness is kept in 16
/// bits. In one pass it must stay in bounds, and all components come together.
pub open spec fn scan_is_calm(data: Seq<u8>, at: int, head: JpegHead) -> bool {
    let size = be16(data, at + 2);
    &&& head.components != 0
    &&& head.progressive || (size == 6 + 2 * head.components && at + 2 + size <= data.len()
        && brightness_bound(head) <= MAX_BRIGHTNESS && is_one_pass(data, at + 2 + size))
}

/// The head from `at` on is usual. One that is cut off is refused by the decoder.
pub open spec fn head_is_calm(data: Seq<u8>, at: int, head: JpegHead) -> bool
    decreases data.len() - at,
{
    let marker = data[at + 1];
    let size = be16(data, at + 2);
    if at + 4 > data.len() {
        true
    } else if data[at] != 0xFF {
        false
    } else if marker == 0xDA {
        scan_is_calm(data, at, head)
    } else if !is_segment(marker) {
        false
    } else if size < 2 || at + 2 + size > data.len() {
        true
    } else {
        match head_after(data, at, head) {
            Some(next) => head_is_calm(data, at + 2 + size, next),
            None => false,
        }
    }
}

/// The decoder can take the data: it is no JPEG file, or one with a usual head. It
/// adds up the sizes of some segments in 32 bits, which the size of the file bounds.
pub open spec fn is_calm_jpeg(data: Seq<u8>) -> bool {
    is_jpeg(data) ==> data.len() <= MAX_FILE && head_is_calm(data, 2, blank_head())
}

// ---------------------------------------------------------------------------
// Looking at a head
// ---------------------------------------------------------------------------

fn read_be16(data: &[u8], at: usize) -> (value: u16)
    requires
        at + 2 <= data@.len(),
    ensures
        value == be16(data@, at as int),
{
    let total: usize = data.len();
    assert(at + 1 < total);
    0x100 * data[at] as u16 + data[at + 1] as u16
}

fn find_quantiser(data: &[u8], from: usize, end: usize, known: u16) -> (most: Option<u16>)
    requires
        from <= end <= data@.len(),
    ensures
        match quantiser_after(data@, from as int, end as int, known as int) {
            Some(n) => most is Some && most->Some_0 == n,
            None => most is None,
        },
{
    let total: usize = data.len();
    let mut at: usize = from;
    let mut most: u16 = known;
    while at < end
        invariant
            at <= end <= data@.len(),
            total == data@.len(),
            quantiser_after(data@, from as int, end as int, known as int) == quantiser_after(
                data@,
                at as int,
                end as int,
                most as int,
            ),
        decreases end - at,
    {
        if data[at] >= 0x20 {
            return None;
        }
        let wide: bool = data[at] >= 0x10;
        let size: usize = if wide {
            129
        } else {
            65
        };
        if end - at < size {
            return None;
        }
        let first: u16 = if wide {
            read_be16(data, at + 1)
        } else {
            data[at + 1] as u16
        };
        if most < first {
            most = first;
        }
        at += size;
    }
    Some(most)
}

fn find_category(data: &[u8], from: usize, end: usize, known: u8) -> (found: Option<(u8, bool)>)
    requires
        from <= end <= data@.len(),
    ensures
        match category_after(data@, from as int, end as int, known as int) {
            Some(n) => found is Some && found->Some_0.0 == n && found->Some_0.1 == steps_on_zeros(
                data@,
                from as int,
                end as int,
            ),
            None => found is None,
        },
        known <= 15 && found is Some ==> found->Some_0.0 <= 15,
{
    let total: usize = data.len();
    let mut at: usize = from;
    let mut most: u8 = known;
    let mut restless: bool = false;
    while at < end
        invariant
            at <= end <= data@.len(),
            total == data@.len(),
            known <= 15 ==> most <= 15,
            category_after(data@, from as int, end as int, known as int) == category_after(
                data@,
                at as int,
                end as int,
                most as int,
            ),
            steps_on_zeros(data@, from as int, end as int) == (restless || steps_on_zeros(
                data@,
                at as int,
                end as int,
            )),
        decreases end - at,
    {
        if end - at < 17 {
            return None;
        }
        let mut count: usize = 0;
        let mut i: usize = 0;
        while i < 16
            invariant
                i <= 16,
                at + 17 <= end <= total,
                total == data@.len(),
                count == sum_of(data@, at + 1, i as int),
                count <= 255 * i,
            decreases 16 - i,
        {
            count += data[at + 1 + i] as usize;
            i += 1;
        }
        if end - at - 17 < count {
            return None;
        }
        let mut largest: u8 = most;
        if data[at] < 0x10 {
            let mut i: usize = 0;
            while i < count
                invariant
                    i <= count,
                    at + 17 + count <= end <= total,
                    total == data@.len(),
                    largest == largest_of(data@, at + 17, i as int, most as int),
                decreases count - i,
            {
                let symbol: u8 = data[at + 17 + i];
                if largest < symbol {
                    largest = symbol;
                }
                i += 1;
            }
        }
        if largest > 15 {
            return None;
        }
        if data[at] < 0x10 && count > 0 && data[at + 17] != 0 {
            restless = true;
        }
        most = largest;
        at += 17 + count;
    }
    Some((most, restless))
}

fn read_frame(data: &[u8], at: usize, head: JpegHead) -> (next: Option<JpegHead>)
    requires
        be16(data@, at + 2) >= 2,
        at + 2 + be16(data@, at + 2) <= data@.len(),
    ensures
        next == frame_after(data@, at as int, head),
{
    let total: usize = data.len();
    assert(at + 4 <= total);
    let size: u16 = read_be16(data, at + 2);
    if size < 11 {
        return None;
    }
    let height: u16 = read_be16(data, at + 5);
    let width: u16 = read_be16(data, at + 7);
    let components: u8 = data[at + 9];
    let sampling: u8 = data[at + 11];
    if head.components != 0 || data[at + 4] != 8 || height == 0 || height > MAX_SIDE || width == 0
        || width > MAX_SIDE || size != 8 + 3 * components as u16 {
        return None;
    }
    let colours_fit: bool = match components {
        1 => true,
        3 => data[at + 14] == 0x11 && data[at + 17] == 0x11,
        4 => sampling == 0x11 && data[at + 14] == 0x11 && data[at + 17] == 0x11 && data[at + 20]
            == 0x11 && data[at + 1] != 0xC2,
        _ => false,
    };
    if !colours_fit {
        return None;
    }
    if sampling != 0x11 && sampling != 0x12 && sampling != 0x21 && sampling != 0x22 {
        return None;
    }
    Some(
        JpegHead {
            width,
            height,
            components,
            progressive: data[at + 1] == 0xC2,
            ..head
        },
    )
}

fn read_segment(data: &[u8], at: usize, head: JpegHead) -> (next: Option<JpegHead>)
    requires
        is_segment(data@[at + 1]),
        be16(data@, at + 2) >= 2,
        at + 2 + be16(data@, at + 2) <= data@.len(),
    ensures
        next == head_after(data@, at as int, head),
        head.category <= 15 && next is Some ==> next->Some_0.category <= 15,
{
    let total: usize = data.len();
    assert(at + 4 <= total);
    let marker: u8 = data[at + 1];
    let size: usize = read_be16(data, at + 2) as usize;
    let end: usize = at + 2 + size;
    if marker == 0xDB {
        match find_quantiser(data, at + 4, end, head.quantiser) {
            Some(quantiser) => Some(JpegHead { quantiser, ..head }),
            None => None,
        }
    } else if marker == 0xC4 {
        match find_category(data, at + 4, end, head.category) {
            Some((category, restless)) => Some(
                JpegHead { category, restless: head.restless || restless, ..head },
            ),
            None => None,
        }
    } else if marker == 0xDD && size == 4 {
        Some(JpegHead { interval: read_be16(data, at + 4), ..head })
    } else if marker <= 0xC2 {
        read_frame(data, at, head)
    } else if marker == 0xE0 {
        if size == 6 {
            None
        } else if size > 6 && data[at + 4] == 0x41 && data[at + 5] == 0x56 && data[at + 6] == 0x49
            && data[at + 7] == 0x31 && data[at + 8] == 0 {
            None
        } else {
            Some(head)
        }
    } else if marker == 0xEE && head.components != 0 {
        None
    } else {
        Some(head)
    }
}

fn one_pass(data: &[u8], from: usize) -> (one: bool)
    requires
        from <= data@.len(),
    ensures
        one == is_one_pass(data@, from as int),
{
    let total: usize = data.len();
    let mut at: usize = from;
    while total - at > 1
        invariant
            at <= total,
            total == data@.len(),
            is_one_pass(data@, from as int) == is_one_pass(data@, at as int),
        decreases total - at,
    {
        if data[at] == 0xFF {
            let next: u8 = data[at + 1];
            if next == 0xD9 {
                return true;
            }
            if next != 0 && next != 0xFF && !(0xD0 <= next && next <= 0xD7) {
                return false;
            }
        }
        at += 1;
    }
    true
}

proof fn lemma_steps_fit(category: int)
    requires
        0 <= category <= 15,
    ensures
        largest_step(category) <= 0x7FFF,
{
    reveal_with_fuel(largest_step, 16);
}

/// Whether the brightness of every block stays in bounds.
fn in_bounds(head: JpegHead) -> (bounded: bool)
    requires
        head.category <= 15,
    ensures
        bounded == (brightness_bound(head) <= MAX_BRIGHTNESS),
{
    let mut step: u64 = 0;
    let mut i: u8 = 0;
    assert(largest_step(0) == 0);
    while i < head.category
        invariant
            i <= head.category <= 15,
            step == largest_step(i as int),
            step <= 0x7FFF,
        decreases head.category - i,
    {
        step = 2 * step + 1;
        i += 1;
        proof {
            lemma_steps_fit(i as int);
        }
    }
    let across: u64 = head.width as u64 / 8 + 2;
    let down: u64 = head.height as u64 / 8 + 2;
    assert(across * down <= 0x2002 * 0x2002 && step * head.quantiser <= 0x8000 * 0x10000) by (
    nonlinear_arith)
        requires
            0 <= across <= 0x2002,
            0 <= down <= 0x2002,
            0 <= step <= 0x8000,
            0 <= head.quantiser <= 0x10000,
    ;
    let all: u64 = across * down;
    let run: u64 = 4 * (head.interval as u64 + 2 * across) + 1024;
    let blocks: u64 = if head.interval > 0 && !head.restless && run < all {
        run
    } else {
        all
    };
    let most: u64 = step * head.quantiser as u64;
    assert(blocks * most <= 0x4010004 * 0x80000000) by (nonlinear_arith)
        requires
            0 <= blocks <= 0x4010004,
            0 <= most <= 0x80000000,
    ;
    blocks * most <= MAX_BRIGHTNESS
}

/// Whether the decoder can take the data.
pub fn calm_jpeg(data: &[u8]) -> (calm: bool)
    ensures
        calm == is_calm_jpeg(data@),
{
    let total: usize = data.len();
    if total < 2 || data[0] != 0xFF || data[1] != 0xD8 {
        return true;
    }
    if total as u64 > MAX_FILE {
        return false;
    }
    let mut head: JpegHead = JpegHead {
        width: 0,
        height: 0,
        components: 0,
        progressive: false,
        quantiser: 0,
        category: 0,
        interval: 0,
        restless: false,
    };
    let mut at: usize = 2;
    while total - at >= 4
        invariant
            2 <= at <= total,
            total == data@.len(),
            head.category <= 15,
            is_jpeg(data@),
            total as u64 <= MAX_FILE,
            head_is_calm(data@, 2, blank_head()) == head_is_calm(data@, at as int, head),
        decreases total - at,
    {
        if data[at] != 0xFF {
            return false;
        }
        let marker: u8 = data[at + 1];
        let size: usize = read_be16(data, at + 2) as usize;
        if marker == 0xDA {
            if head.components == 0 {
                return false;
            }
            if head.progressive {
                return true;
            }
            if size != 6 + 2 * head.components as usize || total - at - 2 < size {
                return false;
            }
            return in_bounds(head) && one_pass(data, at + 2 + size);
        }
        if !((0xC0 <= marker && marker <= 0xC2) || marker == 0xC4 || marker == 0xDB || marker == 0xDD
            || (0xE0 <= marker && marker <= 0xEF) || marker == 0xFE) {
            return false;
        }
        if size < 2 || total - at - 2 < size {
            return true;
        }
        match read_segment(data, at, head) {
            Some(next) => {
                head = next;
            },
            None => {
                return false;
            },
        }
        at += 2 + size;
    }
    true
}

// ---------------------------------------------------------------------------
// Laws
// ---------------------------------------------------------------------------

/// A 16-bit number has its high byte in front.
pub proof fn lemma_numbers_have_the_high_byte_in_front(before: Seq<u8>, n: u16, after: Seq<u8>)
    ensures
        be16(before + seq![(n / 256) as u8, (n % 256) as u8] + after, before.len() as int) == n,
{
    let all = before + seq![(n / 256) as u8, (n % 256) as u8] + after;
    let at = before.len() as int;
    assert(all[at] == (n / 256) as u8 && all[at + 1] == (n % 256) as u8);
}

/// What does not begin as a JPEG file does is left to the decoder.
pub proof fn lemma_other_files_are_left_alone(data: Seq<u8>)
    ensures
        data.len() < 2 || data[0] != 0xFF || data[1] != 0xD8 ==> is_calm_jpeg(data),
        is_calm_jpeg(data) && data.len() > 0xFFFF_FFFF ==> data[0] != 0xFF || data[1] != 0xD8,
{
}

/// The factor that is found is at least as large as the first factor of the table in front
/// and as any that was known.
pub proof fn lemma_no_factor_is_larger(data: Seq<u8>, at: int, end: int, most: int)
    requires
        at < end,
    ensures
        quantiser_after(data, at, end, most) matches Some(n) ==> {
            &&& n >= most
            &&& data[at] < 0x10 ==> n >= data[at + 1]
            &&& 0x10 <= data[at] < 0x20 ==> n >= 256 * data[at + 1] + data[at + 2]
            &&& data[at] < 0x20
        },
{
    lemma_factors_do_not_shrink(
        data,
        if data[at] >= 0x10 {
            at + 129
        } else {
            at + 65
        },
        end,
        larger(
            most,
            if data[at] >= 0x10 {
                be16(data, at + 1)
            } else {
                data[at + 1] as int
            },
        ),
    );
}

proof fn lemma_factors_do_not_shrink(data: Seq<u8>, at: int, end: int, most: int)
    ensures
        quantiser_after(data, at, end, most) matches Some(n) ==> n >= most,
    decreases end - at,
{
    if at < end && data[at] < 0x20 {
        let wide = data[at] >= 0x10;
        let next = if wide {
            at + 129
        } else {
            at + 65
        };
        let first = if wide {
            be16(data, at + 1)
        } else {
            data[at + 1] as int
        };
        if next <= end {
            lemma_factors_do_not_shrink(data, next, end, larger(most, first));
        }
    }
}

proof fn lemma_largest_is_an_upper_bound(data: Seq<u8>, at: int, count: int, most: int)
    ensures
        largest_of(data, at, count, most) >= most,
        forall|i: int| 0 <= i < count ==> largest_of(data, at, count, most) >= #[trigger] data[at + i],
    decreases count,
{
    if count > 0 {
        lemma_largest_is_an_upper_bound(data, at, count - 1, most);
        assert forall|i: int| 0 <= i < count implies largest_of(data, at, count, most)
            >= #[trigger] data[at + i] by {
            if i == count - 1 {
                assert(data[at + i] == data[at + count - 1]);
            }
        }
    }
}

proof fn lemma_categories_do_not_shrink(data: Seq<u8>, at: int, end: int, most: int)
    ensures
        category_after(data, at, end, most) matches Some(n) ==> n >= most,
    decreases end - at,
{
    if at + 17 <= end {
        let count = sum_of(data, at + 1, 16);
        let next = at + 17 + count;
        let largest = if data[at] < 0x10 {
            largest_of(data, at + 17, count, most)
        } else {
            most
        };
        lemma_largest_is_an_upper_bound(data, at + 17, count, most);
        if count >= 0 && next <= end && largest <= 15 {
            lemma_categories_do_not_shrink(data, next, end, largest);
        }
    }
}

/// The category that is found is at least as large as any of the brightness table in front
/// and as any that was known; and none above 15 is taken.
pub proof fn lemma_no_category_is_larger(data: Seq<u8>, at: int, end: int, most: int, i: int)
    requires
        at + 17 <= end,
        0 <= i < sum_of(data, at + 1, 16),
    ensures
        category_after(data, at, end, most) matches Some(n) ==> {
            &&& n >= most
            &&& data[at] < 0x10 ==> n >= data[at + 17 + i]
            &&& data[at] < 0x10 ==> data[at + 17 + i] <= 15
        },
        data[at] < 0x10 && data[at + 17] != 0 && at + 17 + sum_of(data, at + 1, 16) <= end
            ==> steps_on_zeros(data, at, end),
{
    let count = sum_of(data, at + 1, 16);
    let next = at + 17 + count;
    let largest = if data[at] < 0x10 {
        largest_of(data, at + 17, count, most)
    } else {
        most
    };
    lemma_largest_is_an_upper_bound(data, at + 17, count, most);
    assert(data[(at + 17) + i] == data[at + 17 + i]);
    lemma_categories_do_not_shrink(data, next, end, largest);
}

/// A step of some bits stays below the power of two with that exponent.
pub proof fn lemma_steps_have_their_bits(category: nat)
    ensures
        largest_step(category as int) == pow2(category) - 1,
    decreases category,
{
    lemma2_to64();
    if category > 0 {
        lemma_steps_have_their_bits((category - 1) as nat);
        lemma_pow2_unfold(category);
    }
}

/// The bound on the brightness counts a step of every block of the picture with the largest
/// step and the largest factor; only where the brightness starts anew may it count fewer.
pub proof fn lemma_every_block_counts(head: JpegHead)
    ensures
        ({
            let blocks = (head.width as int / 8 + 2) * (head.height as int / 8 + 2);
            let step = (pow2(head.category as nat) - 1) * head.quantiser;
            &&& head.interval == 0 || head.restless ==> brightness_bound(head) == blocks * step
            &&& step_bound(head) <= blocks
            &&& step_bound(head) < blocks ==> step_bound(head) >= 4 * head.interval
        }),
{
    lemma_steps_have_their_bits(head.category as nat);
}

/// A frame that is taken says its size, how many colours there are and whether it comes in
/// several passes.
pub proof fn lemma_frames_say_their_size(data: Seq<u8>, at: int, head: JpegHead)
    ensures
        frame_after(data, at, head) matches Some(next) ==> {
            &&& next.height == 256 * data[at + 5] + data[at + 6]
            &&& next.width == 256 * data[at + 7] + data[at + 8]
            &&& 0 < next.height <= 0xFFF8 && 0 < next.width <= 0xFFF8
            &&& next.components == data[at + 9]
            &&& next.components == 1 || next.components == 3 || next.components == 4
            &&& next.progressive <==> data[at + 1] == 0xC2
            &&& next.quantiser == head.quantiser && next.category == head.category
            &&& next.interval == head.interval && next.restless == head.restless
            &&& head.components == 0
        },
{
}

/// Data without a marker is one pass, and a marker that is no restart ends the pass.
pub proof fn lemma_markers_end_a_pass(data: Seq<u8>, at: int, marker: int)
    requires
        0 <= at <= marker < data.len(),
        forall|i: int| at <= i < marker ==> #[trigger] data[i] != 0xFF,
    ensures
        marker + 1 == data.len() ==> is_one_pass(data, at),
        marker + 1 < data.len() && data[marker] == 0xFF && data[marker + 1] == 0xD9 ==> is_one_pass(
            data,
            at,
        ),
        marker + 1 < data.len() && data[marker] == 0xFF && 1 <= data[marker + 1] < 0xD0
            ==> !is_one_pass(data, at),
        marker + 1 < data.len() && data[marker] == 0xFF && (data[marker + 1] == 0xD8 || 0xDA
            <= data[marker + 1] < 0xFF) ==> !is_one_pass(data, at),
    decreases marker - at,
{
    if at < marker {
        lemma_markers_end_a_pass(data, at + 1, marker);
    }
}

} // verus!
