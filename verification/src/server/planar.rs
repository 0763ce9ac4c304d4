//! RDP6 planar codec.
//!
//! Encodes BGRX32 bitmaps as an `RDP6_BITMAP_STREAM`: the format header `0x30`,
//! then the red, green and blue planes. Each plane is delta-encoded against the
//! row above (zig-zag) and every scanline is run-length encoded on its own.
//!
//! The wire format is stated twice: `scanline_bytes` and the functions around it
//! say which bytes the encoder produces, `decode_*` say what a decoder reads back.
//! `lemma_encode_is_lossless` ties the two together.
use vstd::prelude::*;
use vstd::slice::slice_subrange;
use crate::server::planar_decode::{decode_stream, lemma_encode_follows_the_rows};

verus! {

/// Format header of every encoded stream: RLE on, no alpha plane, RGB colours.
pub const FORMAT_HEADER: u8 = 0x30;

// ---------------------------------------------------------------------------
// Zig-zag deltas
// ---------------------------------------------------------------------------

/// The byte that stands for a row delta. The delta is taken modulo 256 and read
/// as a signed byte; non-negative values become even, negative ones odd.
pub open spec fn zig_zag(delta: int) -> u8 {
    let low = delta % 256;
    if low < 128 {
        (2 * low) as u8
    } else {
        (2 * (256 - low) - 1) as u8
    }
}

/// The row delta (modulo 256) that a zig-zag byte stands for.
pub open spec fn zig_zag_delta(byte: u8) -> int {
    if byte % 2 == 0 {
        byte as int / 2
    } else {
        -((byte as int + 1) / 2)
    }
}

/// The value `delta` steps above `above`, in byte arithmetic.
pub open spec fn undo_delta(above: u8, byte: u8) -> u8 {
    ((above as int + zig_zag_delta(byte)) % 256) as u8
}

/// Applying the delta of `value` against `above` to `above` gives `value` back,
/// also where the difference does not fit a signed byte.
pub proof fn lemma_zig_zag_round_trip(above: u8, value: u8)
    ensures
        undo_delta(above, zig_zag(value as int - above as int)) == value,
{
}

/// Zig-zag encodes a signed row delta into an unsigned byte:
/// 0 -> 0, 1 -> 2, -1 -> 1, 2 -> 4, -2 -> 3, ..., -128 -> 255.
pub fn zig_zag_encode(delta: i16) -> (byte: u8)
    ensures
        byte == zig_zag(delta as int),
{
    let low: i16 = delta & 0xff;
    assert(0 <= low <= 255 && (delta - low) % 256 == 0) by (bit_vector)
        requires
            low == delta & 0xff,
    ;
    if low < 128 {
        (2 * low) as u8
    } else {
        (2 * (256 - low) - 1) as u8
    }
}

// ---------------------------------------------------------------------------
// Run-length encoding
// ---------------------------------------------------------------------------

/// A segment's control byte: the count in the high half, the run in the low half.
pub open spec fn control_byte(high: int, low: int) -> u8 {
    (16 * high + low) as u8
}

/// `count` copies of `value`.
pub open spec fn repeated(value: u8, count: nat) -> Seq<u8> {
    Seq::new(count, |i: int| value)
}

/// The bytes that continue a run of `last` for another `run` values: as many
/// 47-value segments as fit, one 16..46-value segment, or a short tail that
/// spells `last` out again.
pub open spec fn long_run_bytes(run: nat, last: u8) -> Seq<u8>
    decreases run,
{
    if run >= 47 {
        seq![control_byte(15, 2)] + long_run_bytes((run - 47) as nat, last)
    } else if run >= 32 {
        seq![control_byte(run - 32, 2)]
    } else if run >= 16 {
        seq![control_byte(run - 16, 1)]
    } else if run >= 4 {
        seq![control_byte(1, run - 1), last]
    } else if run >= 1 {
        seq![control_byte(run as int, 0)] + repeated(last, run)
    } else {
        seq![]
    }
}

/// The bytes for the literal values `raw` followed by `run` repeats of the last
/// of them. Literals go out in chunks of at most 15; the run rides on the last
/// chunk, up to 15 values, and continues behind it.
pub open spec fn segment_bytes(raw: Seq<u8>, run: nat) -> Seq<u8>
    decreases raw.len(),
{
    if raw.len() == 0 {
        seq![]
    } else if raw.len() > 15 {
        seq![control_byte(15, 0)] + raw.subrange(0, 15) + segment_bytes(raw.skip(15), run)
    } else if run > 15 {
        seq![control_byte(raw.len() as int, 15)] + raw + long_run_bytes(
            (run - 15) as nat,
            raw.last(),
        )
    } else {
        seq![control_byte(raw.len() as int, run as int)] + raw
    }
}

/// How many leading values of `line` are equal to the first one.
pub open spec fn leading_run(line: Seq<u8>) -> nat
    decreases line.len(),
{
    if line.len() == 0 {
        0
    } else if line.len() > 1 && line[1] == line[0] {
        1 + leading_run(line.skip(1))
    } else {
        1
    }
}

/// The canonical segmentation of `line`, with the literals `raw` still unwritten.
/// A value that occurs at least four times in a row closes a segment; shorter
/// repetitions join the literals.
pub open spec fn scanline_bytes_after(raw: Seq<u8>, line: Seq<u8>) -> Seq<u8>
    decreases line.len(),
{
    let count = leading_run(line);
    if line.len() == 0 || count == 0 || count > line.len() {
        segment_bytes(raw, 0)
    } else if count >= 4 {
        segment_bytes(raw.push(line[0]), (count - 1) as nat) + scanline_bytes_after(
            seq![],
            line.skip(count as int),
        )
    } else {
        scanline_bytes_after(raw + line.take(count as int), line.skip(count as int))
    }
}

/// The encoding of one scanline.
pub open spec fn scanline_bytes(line: Seq<u8>) -> Seq<u8> {
    scanline_bytes_after(seq![], line)
}

pub proof fn lemma_leading_run_bounds(line: Seq<u8>)
    ensures
        leading_run(line) <= line.len(),
        line.len() > 0 ==> leading_run(line) > 0,
        forall|i: int| 0 <= i < leading_run(line) ==> #[trigger] line[i] == line[0],
        leading_run(line) < line.len() ==> line[leading_run(line) as int] != line[0],
    decreases line.len(),
{
    if line.len() > 1 && line[1] == line[0] {
        let rest = line.skip(1);
        lemma_leading_run_bounds(rest);
        assert forall|i: int| 0 <= i < leading_run(line) implies #[trigger] line[i] == line[0] by {
            if i > 0 {
                assert(rest[i - 1] == rest[0]);
            }
        }
        if leading_run(line) < line.len() {
            assert(rest[leading_run(rest) as int] != rest[0]);
        }
    }
}

proof fn lemma_leading_run_is(line: Seq<u8>, count: nat)
    requires
        0 < count <= line.len(),
        forall|i: int| 0 <= i < count ==> #[trigger] line[i] == line[0],
        count < line.len() ==> line[count as int] != line[0],
    ensures
        leading_run(line) == count,
{
    lemma_leading_run_bounds(line);
    let found = leading_run(line);
    if found < count {
        assert(line[found as int] == line[0]);
    }
    if count < found {
        assert(line[count as int] == line[0]);
    }
}

/// Packs a segment's control byte.
fn control(high: u8, low: u8) -> (byte: u8)
    requires
        high < 16,
        low < 16,
    ensures
        byte == control_byte(high as int, low as int),
{
    assert((high << 4) | low == 16 * high + low) by (bit_vector)
        requires
            high < 16,
            low < 16,
    ;
    (high << 4) | low
}

fn push_all(output: &mut Vec<u8>, bytes: &[u8])
    ensures
        final(output)@ == old(output)@ + bytes@,
{
    output.extend_from_slice(bytes);
    assert(output@ =~= old(output)@ + bytes@);
}

fn push_repeated(output: &mut Vec<u8>, value: u8, count: usize)
    ensures
        final(output)@ == old(output)@ + repeated(value, count as nat),
{
    let mut done: usize = 0;
    while done < count
        invariant
            done <= count,
            output@ == old(output)@ + repeated(value, done as nat),
        decreases count - done,
    {
        output.push(value);
        done += 1;
        assert(output@ =~= old(output)@ + repeated(value, done as nat));
    }
}

/// Appends the segments that continue a run of `last` for `run` more values.
pub fn encode_long_sequence(run: usize, last: u8, output: &mut Vec<u8>)
    ensures
        final(output)@ == old(output)@ + long_run_bytes(run as nat, last),
{
    let mut left: usize = run;
    while left >= 16
        invariant
            output@ + long_run_bytes(left as nat, last) == old(output)@ + long_run_bytes(
                run as nat,
                last,
            ),
        decreases left,
    {
        let current: usize = if left < 47 { left } else { 47 };
        let quotient: usize = current / 16;
        let c_raw_bytes: usize = if quotient < 2 { quotient } else { 2 };
        let n_run_length: usize = current - c_raw_bytes * 16;
        let ghost before = output@;
        output.push(control(n_run_length as u8, c_raw_bytes as u8));
        assert(output@ + long_run_bytes((left - current) as nat, last) =~= before + long_run_bytes(
            left as nat,
            last,
        ));
        left -= current;
    }
    let ghost before = output@;
    if left >= 4 {
        output.push(control(1, (left - 1) as u8));
        output.push(last);
    } else if left >= 1 {
        output.push(control(left as u8, 0));
        push_repeated(output, last, left);
    }
    assert(output@ =~= before + long_run_bytes(left as nat, last));
}

/// Appends the segments for the literals `raw` and `run` repeats of the last one.
pub fn encode_segment(raw: &[u8], run: usize, output: &mut Vec<u8>)
    ensures
        final(output)@ == old(output)@ + segment_bytes(raw@, run as nat),
{
    let total: usize = raw.len();
    if total == 0 {
        assert(output@ =~= output@ + segment_bytes(raw@, run as nat));
        return ;
    }
    let mut start: usize = 0;
    assert(raw@.skip(0) =~= raw@);
    while total - start > 15
        invariant
            start < total == raw@.len(),
            output@ + segment_bytes(raw@.skip(start as int), run as nat) == old(output)@
                + segment_bytes(raw@, run as nat),
        decreases total - start,
    {
        let ghost rest = raw@.skip(start as int);
        let ghost before = output@;
        output.push(control(15, 0));
        push_all(output, slice_subrange(raw, start, start + 15));
        assert(rest.subrange(0, 15) =~= raw@.subrange(start as int, start + 15));
        assert(rest.skip(15) =~= raw@.skip(start + 15));
        assert(output@ + segment_bytes(rest.skip(15), run as nat) =~= before + segment_bytes(
            rest,
            run as nat,
        ));
        start += 15;
    }
    let ghost rest = raw@.skip(start as int);
    let ghost before = output@;
    let raw_len: usize = total - start;
    let run_capped: usize = if run < 15 { run } else { 15 };
    output.push(control(raw_len as u8, run_capped as u8));
    push_all(output, slice_subrange(raw, start, total));
    assert(rest =~= raw@.subrange(start as int, total as int));
    if run > 15 {
        let last: u8 = raw[total - 1];
        encode_long_sequence(run - 15, last, output);
    }
    assert(output@ =~= before + segment_bytes(rest, run as nat));
}

/// Run-length encodes a single scanline. A segment carries up to 15 literals
/// followed by a run of the last of them; long runs use the 16+ and 32+ forms.
pub fn encode_rle_scanline(input: &[u8], output: &mut Vec<u8>)
    ensures
        final(output)@ == old(output)@ + scanline_bytes(input@),
{
    let total: usize = input.len();
    if total == 0 {
        assert(output@ =~= output@ + scanline_bytes(input@));
        return ;
    }
    let ghost line = input@;
    let mut last: u8 = input[0];
    // Repeats of `last` behind its first occurrence in the current run.
    let mut count: usize = 0;
    let mut raw: Vec<u8> = Vec::new();
    raw.push(last);
    let mut i: usize = 1;
    assert(raw@.drop_last() =~= seq![]);
    assert(line.skip(0) =~= line);
    while i < total
        invariant
            line == input@,
            1 <= i <= total == line.len(),
            count < i,
            raw@.len() > 0,
            raw@.last() == last,
            forall|k: int| i - 1 - count <= k < i ==> line[k] == last,
            output@ + scanline_bytes_after(raw@.drop_last(), line.skip(i - 1 - count)) == old(
                output,
            )@ + scanline_bytes(line),
        decreases total - i,
    {
        let byte: u8 = input[i];
        if byte == last {
            count += 1;
        } else {
            let ghost pending = line.skip(i - 1 - count);
            let ghost run = (count + 1) as nat;
            let ghost before = output@;
            let ghost head = raw@.drop_last();
            proof {
                lemma_leading_run_is(pending, run);
                assert(pending.skip(run as int) =~= line.skip(i as int));
                assert(head.push(pending[0]) =~= raw@);
            }
            if count >= 3 {
                encode_segment(raw.as_slice(), count, output);
                raw.clear();
                assert(output@ + scanline_bytes_after(seq![], line.skip(i as int)) =~= before
                    + scanline_bytes_after(head, pending));
            } else {
                push_repeated(&mut raw, last, count);
                assert(raw@ =~= head + pending.take(run as int));
            }
            let ghost settled = raw@;
            raw.push(byte);
            assert(raw@.drop_last() =~= settled);
            last = byte;
            count = 0;
        }
        i += 1;
    }
    let ghost pending = line.skip(total - 1 - count);
    let ghost run = (count + 1) as nat;
    let ghost before = output@;
    let ghost head = raw@.drop_last();
    proof {
        lemma_leading_run_is(pending, run);
        assert(pending.skip(run as int) =~= seq![]);
        assert(head.push(pending[0]) =~= raw@);
    }
    if count < 3 {
        push_repeated(&mut raw, last, count);
        assert(raw@ =~= head + pending.take(run as int));
        count = 0;
    }
    encode_segment(raw.as_slice(), count, output);
    assert(output@ =~= before + scanline_bytes_after(head, pending)) by {
        reveal_with_fuel(scanline_bytes_after, 2);
    }
}

// ---------------------------------------------------------------------------
// Planes
// ---------------------------------------------------------------------------

/// Position of column `x` of row `y` in a plane whose rows hold `width` values.
pub open spec fn cell(width: int, y: int, x: int) -> int {
    y * width + x
}

/// The rows of a plane that is stored row after row.
pub open spec fn plane_rows(plane: Seq<u8>, width: int, height: nat) -> Seq<Seq<u8>> {
    Seq::new(height, |y: int| plane.subrange(y * width, y * width + width))
}

/// The encoding of a plane: its scanlines, each encoded on its own, in order.
pub open spec fn plane_bytes(rows: Seq<Seq<u8>>) -> Seq<u8>
    decreases rows.len(),
{
    if rows.len() == 0 {
        seq![]
    } else {
        plane_bytes(rows.drop_last()) + scanline_bytes(rows.last())
    }
}

/// One colour channel of a BGRX bitmap, row by row from the top. `offset` is the
/// channel's place in a pixel: 0 blue, 1 green, 2 red.
pub open spec fn channel_rows(
    bgra: Seq<u8>,
    width: nat,
    height: nat,
    stride: int,
    offset: int,
) -> Seq<Seq<u8>> {
    Seq::new(height, |y: int| Seq::new(width, |x: int| bgra[y * stride + x * 4 + offset]))
}

/// A plane as it is run-length encoded: the first row as it is, every other row
/// as zig-zag deltas against the row above.
pub open spec fn delta_rows(rows: Seq<Seq<u8>>) -> Seq<Seq<u8>> {
    Seq::new(
        rows.len(),
        |y: int|
            if y == 0 {
                rows[0]
            } else {
                Seq::new(rows[y].len(), |x: int| zig_zag(rows[y][x] as int - rows[y - 1][x] as int))
            },
    )
}

/// The distance between the starts of two rows: `scanline`, or tight rows for 0.
pub open spec fn row_stride(width: int, scanline: int) -> int {
    if scanline == 0 {
        width * 4
    } else {
        scanline
    }
}

/// The stream for a bitmap of which only the colours count: the header, then the
/// red, green and blue planes.
pub open spec fn stream_bytes(
    red: Seq<Seq<u8>>,
    green: Seq<Seq<u8>>,
    blue: Seq<Seq<u8>>,
) -> Seq<u8> {
    seq![FORMAT_HEADER] + plane_bytes(delta_rows(red)) + plane_bytes(delta_rows(green))
        + plane_bytes(delta_rows(blue))
}

/// The stream for a BGRX bitmap.
pub open spec fn encoding_of(bgra: Seq<u8>, width: nat, height: nat, stride: int) -> Seq<u8> {
    stream_bytes(
        channel_rows(bgra, width, height, stride, 2),
        channel_rows(bgra, width, height, stride, 1),
        channel_rows(bgra, width, height, stride, 0),
    )
}

/// The bitmap holds every pixel that the encoder reads.
pub open spec fn bitmap_covers(len: int, width: int, height: int, stride: int) -> bool {
    width > 0 && height > 0 ==> (height - 1) * stride + width * 4 <= len
}

/// One value of a delta-encoded plane.
#[verifier::opaque]
spec fn delta_at(plane: Seq<u8>, width: int, y: int, x: int) -> u8 {
    if y == 0 {
        plane[x]
    } else {
        zig_zag(plane[cell(width, y, x)] - plane[cell(width, y - 1, x)])
    }
}

proof fn lemma_cell_bounds(width: int, height: int, y: int, x: int)
    requires
        0 <= y < height,
        0 <= x < width,
    ensures
        0 <= y * width <= cell(width, y, x) < (y + 1) * width <= height * width,
        (y + 1) * width == y * width + width,
{
    assert(0 <= y * width <= y * width + x < (y + 1) * width <= height * width && (y + 1) * width
        == y * width + width) by (nonlinear_arith)
        requires
            0 <= y < height,
            0 <= x < width,
    ;
}

proof fn lemma_row_bounds(width: int, height: int, y: int)
    requires
        0 <= y < height,
        0 <= width,
    ensures
        0 <= y * width <= y * width + width == (y + 1) * width <= height * width,
{
    assert(0 <= y * width <= y * width + width == (y + 1) * width <= height * width)
        by (nonlinear_arith)
        requires
            0 <= y < height,
            0 <= width,
    ;
}

proof fn lemma_cells_differ(width: int, y: int, x: int, a: int, b: int)
    requires
        0 <= y,
        0 <= a <= y,
        0 <= x < width,
        0 <= b < width,
        a < y || b != x,
    ensures
        cell(width, a, b) != cell(width, y, x),
{
    if a < y {
        lemma_cell_bounds(width, y, a, b);
        lemma_cell_bounds(width, y + 1, y, x);
    }
}

/// Row `y` of a plane, cell by cell.
proof fn lemma_plane_row(plane: Seq<u8>, width: nat, height: nat, y: int, x: int)
    requires
        0 <= y < height,
        0 <= x < width,
        width * height <= plane.len(),
    ensures
        plane_rows(plane, width as int, height)[y].len() == width,
        plane_rows(plane, width as int, height)[y][x] == plane[cell(width as int, y, x)],
{
    lemma_row_bounds(width as int, height as int, y);
    assert(height * width == width * height) by (nonlinear_arith);
}

/// Run-length encodes a delta-encoded plane, every scanline on its own.
pub fn rle_compress_plane(plane: &[u8], width: usize, height: usize) -> (output: Vec<u8>)
    requires
        width * height <= plane@.len(),
    ensures
        output@ == plane_bytes(plane_rows(plane@, width as int, height as nat)),
{
    let ghost rows = plane_rows(plane@, width as int, height as nat);
    let total: usize = plane.len();
    let mut output: Vec<u8> = Vec::new();
    let mut y: usize = 0;
    let mut start: usize = 0;
    assert(rows.take(0) =~= seq![]);
    assert(0 * (width as int) == 0);
    while y < height
        invariant
            y <= height,
            start == y * width,
            width * height <= plane@.len() == total,
            rows == plane_rows(plane@, width as int, height as nat),
            output@ == plane_bytes(rows.take(y as int)),
        decreases height - y,
    {
        proof {
            lemma_row_bounds(width as int, height as int, y as int);
            assert(height * width == width * height) by (nonlinear_arith);
            assert(rows.take(y + 1).drop_last() =~= rows.take(y as int));
        }
        encode_rle_scanline(slice_subrange(plane, start, start + width), &mut output);
        y += 1;
        start += width;
    }
    assert(rows.take(height as int) =~= rows);
    output
}

/// Working buffers of one colour channel.
struct Channel {
    plane: Vec<u8>,
    delta: Vec<u8>,
}

impl Channel {
    spec fn holds(&self, size: int) -> bool {
        self.plane@.len() == self.delta@.len() == size
    }

    fn sized(size: usize) -> (channel: Channel)
        ensures
            channel.holds(size as int),
    {
        Channel { plane: vec![0u8; size], delta: vec![0u8; size] }
    }

    /// Takes the channel at `offset` out of the bitmap.
    fn split(&mut self, bgra: &[u8], width: usize, height: usize, stride: usize, offset: usize)
        requires
            old(self).holds(old(self).plane@.len() as int),
            width * height <= old(self).plane@.len(),
            bitmap_covers(bgra@.len() as int, width as int, height as int, stride as int),
            offset < 4,
        ensures
            final(self).holds(old(self).plane@.len() as int),
            plane_rows(final(self).plane@, width as int, height as nat) == channel_rows(
                bgra@,
                width as nat,
                height as nat,
                stride as int,
                offset as int,
            ),
    {
        let size: usize = self.plane.len();
        let total: usize = bgra.len();
        assert(height * width == width * height) by (nonlinear_arith);
        let mut y: usize = 0;
        while y < height
            invariant
                y <= height,
                offset < 4,
                self.plane@.len() == size,
                self.delta@.len() == size,
                height * width <= size,
                bitmap_covers(total as int, width as int, height as int, stride as int),
                total == bgra@.len(),
                forall|a: int, b: int|
                    0 <= a < y && 0 <= b < width ==> self.plane@[#[trigger] cell(width as int, a, b)]
                        == bgra@[a * stride + b * 4 + offset],
            decreases height - y,
        {
            let mut x: usize = 0;
            while x < width
                invariant
                    y < height,
                    x <= width,
                    offset < 4,
                        self.plane@.len() == size,
                    self.delta@.len() == size,
                    height * width <= size,
                    bitmap_covers(total as int, width as int, height as int, stride as int),
                    total == bgra@.len(),
                    forall|a: int, b: int|
                        0 <= a < y && 0 <= b < width ==> self.plane@[#[trigger] cell(
                            width as int,
                            a,
                            b,
                        )] == bgra@[a * stride + b * 4 + offset],
                    forall|b: int|
                        0 <= b < x ==> self.plane@[#[trigger] cell(width as int, y as int, b)]
                            == bgra@[y * stride + b * 4 + offset],
                decreases width - x,
            {
                proof {
                    lemma_cell_bounds(width as int, height as int, y as int, x as int);
                    assert(0 <= y * stride <= (height - 1) * stride) by (nonlinear_arith)
                        requires
                            0 <= y < height,
                            0 <= stride,
                    ;
                }
                let ghost before = self.plane@;
                let value: u8 = bgra[y * stride + x * 4 + offset];
                self.plane.set(y * width + x, value);
                assert forall|a: int, b: int|
                    0 <= a <= y && 0 <= b < width && (a < y || b < x) implies self.plane@[
                    #[trigger] cell(width as int, a, b)] == before[cell(width as int, a, b)] by {
                    lemma_cells_differ(width as int, y as int, x as int, a, b);
                    lemma_cell_bounds(width as int, height as int, a, b);
                }
                x += 1;
            }
            y += 1;
        }
        let ghost rows = plane_rows(self.plane@, width as int, height as nat);
        let ghost wanted = channel_rows(
            bgra@,
            width as nat,
            height as nat,
            stride as int,
            offset as int,
        );
        assert forall|a: int| 0 <= a < height implies rows[a] == wanted[a] by {
            lemma_row_bounds(width as int, height as int, a);
            assert(rows[a].len() == width);
            assert forall|b: int| 0 <= b < width implies rows[a][b] == wanted[a][b] by {
                lemma_plane_row(self.plane@, width as nat, height as nat, a, b);
            }
            assert(rows[a] =~= wanted[a]);
        }
        assert(rows =~= wanted);
    }

    /// Delta-encodes the plane into the second buffer.
    fn encode_deltas(&mut self, width: usize, height: usize)
        requires
            old(self).holds(old(self).plane@.len() as int),
            width * height <= old(self).plane@.len(),
        ensures
            final(self).holds(old(self).plane@.len() as int),
            plane_rows(final(self).delta@, width as int, height as nat) == delta_rows(
                plane_rows(old(self).plane@, width as int, height as nat),
            ),
    {
        let size: usize = self.plane.len();
        let ghost plane = self.plane@;
        assert(height * width == width * height) by (nonlinear_arith);
        let mut y: usize = 0;
        while y < height
            invariant
                y <= height,
                plane == self.plane@,
                self.plane@.len() == size,
                self.delta@.len() == size,
                height * width <= size,
                forall|a: int, b: int|
                    0 <= a < y && 0 <= b < width ==> self.delta@[#[trigger] cell(width as int, a, b)]
                        == delta_at(plane, width as int, a, b),
            decreases height - y,
        {
            let mut x: usize = 0;
            while x < width
                invariant
                    y < height,
                    x <= width,
                        plane == self.plane@,
                    self.plane@.len() == size,
                    self.delta@.len() == size,
                    height * width <= size,
                    forall|a: int, b: int|
                        0 <= a < y && 0 <= b < width ==> self.delta@[#[trigger] cell(
                            width as int,
                            a,
                            b,
                        )] == delta_at(plane, width as int, a, b),
                    forall|b: int|
                        0 <= b < x ==> self.delta@[#[trigger] cell(width as int, y as int, b)]
                            == delta_at(plane, width as int, y as int, b),
                decreases width - x,
            {
                proof {
                    lemma_cell_bounds(width as int, height as int, y as int, x as int);
                    if y > 0 {
                        lemma_cell_bounds(width as int, height as int, y - 1, x as int);
                    }
                    assert(0 * (width as int) == 0);
                }
                let ghost before = self.delta@;
                let at: usize = y * width + x;
                let value: u8 = if y == 0 {
                    self.plane[at]
                } else {
                    let above: usize = (y - 1) * width + x;
                    zig_zag_encode(self.plane[at] as i16 - self.plane[above] as i16)
                };
                self.delta.set(at, value);
                assert(value == delta_at(plane, width as int, y as int, x as int)) by {
                    reveal(delta_at);
                }
                assert forall|a: int, b: int|
                    0 <= a <= y && 0 <= b < width && (a < y || b < x) implies self.delta@[
                    #[trigger] cell(width as int, a, b)] == before[cell(width as int, a, b)] by {
                    lemma_cells_differ(width as int, y as int, x as int, a, b);
                    lemma_cell_bounds(width as int, height as int, a, b);
                }
                x += 1;
            }
            y += 1;
        }
        let ghost rows = plane_rows(self.delta@, width as int, height as nat);
        let ghost source = plane_rows(plane, width as int, height as nat);
        let ghost wanted = delta_rows(source);
        assert forall|a: int| 0 <= a < height implies rows[a] == wanted[a] by {
            lemma_row_bounds(width as int, height as int, a);
            assert(rows[a].len() == width);
            assert(source[a].len() == width);
            assert forall|b: int| 0 <= b < width implies rows[a][b] == wanted[a][b] by {
                assert(0 * (width as int) == 0);
                lemma_plane_row(self.delta@, width as nat, height as nat, a, b);
                lemma_plane_row(plane, width as nat, height as nat, a, b);
                if a > 0 {
                    lemma_plane_row(plane, width as nat, height as nat, a - 1, b);
                }
                reveal(delta_at);
            }
            assert(rows[a] =~= wanted[a]);
        }
        assert(rows =~= wanted);
    }
}

/// RDP6 planar encoder. Reuse it across frames: its buffers grow with the largest
/// bitmap and are kept.
pub struct PlanarEncoder {
    red: Channel,
    green: Channel,
    blue: Channel,
}

impl PlanarEncoder {
    /// All working buffers have the same size.
    pub closed spec fn well_formed(&self) -> bool {
        let size = self.red.plane@.len() as int;
        self.red.holds(size) && self.green.holds(size) && self.blue.holds(size)
    }

    /// How many pixels the working buffers have room for.
    pub closed spec fn buffered_pixels(&self) -> nat {
        self.red.plane@.len()
    }

    /// An encoder with buffers for `width` by `height` pixels.
    pub fn new(width: usize, height: usize) -> (encoder: Self)
        requires
            width * height <= isize::MAX,
        ensures
            encoder.well_formed(),
            encoder.buffered_pixels() == width * height,
    {
        let plane_size: usize = width * height;
        PlanarEncoder {
            red: Channel::sized(plane_size),
            green: Channel::sized(plane_size),
            blue: Channel::sized(plane_size),
        }
    }

    /// Encodes a BGRX/BGRA32 bitmap, top row first. `scanline` is the number of
    /// bytes per row of the input; 0 stands for `width * 4`.
    ///
    /// Returns the format header and the encoded red, green and blue planes.
    pub fn encode(
        &mut self,
        bgra_data: &[u8],
        width: usize,
        height: usize,
        scanline: usize,
    ) -> (output: Vec<u8>)
        requires
            old(self).well_formed(),
            width * height <= isize::MAX,
            row_stride(width as int, scanline as int) <= usize::MAX,
            bitmap_covers(
                bgra_data@.len() as int,
                width as int,
                height as int,
                row_stride(width as int, scanline as int),
            ),
            height == 0 ==> width <= old(self).buffered_pixels(),
        ensures
            final(self).well_formed(),
            final(self).buffered_pixels() == if old(self).buffered_pixels() < width * height {
                (width * height) as nat
            } else {
                old(self).buffered_pixels()
            },
            output@ == encoding_of(
                bgra_data@,
                width as nat,
                height as nat,
                row_stride(width as int, scanline as int),
            ),
            ({
                let found = decode_stream(output@, width as nat, height as nat);
                let stride: int = if scanline > 0 {
                    scanline as int
                } else {
                    width * 4
                };
                &&& found is Some
                &&& found->Some_0.red.len() == height
                &&& found->Some_0.green.len() == height
                &&& found->Some_0.blue.len() == height
                &&& found->Some_0.rest.len() == 0
                &&& forall|y: int, x: int|
                    0 <= y < height && 0 <= x < width ==> #[trigger] found->Some_0.red[y][x]
                        == bgra_data@[y * stride + x * 4 + 2]
                &&& forall|y: int, x: int|
                    0 <= y < height && 0 <= x < width ==> #[trigger] found->Some_0.green[y][x]
                        == bgra_data@[y * stride + x * 4 + 1]
                &&& forall|y: int, x: int|
                    0 <= y < height && 0 <= x < width ==> #[trigger] found->Some_0.blue[y][x]
                        == bgra_data@[y * stride + x * 4]
            }),
    {
        proof {
            lemma_encode_follows_the_rows(
                bgra_data@,
                width as nat,
                height as nat,
                scanline as int,
            );
        }
        let stride: usize = if scanline == 0 {
            width * 4
        } else {
            scanline
        };
        let plane_size: usize = width * height;
        if self.red.plane.len() < plane_size {
            self.red = Channel::sized(plane_size);
            self.green = Channel::sized(plane_size);
            self.blue = Channel::sized(plane_size);
        }
        self.red.split(bgra_data, width, height, stride, 2);
        self.green.split(bgra_data, width, height, stride, 1);
        self.blue.split(bgra_data, width, height, stride, 0);
        self.red.encode_deltas(width, height);
        self.green.encode_deltas(width, height);
        self.blue.encode_deltas(width, height);

        let mut output: Vec<u8> = Vec::new();
        output.push(FORMAT_HEADER);
        let red: Vec<u8> = rle_compress_plane(self.red.delta.as_slice(), width, height);
        push_all(&mut output, red.as_slice());
        let green: Vec<u8> = rle_compress_plane(self.green.delta.as_slice(), width, height);
        push_all(&mut output, green.as_slice());
        let blue: Vec<u8> = rle_compress_plane(self.blue.delta.as_slice(), width, height);
        push_all(&mut output, blue.as_slice());
        output
    }
}

} // verus!
