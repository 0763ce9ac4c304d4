//! What a decoder reads back from an RDP6 planar stream, and what that says of
//! the encoder: nothing is lost, and a scanline grows by at most one byte for
//! every 15 values.
use vstd::prelude::*;
use crate::server::planar::{
    cell, channel_rows, control_byte, delta_rows, encoding_of, leading_run, lemma_leading_run_bounds,
    lemma_zig_zag_round_trip, long_run_bytes, plane_bytes, repeated, scanline_bytes,
    row_stride, scanline_bytes_after, segment_bytes, stream_bytes, undo_delta, zig_zag, zig_zag_delta,
    FORMAT_HEADER,
};

verus! {

/// How many literals a segment with this control byte carries.
pub open spec fn literal_count(control: u8) -> nat {
    if control % 16 == 1 || control % 16 == 2 {
        0
    } else {
        (control / 16) as nat
    }
}

/// How many repeats follow the literals. The run fields 1 and 2 stand for runs of
/// 16 and 32 plus the value of the other half.
pub open spec fn run_count(control: u8) -> nat {
    if control % 16 == 1 {
        (16 + control / 16) as nat
    } else if control % 16 == 2 {
        (32 + control / 16) as nat
    } else {
        (control % 16) as nat
    }
}

/// Reads segments until `left` values are there. `last` is the value that a
/// segment without literals repeats. The result is the values and the unread rest.
pub open spec fn decode_values(stream: Seq<u8>, left: nat, last: u8) -> Option<
    (Seq<u8>, Seq<u8>),
>
    decreases left,
{
    if left == 0 {
        Some((seq![], stream))
    } else if stream.len() == 0 || stream[0] == 0 {
        None
    } else {
        let literals = literal_count(stream[0]);
        let run = run_count(stream[0]);
        if literals + run > left || stream.len() < 1 + literals || literals + run == 0 {
            None
        } else {
            let raw = stream.subrange(1, 1 + literals as int);
            let value = if literals > 0 {
                raw.last()
            } else {
                last
            };
            prepend(
                raw + repeated(value, run),
                decode_values(
                    stream.skip(1 + literals as int),
                    (left - literals - run) as nat,
                    value,
                ),
            )
        }
    }
}

/// Puts `values` in front of what was decoded.
pub open spec fn prepend(
    values: Seq<u8>,
    decoded: Option<(Seq<u8>, Seq<u8>)>,
) -> Option<(Seq<u8>, Seq<u8>)> {
    match decoded {
        Some((more, rest)) => Some((values + more, rest)),
        None => None,
    }
}

/// Reads one scanline of `width` values; nothing precedes it, so `last` is 0.
pub open spec fn decode_scanline(stream: Seq<u8>, width: nat) -> Option<(Seq<u8>, Seq<u8>)> {
    decode_values(stream, width, 0)
}

/// Reads `height` rows, undoing the deltas of all but the first.
pub open spec fn decode_plane(stream: Seq<u8>, width: nat, height: nat) -> Option<
    (Seq<Seq<u8>>, Seq<u8>),
>
    decreases height,
{
    if height == 0 {
        Some((seq![], stream))
    } else {
        match decode_plane(stream, width, (height - 1) as nat) {
            None => None,
            Some((rows, unread)) => match decode_scanline(unread, width) {
                None => None,
                Some((values, rest)) => {
                    let row = if rows.len() == 0 {
                        values
                    } else {
                        Seq::new(width, |x: int| undo_delta(rows.last()[x], values[x]))
                    };
                    Some((rows.push(row), rest))
                },
            },
        }
    }
}

/// The colour planes of a decoded bitmap.
pub ghost struct DecodedPlanes {
    pub red: Seq<Seq<u8>>,
    pub green: Seq<Seq<u8>>,
    pub blue: Seq<Seq<u8>>,
    pub rest: Seq<u8>,
}

/// Reads a stream with the header that the encoder writes.
pub open spec fn decode_stream(stream: Seq<u8>, width: nat, height: nat) -> Option<
    DecodedPlanes,
> {
    if stream.len() == 0 || stream[0] != FORMAT_HEADER {
        None
    } else {
        match decode_plane(stream.skip(1), width, height) {
            None => None,
            Some((red, after_red)) => match decode_plane(after_red, width, height) {
                None => None,
                Some((green, after_green)) => match decode_plane(after_green, width, height) {
                    None => None,
                    Some((blue, rest)) => Some(DecodedPlanes { red, green, blue, rest }),
                },
            },
        }
    }
}

// ---------------------------------------------------------------------------
// Round trip
// ---------------------------------------------------------------------------

proof fn lemma_decode_step(control: u8, raw: Seq<u8>, tail: Seq<u8>, left: nat, last: u8)
    requires
        control != 0,
        literal_count(control) == raw.len(),
        raw.len() + run_count(control) <= left,
    ensures
        decode_values(seq![control] + raw + tail, left, last) == ({
            let value = if raw.len() > 0 {
                raw.last()
            } else {
                last
            };
            prepend(
                raw + repeated(value, run_count(control)),
                decode_values(tail, (left - raw.len() - run_count(control)) as nat, value),
            )
        }),
{
    let stream = seq![control] + raw + tail;
    assert(stream[0] == control);
    assert(stream.subrange(1, 1 + raw.len() as int) =~= raw);
    assert(stream.skip(1 + raw.len() as int) =~= tail);
}

proof fn lemma_prepend_twice(
    first: Seq<u8>,
    second: Seq<u8>,
    decoded: Option<(Seq<u8>, Seq<u8>)>,
)
    ensures
        prepend(first, prepend(second, decoded)) == prepend(first + second, decoded),
{
    if let Some((more, rest)) = decoded {
        assert(first + (second + more) =~= first + second + more);
    }
}

/// A run without literals that fits one control byte.
proof fn lemma_decode_wide_run(run: nat, last: u8, tail: Seq<u8>, left: nat)
    requires
        16 <= run < 47,
        run <= left,
    ensures
        decode_values(long_run_bytes(run, last) + tail, left, last) == prepend(
            repeated(last, run),
            decode_values(tail, (left - run) as nat, last),
        ),
{
    let none: Seq<u8> = seq![];
    let control = if run >= 32 {
        control_byte(run - 32, 2)
    } else {
        control_byte(run - 16, 1)
    };
    assert(control != 0 && literal_count(control) == 0 && run_count(control) == run);
    assert(long_run_bytes(run, last) =~= seq![control]) by {
        reveal_with_fuel(long_run_bytes, 2);
    }
    assert(long_run_bytes(run, last) + tail =~= seq![control] + none + tail);
    lemma_decode_step(control, none, tail, left, last);
    assert(none + repeated(last, run) =~= repeated(last, run));
}

/// The part of a run that one segment finishes.
proof fn lemma_decode_run_end(run: nat, last: u8, tail: Seq<u8>, left: nat)
    requires
        run < 47,
        run <= left,
    ensures
        decode_values(long_run_bytes(run, last) + tail, left, last) == prepend(
            repeated(last, run),
            decode_values(tail, (left - run) as nat, last),
        ),
{
    if run >= 16 {
        lemma_decode_wide_run(run, last, tail, left);
    } else if run >= 4 {
        let control = control_byte(1, run - 1);
        assert(long_run_bytes(run, last) + tail =~= seq![control] + seq![last] + tail);
        lemma_decode_step(control, seq![last], tail, left, last);
        assert(seq![last] + repeated(last, (run - 1) as nat) =~= repeated(last, run));
    } else if run >= 1 {
        let control = control_byte(run as int, 0);
        assert(long_run_bytes(run, last) + tail =~= seq![control] + repeated(last, run) + tail);
        lemma_decode_step(control, repeated(last, run), tail, left, last);
        assert(repeated(last, run) + repeated(last, 0) =~= repeated(last, run));
    } else {
        assert(long_run_bytes(run, last) + tail =~= tail);
        if let Some((more, rest)) = decode_values(tail, left, last) {
            assert(repeated(last, 0) + more =~= more);
        }
    }
}

proof fn lemma_decode_long_run(run: nat, last: u8, tail: Seq<u8>, left: nat)
    requires
        run <= left,
    ensures
        decode_values(long_run_bytes(run, last) + tail, left, last) == prepend(
            repeated(last, run),
            decode_values(tail, (left - run) as nat, last),
        ),
    decreases run,
{
    let none: Seq<u8> = seq![];
    let after = decode_values(tail, (left - run) as nat, last);
    if run >= 47 {
        let more = long_run_bytes((run - 47) as nat, last);
        assert(long_run_bytes(run, last) + tail =~= seq![control_byte(15, 2)] + none + (more
            + tail));
        lemma_decode_step(control_byte(15, 2), none, more + tail, left, last);
        lemma_decode_long_run((run - 47) as nat, last, tail, (left - 47) as nat);
        lemma_prepend_twice(none + repeated(last, 47), repeated(last, (run - 47) as nat), after);
        assert(none + repeated(last, 47) + repeated(last, (run - 47) as nat) =~= repeated(
            last,
            run,
        ));
    } else {
        lemma_decode_run_end(run, last, tail, left);
    }
}

/// Decoding a segment gives its literals, then the run, and goes on behind it.
pub proof fn lemma_decode_segment(
    raw: Seq<u8>,
    run: nat,
    tail: Seq<u8>,
    left: nat,
    last: u8,
)
    requires
        raw.len() > 0,
        run == 0 || run >= 3,
        raw.len() + run <= left,
    ensures
        decode_values(segment_bytes(raw, run) + tail, left, last) == prepend(
            raw + repeated(raw.last(), run),
            decode_values(tail, (left - raw.len() - run) as nat, raw.last()),
        ),
    decreases raw.len(),
{
    let after = decode_values(tail, (left - raw.len() - run) as nat, raw.last());
    if raw.len() > 15 {
        let head = raw.subrange(0, 15);
        let body = raw.skip(15);
        let more = segment_bytes(body, run);
        assert(segment_bytes(raw, run) + tail =~= seq![control_byte(15, 0)] + head + (more + tail));
        lemma_decode_step(control_byte(15, 0), head, more + tail, left, last);
        lemma_decode_segment(body, run, tail, (left - 15) as nat, head.last());
        lemma_prepend_twice(
            head + repeated(head.last(), 0),
            body + repeated(body.last(), run),
            after,
        );
        assert(head + repeated(head.last(), 0) + (body + repeated(body.last(), run)) =~= raw
            + repeated(raw.last(), run));
    } else if run > 15 {
        let control = control_byte(raw.len() as int, 15);
        let more = long_run_bytes((run - 15) as nat, raw.last());
        assert(segment_bytes(raw, run) + tail =~= seq![control] + raw + (more + tail));
        lemma_decode_step(control, raw, more + tail, left, last);
        lemma_decode_long_run(
            (run - 15) as nat,
            raw.last(),
            tail,
            (left - raw.len() - 15) as nat,
        );
        lemma_prepend_twice(
            raw + repeated(raw.last(), 15),
            repeated(raw.last(), (run - 15) as nat),
            after,
        );
        assert(raw + repeated(raw.last(), 15) + repeated(raw.last(), (run - 15) as nat) =~= raw
            + repeated(raw.last(), run));
    } else {
        let control = control_byte(raw.len() as int, run as int);
        assert(segment_bytes(raw, run) + tail =~= seq![control] + raw + tail);
        lemma_decode_step(control, raw, tail, left, last);
    }
}

proof fn lemma_decode_scanline_after(raw: Seq<u8>, line: Seq<u8>, tail: Seq<u8>, last: u8)
    ensures
        decode_values(
            scanline_bytes_after(raw, line) + tail,
            raw.len() + line.len(),
            last,
        ) == Some((raw + line, tail)),
    decreases line.len(),
{
    lemma_leading_run_bounds(line);
    let count = leading_run(line);
    if line.len() == 0 {
        assert(raw + line =~= raw);
        if raw.len() == 0 {
            assert(segment_bytes(raw, 0) + tail =~= tail);
            assert(raw + line =~= seq![]);
        } else {
            lemma_decode_segment(raw, 0, tail, raw.len(), last);
            assert(raw + repeated(raw.last(), 0) + seq![] =~= raw);
        }
    } else {
        let body = line.skip(count as int);
        if count >= 4 {
            let literals = raw.push(line[0]);
            let run = (count - 1) as nat;
            let more = scanline_bytes_after(seq![], body);
            let total = raw.len() + line.len();
            assert(scanline_bytes_after(raw, line) + tail =~= segment_bytes(literals, run) + (more
                + tail));
            lemma_decode_segment(literals, run, more + tail, total, last);
            lemma_decode_scanline_after(seq![], body, tail, line[0]);
            assert(seq![] + body =~= body);
            assert(literals + repeated(line[0], run) + body =~= raw + line);
        } else {
            lemma_decode_scanline_after(raw + line.take(count as int), body, tail, last);
            assert(raw + line.take(count as int) + body =~= raw + line);
        }
    }
}

/// A scanline decodes to itself, whatever follows it in the stream: scanlines
/// are independent of each other.
pub proof fn lemma_scanline_round_trip(line: Seq<u8>, tail: Seq<u8>)
    ensures
        decode_scanline(scanline_bytes(line) + tail, line.len()) == Some((line, tail)),
{
    lemma_decode_scanline_after(seq![], line, tail, 0);
    assert(seq![] + line =~= line);
}

/// A plane decodes to its rows, whatever follows it in the stream.
pub proof fn lemma_plane_round_trip(rows: Seq<Seq<u8>>, width: nat, tail: Seq<u8>)
    requires
        forall|y: int| 0 <= y < rows.len() ==> #[trigger] rows[y].len() == width,
    ensures
        decode_plane(plane_bytes(delta_rows(rows)) + tail, width, rows.len()) == Some((rows, tail)),
    decreases rows.len(),
{
    let deltas = delta_rows(rows);
    if rows.len() == 0 {
        assert(plane_bytes(deltas) + tail =~= tail);
        assert(rows =~= seq![]);
    } else {
        let above = rows.drop_last();
        let line = deltas.last();
        assert(deltas.drop_last() =~= delta_rows(above)) by {
            assert forall|y: int| 0 <= y < above.len() implies deltas[y] == delta_rows(above)[y] by {
                assert(deltas[y] =~= delta_rows(above)[y]);
            }
        }
        assert(line.len() == width);
        assert(plane_bytes(deltas) + tail =~= plane_bytes(delta_rows(above)) + (scanline_bytes(line)
            + tail));
        lemma_plane_round_trip(above, width, scanline_bytes(line) + tail);
        lemma_scanline_round_trip(line, tail);
        if rows.len() > 1 {
            let row = Seq::new(width, |x: int| undo_delta(above.last()[x], line[x]));
            assert forall|x: int| 0 <= x < width implies row[x] == rows.last()[x] by {
                lemma_zig_zag_round_trip(above.last()[x], rows.last()[x]);
            }
            assert(row =~= rows.last());
        }
        assert(above.push(rows.last()) =~= rows);
    }
}

/// The codec is lossless: decoding what the encoder makes of a bitmap gives back
/// its red, green and blue values, and leaves nothing unread.
pub proof fn lemma_encode_is_lossless(bgra: Seq<u8>, width: nat, height: nat, stride: int)
    ensures
        ({
            let red = channel_rows(bgra, width, height, stride, 2);
            let green = channel_rows(bgra, width, height, stride, 1);
            let blue = channel_rows(bgra, width, height, stride, 0);
            decode_stream(encoding_of(bgra, width, height, stride), width, height) == Some(
                DecodedPlanes { red, green, blue, rest: seq![] },
            )
        }),
{
    let red = channel_rows(bgra, width, height, stride, 2);
    let green = channel_rows(bgra, width, height, stride, 1);
    let blue = channel_rows(bgra, width, height, stride, 0);
    let r = plane_bytes(delta_rows(red));
    let g = plane_bytes(delta_rows(green));
    let b = plane_bytes(delta_rows(blue));
    let none: Seq<u8> = seq![];
    assert(stream_bytes(red, green, blue).skip(1) =~= r + (g + (b + none)));
    lemma_plane_round_trip(red, width, g + (b + none));
    lemma_plane_round_trip(green, width, b + none);
    lemma_plane_round_trip(blue, width, none);
}

/// Only the colours count: bitmaps that agree in the blue, green and red bytes of
/// their pixels have the same encoding, whatever their fourth bytes and the padding
/// of their rows.
pub proof fn lemma_encoding_ignores_alpha(
    a: Seq<u8>,
    b: Seq<u8>,
    width: nat,
    height: nat,
    stride_a: int,
    stride_b: int,
)
    requires
        forall|y: int, x: int, c: int|
            0 <= y < height && 0 <= x < width && 0 <= c < 3 ==> #[trigger] a[y * stride_a + x * 4
                + c] == b[y * stride_b + x * 4 + c],
    ensures
        encoding_of(a, width, height, stride_a) == encoding_of(b, width, height, stride_b),
{
    assert forall|c: int| 0 <= c < 3 implies #[trigger] channel_rows(a, width, height, stride_a, c)
        == channel_rows(b, width, height, stride_b, c) by {
        let first = channel_rows(a, width, height, stride_a, c);
        let second = channel_rows(b, width, height, stride_b, c);
        assert forall|y: int| 0 <= y < height implies first[y] == second[y] by {
            assert forall|x: int| 0 <= x < width implies first[y][x] == second[y][x] by {
                assert(a[y * stride_a + x * 4 + c] == b[y * stride_b + x * 4 + c]);
            }
            assert(first[y] =~= second[y]);
        }
        assert(first =~= second);
    }
}

/// Every byte stands for exactly one delta.
pub proof fn lemma_zig_zag_is_onto(byte: u8)
    ensures
        zig_zag(zig_zag_delta(byte)) == byte,
        -128 <= zig_zag_delta(byte) <= 127,
{
}

// ---------------------------------------------------------------------------
// Size
// ---------------------------------------------------------------------------

/// The largest size of an encoded scanline of `width` values.
pub open spec fn scanline_size_limit(width: nat) -> nat {
    width + (width + 14) / 15
}

proof fn lemma_long_run_size(run: nat, last: u8)
    ensures
        long_run_bytes(run, last).len() <= run + 1,
    decreases run,
{
    if run >= 47 {
        lemma_long_run_size((run - 47) as nat, last);
    }
}

proof fn lemma_segment_size(raw: Seq<u8>, run: nat)
    requires
        raw.len() > 0,
        run == 0 || run >= 3,
    ensures
        run == 0 ==> segment_bytes(raw, run).len() == scanline_size_limit(raw.len()),
        run >= 3 ==> segment_bytes(raw, run).len() <= raw.len() + run + (raw.len() - 1) / 15,
    decreases raw.len(),
{
    if raw.len() > 15 {
        lemma_segment_size(raw.skip(15), run);
    } else if run > 15 {
        lemma_long_run_size((run - 15) as nat, raw.last());
    }
}

proof fn lemma_scanline_after_size(raw: Seq<u8>, line: Seq<u8>)
    ensures
        scanline_bytes_after(raw, line).len() <= scanline_size_limit(raw.len() + line.len()),
    decreases line.len(),
{
    lemma_leading_run_bounds(line);
    let count = leading_run(line);
    if line.len() == 0 {
        if raw.len() > 0 {
            lemma_segment_size(raw, 0);
        }
    } else {
        let body = line.skip(count as int);
        if count >= 4 {
            lemma_segment_size(raw.push(line[0]), (count - 1) as nat);
            lemma_scanline_after_size(seq![], body);
        } else {
            lemma_scanline_after_size(raw + line.take(count as int), body);
        }
    }
}

/// Run-length encoding grows a scanline by at most one byte for every 15 values
/// that it begins.
pub proof fn lemma_scanline_size(line: Seq<u8>)
    ensures
        scanline_bytes(line).len() <= scanline_size_limit(line.len()),
{
    lemma_scanline_after_size(seq![], line);
}

/// A plane takes at most the limit of one scanline for each of its rows.
pub proof fn lemma_plane_size(rows: Seq<Seq<u8>>, width: nat)
    requires
        forall|y: int| 0 <= y < rows.len() ==> #[trigger] rows[y].len() == width,
    ensures
        plane_bytes(rows).len() <= rows.len() * scanline_size_limit(width),
    decreases rows.len(),
{
    if rows.len() > 0 {
        lemma_plane_size(rows.drop_last(), width);
        lemma_scanline_size(rows.last());
        assert(rows.len() * scanline_size_limit(width) == (rows.len() - 1) * scanline_size_limit(
            width,
        ) + scanline_size_limit(width)) by (nonlinear_arith)
            requires
                rows.len() > 0,
        ;
    } else {
        assert(0 * scanline_size_limit(width) == 0) by (nonlinear_arith);
    }
}

// ---------------------------------------------------------------------------
// Laws
// ---------------------------------------------------------------------------

/// A client sees every pixel of the bitmap where it is: row `y` begins `scanline` bytes
/// behind the row above it, whatever the width, and right behind its pixels where
/// `scanline` is 0.
pub proof fn lemma_encode_follows_the_rows(
    bgra: Seq<u8>,
    width: nat,
    height: nat,
    scanline: int,
)
    requires
        scanline >= 0,
    ensures
        ({
            let stream = encoding_of(bgra, width, height, row_stride(width as int, scanline));
            let found = decode_stream(stream, width, height);
            let planes = found->Some_0;
            let tight = width as int * 4;
            &&& found is Some
            &&& planes.red.len() == height && planes.green.len() == height && planes.blue.len()
                == height
            &&& planes.rest.len() == 0
            &&& scanline > 0 ==> forall|y: int, x: int|
                0 <= y < height && 0 <= x < width ==> #[trigger] planes.red[y][x] == bgra[y
                    * scanline + x * 4 + 2]
            &&& scanline > 0 ==> forall|y: int, x: int|
                0 <= y < height && 0 <= x < width ==> #[trigger] planes.green[y][x] == bgra[y
                    * scanline + x * 4 + 1]
            &&& scanline > 0 ==> forall|y: int, x: int|
                0 <= y < height && 0 <= x < width ==> #[trigger] planes.blue[y][x] == bgra[y
                    * scanline + x * 4]
            &&& scanline == 0 ==> forall|y: int, x: int|
                0 <= y < height && 0 <= x < width ==> #[trigger] planes.red[y][x] == bgra[y * tight
                    + x * 4 + 2]
            &&& scanline == 0 ==> forall|y: int, x: int|
                0 <= y < height && 0 <= x < width ==> #[trigger] planes.green[y][x] == bgra[y
                    * tight + x * 4 + 1]
            &&& scanline == 0 ==> forall|y: int, x: int|
                0 <= y < height && 0 <= x < width ==> #[trigger] planes.blue[y][x] == bgra[y
                    * tight + x * 4]
        }),
{
    lemma_encode_is_lossless(bgra, width, height, row_stride(width as int, scanline));
}

/// What a control byte says, by its two halves: `high` literals, then `low` repeats of
/// the last one; but a low half of 1 or 2 is a run of 16 or 32 more than the high half,
/// of the value in front of it.
pub proof fn lemma_segments_are_read_by_their_halves(
    high: int,
    low: int,
    literals: Seq<u8>,
    tail: Seq<u8>,
    left: nat,
    last: u8,
)
    requires
        0 <= high < 16,
        0 <= low < 16,
        high > 0 || low > 0,
    ensures
        low != 1 && low != 2 && literals.len() == high && high > 0 && high + low <= left
            ==> decode_values(seq![(16 * high + low) as u8] + literals + tail, left, last)
            == prepend(
            literals + Seq::new(low as nat, |i: int| literals.last()),
            decode_values(tail, (left - high - low) as nat, literals.last()),
        ),
        low > 2 && high == 0 && low <= left ==> decode_values(
            seq![low as u8] + tail,
            left,
            last,
        ) == prepend(
            Seq::new(low as nat, |i: int| last),
            decode_values(tail, (left - low) as nat, last),
        ),
        low == 1 && 16 + high <= left ==> decode_values(
            seq![(16 * high + 1) as u8] + tail,
            left,
            last,
        ) == prepend(
            Seq::new((16 + high) as nat, |i: int| last),
            decode_values(tail, (left - 16 - high) as nat, last),
        ),
        low == 2 && 32 + high <= left ==> decode_values(
            seq![(16 * high + 2) as u8] + tail,
            left,
            last,
        ) == prepend(
            Seq::new((32 + high) as nat, |i: int| last),
            decode_values(tail, (left - 32 - high) as nat, last),
        ),
{
    let control = (16 * high + low) as u8;
    let none: Seq<u8> = seq![];
    assert(control % 16 == low && control / 16 == high && control != 0);
    assert(seq![control] + none + tail =~= seq![control] + tail);
    if low == 1 || low == 2 {
        let run = run_count(control);
        if run <= left {
            lemma_decode_step(control, none, tail, left, last);
            assert(none + repeated(last, run) =~= Seq::new(run, |i: int| last));
        }
    } else if high == 0 {
        if low <= left {
            lemma_decode_step(control, none, tail, left, last);
            assert(none + repeated(last, low as nat) =~= Seq::new(low as nat, |i: int| last));
        }
    } else if literals.len() == high && high + low <= left {
        lemma_decode_step(control, literals, tail, left, last);
        assert(literals + repeated(literals.last(), low as nat) =~= literals + Seq::new(
            low as nat,
            |i: int| literals.last(),
        ));
    }
}

/// What decoded values say of a row: an even byte is half of itself above the value in
/// the row above, an odd one half of its successor below it, in byte arithmetic.
pub proof fn lemma_deltas_are_even_above_and_odd_below(above: u8, byte: u8)
    ensures
        byte % 2 == 0 ==> undo_delta(above, byte) == (above + byte / 2) % 256,
        byte % 2 == 1 ==> undo_delta(above, byte) == (above - (byte + 1) / 2 + 256) % 256,
{
}

proof fn lemma_long_runs_shrink(run: nat, last: u8)
    ensures
        long_run_bytes(run, last).len() <= run / 47 + 4,
    decreases run,
{
    if run >= 47 {
        lemma_long_runs_shrink((run - 47) as nat, last);
    }
}

/// A scanline of one colour takes a byte for every 47 values, and a few for its ends.
pub proof fn lemma_uniform_scanlines_shrink(line: Seq<u8>)
    requires
        forall|i: int| 0 <= i < line.len() ==> #[trigger] line[i] == line[0],
    ensures
        scanline_bytes(line).len() <= line.len() / 47 + 6,
{
    lemma_leading_run_bounds(line);
    let count = leading_run(line);
    if count < line.len() {
        assert(line[count as int] == line[0]);
    }
    if line.len() >= 4 {
        let none: Seq<u8> = seq![];
        let rest = line.skip(count as int);
        assert(rest.len() == 0);
        assert(scanline_bytes_after(none, rest) =~= none);
        let raw = none.push(line[0]);
        if count > 16 {
            lemma_long_runs_shrink((count - 16) as nat, line[0]);
        }
        assert(segment_bytes(raw, (count - 1) as nat).len() <= line.len() / 47 + 6);
    } else {
        lemma_scanline_size(line);
    }
}

/// Every stream begins with the byte that says how it is made.
pub proof fn lemma_streams_say_how_they_are_made(
    bgra: Seq<u8>,
    width: nat,
    height: nat,
    stride: int,
)
    ensures
        encoding_of(bgra, width, height, stride)[0] == 0x30,
        decode_stream(encoding_of(bgra, width, height, stride), width, height) is Some,
{
    lemma_encode_is_lossless(bgra, width, height, stride);
}

/// Decoded rows have the size that was asked for. The first one is what its segments
/// hold; below it a value is the one above with the delta undone.
pub proof fn lemma_rows_build_on_the_row_above(stream: Seq<u8>, width: nat, height: nat)
    requires
        decode_plane(stream, width, height) is Some,
        height > 0,
    ensures
        ({
            let earlier = decode_plane(stream, width, (height - 1) as nat);
            let (rows, rest) = decode_plane(stream, width, height)->Some_0;
            let (above, unread) = earlier->Some_0;
            let (values, left) = decode_values(unread, width, 0)->Some_0;
            &&& earlier is Some
            &&& decode_values(unread, width, 0) is Some
            &&& rows.len() == height
            &&& above == rows.drop_last()
            &&& rest == left
            &&& height == 1 ==> rows[0] == values
            &&& height > 1 ==> forall|x: int|
                0 <= x < width ==> #[trigger] rows[height - 1][x] == undo_delta(
                    rows[height - 2][x],
                    values[x],
                )
        }),
    decreases height,
{
    if height > 1 {
        lemma_rows_build_on_the_row_above(stream, width, (height - 1) as nat);
    }
    let (rows, rest) = decode_plane(stream, width, height)->Some_0;
    let (above, unread) = decode_plane(stream, width, (height - 1) as nat)->Some_0;
    assert(above =~= rows.drop_last());
}

/// A stream is read where it begins with the header of an encoded bitmap, and no other.
pub proof fn lemma_other_streams_are_not_read(stream: Seq<u8>, width: nat, height: nat)
    ensures
        stream.len() == 0 ==> decode_stream(stream, width, height) is None,
        stream.len() > 0 && stream[0] != 0x30 ==> decode_stream(stream, width, height) is None,
{
}

} // verus!
