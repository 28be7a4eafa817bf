//! What a PNG file's bytes mean, whoever wrote it.

use crate::render::checksum;
use crate::render::deflate;
use crate::render::inflate;
use crate::render::png;
use crate::render::png::{Contents, DecodeError, IDAT, IEND, IHDR, MAX_DIMENSION, PLTE, TRNS};
use vstd::prelude::*;

verus! {

// --- What a writer puts down ----------------------------------------------------------

pub open spec fn alpha(px: u32) -> int {
    px as int / 0x100_0000
}

pub open spec fn red(px: u32) -> int {
    px as int / 0x1_0000 % 256
}

pub open spec fn green(px: u32) -> int {
    px as int / 256 % 256
}

pub open spec fn blue(px: u32) -> int {
    px as int % 256
}

/// The byte of a row `reach` bytes before `i`, nothing before its start.
pub open spec fn back(row: Seq<u8>, i: int, reach: int) -> int {
    if i >= reach {
        row[i - reach] as int
    } else {
        0
    }
}

/// The row above row `y`, nothing above the first.
pub open spec fn over(rows: Seq<Seq<u8>>, y: int, stride: int) -> Seq<u8> {
    if y > 0 {
        rows[y - 1]
    } else {
        Seq::new(stride as nat, |i: int| 0u8)
    }
}

pub open spec fn gap(a: int, b: int) -> int {
    if a >= b {
        a - b
    } else {
        b - a
    }
}

/// Whether a guess is the neighbour nearest to where the three of them point: the
/// one to the left before the one above before the one at the corner.
pub open spec fn nearest(guess: int, left: int, up: int, corner: int) -> bool {
    let aim = left + up - corner;
    &&& guess == left || guess == up || guess == corner
    &&& gap(guess, aim) <= gap(left, aim)
    &&& gap(guess, aim) <= gap(up, aim)
    &&& gap(guess, aim) <= gap(corner, aim)
    &&& guess != left ==> gap(guess, aim) < gap(left, aim)
    &&& guess != left && guess != up ==> gap(guess, aim) < gap(up, aim)
}

/// Whether `byte` is what a writer puts down for a byte of the image under one of
/// the five filters: the image's byte less what its neighbours let expect.
pub open spec fn put_down(filter: u8, byte: u8, was: u8, left: int, up: int, corner: int) -> bool {
    if filter == 0 {
        byte == was
    } else if filter == 1 {
        byte == (was - left) % 256
    } else if filter == 2 {
        byte == (was - up) % 256
    } else if filter == 3 {
        byte == (was - (left + up) / 2) % 256
    } else {
        exists|guess: int|
            #[trigger] nearest(guess, left, up, corner) && byte == (was - guess) % 256
    }
}

/// Whether image data is what a writer makes of an image's rows, each under the
/// filter it was given: the filter's number, then the row.
pub open spec fn filed(
    raw: Seq<u8>,
    rows: Seq<Seq<u8>>,
    filters: Seq<u8>,
    stride: int,
    reach: int,
) -> bool {
    &&& filters.len() == rows.len()
    &&& raw.len() == rows.len() * (stride + 1)
    &&& forall|y: int|
        0 <= y < rows.len() ==> {
            &&& (#[trigger] rows[y]).len() == stride
            &&& raw[y * (stride + 1)] == filters[y]
            &&& filters[y] <= 4
        }
    &&& forall|y: int, i: int|
        0 <= y < rows.len() && 0 <= i < stride ==> put_down(
            filters[y],
            raw[y * (stride + 1) + 1 + i],
            #[trigger] rows[y][i],
            back(rows[y], i, reach),
            over(rows, y, stride)[i] as int,
            back(over(rows, y, stride), i, reach),
        )
}

/// Reversing the filters gives back the rows that were filed, whichever filter each
/// of them was filed under.
pub proof fn filed_rows_read_back(
    raw: Seq<u8>,
    rows: Seq<Seq<u8>>,
    filters: Seq<u8>,
    stride: int,
    reach: int,
    y: int,
)
    requires
        filed(raw, rows, filters, stride, reach),
        1 <= stride,
        1 <= reach,
        0 <= y < rows.len(),
    ensures
        png::row_bytes(raw, stride, reach, y) == rows[y],
    decreases y,
{
    if y > 0 {
        filed_rows_read_back(raw, rows, filters, stride, reach, y - 1);
    }
    let start = y * (stride + 1);
    assert((y + 1) * (stride + 1) == start + stride + 1) by (nonlinear_arith)
        requires
            start == y * (stride + 1),
    ;
    assert((y + 1) * (stride + 1) <= rows.len() * (stride + 1)) by (nonlinear_arith)
        requires
            y + 1 <= rows.len(),
            stride >= 1,
    ;
    assert(0 <= start) by (nonlinear_arith)
        requires
            start == y * (stride + 1),
            0 <= y,
            1 <= stride,
    ;
    let above = over(rows, y, stride);
    let line = raw.subrange(start + 1, start + 1 + stride);
    assert(above.len() == stride) by {
        if y > 0 {
            assert(rows[y - 1].len() == stride);
        }
    }
    assert(rows[y].len() == stride);
    assert forall|i: int| 0 <= i < stride implies put_down(
        filters[y],
        #[trigger] line[i],
        rows[y][i],
        back(rows[y], i, reach),
        above[i] as int,
        back(above, i, reach),
    ) by {
        assert(line[i] == raw[start + 1 + i]);
        let was = rows[y][i];
    }
    line_reads_back(filters[y], line, rows[y], above, reach, stride);
    assert(rows[y].take(stride) =~= rows[y]);
}

proof fn paeth_is_nearest(left: int, up: int, corner: int, guess: int)
    requires
        nearest(guess, left, up, corner),
    ensures
        png::paeth_of(left, up, corner) == guess,
{
}

proof fn taken_off_and_added(byte: u8, was: u8, guess: int)
    requires
        byte == (was - guess) % 256,
    ensures
        (byte + guess) % 256 == was,
{
}

#[verifier::spinoff_prover]
proof fn byte_reads_back(filter: u8, byte: u8, was: u8, left: u8, up: u8, corner: u8)
    requires
        filter <= 4,
        put_down(filter, byte, was, left as int, up as int, corner as int),
    ensures
        (byte + png::predicted(filter, left, up, corner)) % 256 == was,
{
    if filter == 4 {
        let guess = choose|guess: int|
            #[trigger] nearest(guess, left as int, up as int, corner as int) && byte == (was
                - guess) % 256;
        paeth_is_nearest(left as int, up as int, corner as int, guess);
        taken_off_and_added(byte, was, guess);
    } else if filter > 0 {
        taken_off_and_added(byte, was, png::predicted(filter, left, up, corner));
    }
}

proof fn line_reads_back(
    filter: u8,
    line: Seq<u8>,
    row: Seq<u8>,
    above: Seq<u8>,
    reach: int,
    n: int,
)
    requires
        filter <= 4,
        1 <= reach,
        0 <= n <= line.len(),
        line.len() == row.len(),
        line.len() == above.len(),
        forall|i: int|
            0 <= i < line.len() ==> put_down(
                filter,
                #[trigger] line[i],
                row[i],
                back(row, i, reach),
                above[i] as int,
                back(above, i, reach),
            ),
    ensures
        png::unfiltered(filter, line, above, reach, n) == row.take(n),
    decreases n,
{
    if n <= 0 {
        assert(row.take(0) =~= Seq::<u8>::empty());
    } else {
        line_reads_back(filter, line, row, above, reach, n - 1);
        let i = n - 1;
        let done = png::unfiltered(filter, line, above, reach, i);
        let left = back(row, i, reach);
        let up = above[i] as int;
        let corner = back(above, i, reach);
        assert(i >= reach ==> done[i - reach] == row[i - reach]);
        assert(put_down(filter, line[i], row[i], left, up, corner));
        let a = if i >= reach {
            done[i - reach]
        } else {
            0
        };
        let c = if i >= reach {
            above[i - reach]
        } else {
            0
        };
        assert(a == left && c == corner);
        byte_reads_back(filter, line[i], row[i], a, above[i], c);
        assert(png::unfiltered(filter, line, above, reach, n) =~= row.take(n));
    }
}


// --- What the samples of a row show ------------------------------------------------------

/// The sample values of a pixel, by colour type: grey, colour, a palette entry, and
/// the first two with alpha.
pub open spec fn per_pixel(color: u8) -> int {
    if color == 2 {
        3
    } else if color == 4 {
        2
    } else if color == 6 {
        4
    } else {
        1
    }
}

/// The depths a colour type comes in.
pub open spec fn comes_in(color: u8, depth: u8) -> bool {
    ||| color == 0 && (depth == 1 || depth == 2 || depth == 4 || depth == 8 || depth == 16)
    ||| color == 3 && (depth == 1 || depth == 2 || depth == 4 || depth == 8)
    ||| (color == 2 || color == 4 || color == 6) && (depth == 8 || depth == 16)
}

/// The sample a row holds in place `k`: two bytes of it, one, or a part of one, the
/// first in the highest places.
pub open spec fn held(row: Seq<u8>, depth: u8, k: int) -> int {
    if depth == 16 {
        256 * row[2 * k] + row[2 * k + 1]
    } else if depth == 8 {
        row[k] as int
    } else if depth == 4 {
        let byte = row[k / 2] as int;
        if k % 2 == 0 {
            byte / 16
        } else {
            byte % 16
        }
    } else if depth == 2 {
        let byte = row[k / 4] as int;
        if k % 4 == 0 {
            byte / 64
        } else if k % 4 == 1 {
            byte / 16 % 4
        } else if k % 4 == 2 {
            byte / 4 % 4
        } else {
            byte % 4
        }
    } else {
        let byte = row[k / 8] as int;
        if k % 8 == 0 {
            byte / 128
        } else if k % 8 == 1 {
            byte / 64 % 2
        } else if k % 8 == 2 {
            byte / 32 % 2
        } else if k % 8 == 3 {
            byte / 16 % 2
        } else if k % 8 == 4 {
            byte / 8 % 2
        } else if k % 8 == 5 {
            byte / 4 % 2
        } else if k % 8 == 6 {
            byte / 2 % 2
        } else {
            byte % 2
        }
    }
}

/// A sample on the scale from 0 to 255: nothing stays nothing and full stays full at
/// every depth.
pub open spec fn out_of_255(v: int, depth: u8) -> int {
    if depth == 16 {
        v / 256
    } else if depth == 8 {
        v
    } else if depth == 4 {
        17 * v
    } else if depth == 2 {
        85 * v
    } else {
        255 * v
    }
}

/// Whether a pixel is what place `x` of a row shows.
pub open spec fn shows(
    px: u32,
    row: Seq<u8>,
    depth: u8,
    color: u8,
    plte: Seq<u8>,
    trns: Seq<u8>,
    x: int,
) -> bool {
    if color == 0 {
        let v = held(row, depth, x);
        &&& red(px) == out_of_255(v, depth)
        &&& green(px) == out_of_255(v, depth)
        &&& blue(px) == out_of_255(v, depth)
        &&& alpha(px) == if trns.len() >= 2 && v == 256 * trns[0] + trns[1] {
            0int
        } else {
            255
        }
    } else if color == 2 {
        let r = held(row, depth, 3 * x);
        let g = held(row, depth, 3 * x + 1);
        let b = held(row, depth, 3 * x + 2);
        &&& red(px) == out_of_255(r, depth)
        &&& green(px) == out_of_255(g, depth)
        &&& blue(px) == out_of_255(b, depth)
        &&& alpha(px) == if trns.len() >= 6 && r == 256 * trns[0] + trns[1] && g == 256 * trns[2]
            + trns[3] && b == 256 * trns[4] + trns[5] {
            0int
        } else {
            255
        }
    } else if color == 3 {
        let v = held(row, depth, x);
        if 3 * v + 2 < plte.len() {
            &&& red(px) == plte[3 * v]
            &&& green(px) == plte[3 * v + 1]
            &&& blue(px) == plte[3 * v + 2]
            &&& alpha(px) == if v < trns.len() {
                trns[v] as int
            } else {
                255
            }
        } else {
            px == 0
        }
    } else if color == 4 {
        let v = held(row, depth, 2 * x);
        &&& red(px) == out_of_255(v, depth)
        &&& green(px) == out_of_255(v, depth)
        &&& blue(px) == out_of_255(v, depth)
        &&& alpha(px) == out_of_255(held(row, depth, 2 * x + 1), depth)
    } else {
        &&& red(px) == out_of_255(held(row, depth, 4 * x), depth)
        &&& green(px) == out_of_255(held(row, depth, 4 * x + 1), depth)
        &&& blue(px) == out_of_255(held(row, depth, 4 * x + 2), depth)
        &&& alpha(px) == out_of_255(held(row, depth, 4 * x + 3), depth)
    }
}

proof fn places_of_a_byte(b: u8)
    by (bit_vector)
    ensures
        (1u8 << 1u8) == 2,
        (1u8 << 2u8) == 4,
        (1u8 << 4u8) == 16,
        (b >> 4u8) & 15u8 == b / 16,
        (b >> 0u8) & 15u8 == b % 16,
        (b >> 6u8) & 3u8 == b / 64,
        (b >> 4u8) & 3u8 == b / 16 % 4,
        (b >> 2u8) & 3u8 == b / 4 % 4,
        (b >> 0u8) & 3u8 == b % 4,
        (b >> 7u8) & 1u8 == b / 128,
        (b >> 6u8) & 1u8 == b / 64 % 2,
        (b >> 5u8) & 1u8 == b / 32 % 2,
        (b >> 4u8) & 1u8 == b / 16 % 2,
        (b >> 3u8) & 1u8 == b / 8 % 2,
        (b >> 2u8) & 1u8 == b / 4 % 2,
        (b >> 1u8) & 1u8 == b / 2 % 2,
        (b >> 0u8) & 1u8 == b % 2,
{
}

proof fn parts_of_bits(a: u8, r: u8, g: u8, b: u8, px: u32)
    by (bit_vector)
    requires
        px == ((a as u32) << 24) | ((r as u32) << 16) | ((g as u32) << 8) | (b as u32),
    ensures
        px / 0x100_0000 == a as u32,
        px / 0x1_0000 % 256 == r as u32,
        px / 256 % 256 == g as u32,
        px % 256 == b as u32,
{
}

proof fn parts_of_a_word(a: u8, r: u8, g: u8, b: u8)
    ensures
        alpha(png::packed(a, r, g, b)) == a,
        red(png::packed(a, r, g, b)) == r,
        green(png::packed(a, r, g, b)) == g,
        blue(png::packed(a, r, g, b)) == b,
{
    parts_of_bits(a, r, g, b, png::packed(a, r, g, b));
}

/// The sample read is the sample held.
#[verifier::spinoff_prover]
proof fn samples_are_held(row: Seq<u8>, depth: u8, k: int)
    requires
        depth == 1 || depth == 2 || depth == 4 || depth == 8 || depth == 16,
        0 <= k,
        (k + 1) * depth <= 8 * row.len(),
    ensures
        png::sample_at(row, depth, k) == held(row, depth, k),
        0 <= held(row, depth, k),
        png::scaled8(held(row, depth, k), depth) == out_of_255(held(row, depth, k), depth),
        0 <= out_of_255(held(row, depth, k), depth) <= 255,
{
    if depth < 8 {
        let per_byte = png::samples_per_byte(depth);
        let byte = row[k / per_byte];
        places_of_a_byte(byte);
        if depth == 4 {
            assert(0 <= k / 2 < row.len());
            assert(k % 2 == 0 || k % 2 == 1);
            assert(((1u8 << depth) - 1) as u8 == 15);
        } else if depth == 2 {
            assert(0 <= k / 4 < row.len());
            assert(k % 4 == 0 || k % 4 == 1 || k % 4 == 2 || k % 4 == 3);
            assert(((1u8 << depth) - 1) as u8 == 3);
        } else {
            assert(0 <= k / 8 < row.len());
            assert(((1u8 << depth) - 1) as u8 == 1);
        }
        assert(png::line_byte(row, k / per_byte) == byte);
    }
}

/// Bytes a row takes, the last one filled up.
pub open spec fn row_length(width: int, depth: u8, color: u8) -> int {
    (width * per_pixel(color) * depth + 7) / 8
}

/// How far back a filter looks: a whole pixel, or a byte where pixels share one.
pub open spec fn look_back(depth: u8, color: u8) -> int {
    if depth < 8 {
        1
    } else {
        per_pixel(color) * (depth / 8)
    }
}

/// The samples of a pixel of a row are all there.
proof fn pixels_fit(width: int, depth: u8, color: u8, x: int, j: int)
    requires
        comes_in(color, depth),
        0 <= x < width,
        0 <= j < per_pixel(color),
    ensures
        0 <= x * per_pixel(color) + j,
        (x * per_pixel(color) + j + 1) * depth <= 8 * row_length(width, depth, color),
{
    let n = per_pixel(color);
    assert(0 <= x * n) by (nonlinear_arith)
        requires
            0 <= x,
            1 <= n,
    ;
    assert(x * n + j + 1 <= width * n) by (nonlinear_arith)
        requires
            x + 1 <= width,
            j + 1 <= n,
            1 <= n,
    ;
    assert((x * n + j + 1) * depth <= width * n * depth) by (nonlinear_arith)
        requires
            x * n + j + 1 <= width * n,
            0 <= depth,
    ;
}

#[verifier::spinoff_prover]
proof fn pixel_shows(
    row: Seq<u8>,
    width: int,
    depth: u8,
    color: u8,
    plte: Seq<u8>,
    trns: Seq<u8>,
    x: int,
)
    requires
        comes_in(color, depth),
        0 <= x < width,
        row.len() == row_length(width, depth, color),
    ensures
        shows(
            png::pixel_at(
                row,
                depth,
                color,
                if color == 3 {
                    png::palette_of(plte, trns)
                } else {
                    Seq::empty()
                },
                png::key_of(color, trns),
                x,
            ),
            row,
            depth,
            color,
            plte,
            trns,
            x,
        ),
{
    let n = per_pixel(color);
    let base = x * n;
    assert(png::samples_of(color) == n);
    pixels_fit(width, depth, color, x, 0);
    samples_are_held(row, depth, base);
    let v0 = held(row, depth, base);
    let c0 = out_of_255(v0, depth) as u8;
    if color == 0 {
        let a: u8 = if png::key_of(color, trns) == Some((v0, v0, v0)) {
            0
        } else {
            0xff
        };
        parts_of_a_word(a, c0, c0, c0);
    } else if color == 2 {
        pixels_fit(width, depth, color, x, 1);
        pixels_fit(width, depth, color, x, 2);
        samples_are_held(row, depth, base + 1);
        samples_are_held(row, depth, base + 2);
        let v1 = held(row, depth, base + 1);
        let v2 = held(row, depth, base + 2);
        let a: u8 = if png::key_of(color, trns) == Some((v0, v1, v2)) {
            0
        } else {
            0xff
        };
        parts_of_a_word(a, c0, out_of_255(v1, depth) as u8, out_of_255(v2, depth) as u8);
    } else if color == 3 {
        if 3 * v0 + 2 < plte.len() {
            let a: u8 = if v0 < trns.len() {
                trns[v0]
            } else {
                0xff
            };
            parts_of_a_word(a, plte[3 * v0], plte[3 * v0 + 1], plte[3 * v0 + 2]);
        }
    } else if color == 4 {
        pixels_fit(width, depth, color, x, 1);
        samples_are_held(row, depth, base + 1);
        let v1 = held(row, depth, base + 1);
        parts_of_a_word(out_of_255(v1, depth) as u8, c0, c0, c0);
    } else {
        pixels_fit(width, depth, color, x, 1);
        pixels_fit(width, depth, color, x, 2);
        pixels_fit(width, depth, color, x, 3);
        samples_are_held(row, depth, base + 1);
        samples_are_held(row, depth, base + 2);
        samples_are_held(row, depth, base + 3);
        let v1 = held(row, depth, base + 1);
        let v2 = held(row, depth, base + 2);
        let v3 = held(row, depth, base + 3);
        parts_of_a_word(
            out_of_255(v3, depth) as u8,
            c0,
            out_of_255(v1, depth) as u8,
            out_of_255(v2, depth) as u8,
        );
    }
}

// --- What a file shows ------------------------------------------------------------------

/// A chunk that is left out where there is nothing to put in it.
pub open spec fn optional(kind: Seq<u8>, data: Seq<u8>) -> Seq<u8> {
    if data.len() == 0 {
        Seq::empty()
    } else {
        png::chunk_bytes(kind, data)
    }
}

pub open spec fn header(width: u32, height: u32, depth: u8, color: u8) -> Seq<u8> {
    checksum::be32(width) + checksum::be32(height) + seq![depth, color, 0u8, 0u8, 0u8]
}

/// A file around compressed image data, which stands in one chunk or, cut anywhere,
/// in two.
pub open spec fn file(
    width: u32,
    height: u32,
    depth: u8,
    color: u8,
    plte: Seq<u8>,
    trns: Seq<u8>,
    body: Seq<u8>,
    cut: int,
) -> Seq<u8> {
    let start = seq![0x89u8, 0x50, 0x4e, 0x47, 0x0d, 0x0a, 0x1a, 0x0a];
    let ihdr = seq![0x49u8, 0x48, 0x44, 0x52];
    let palette = seq![0x50u8, 0x4c, 0x54, 0x45];
    let clear = seq![0x74u8, 0x52, 0x4e, 0x53];
    let idat = seq![0x49u8, 0x44, 0x41, 0x54];
    let iend = seq![0x49u8, 0x45, 0x4e, 0x44];
    start + png::chunk_bytes(ihdr, header(width, height, depth, color)) + optional(palette, plte)
        + optional(clear, trns) + optional(idat, body.take(cut)) + png::chunk_bytes(
        idat,
        body.skip(cut),
    ) + png::chunk_bytes(iend, Seq::empty())
}

proof fn part_is_held(pre: Seq<u8>, part: Seq<u8>)
    ensures
        png::bytes_hold(pre + part, pre.len() as int, part),
{
    assert((pre + part).subrange(pre.len() as int, (pre + part).len() as int) =~= part);
}

proof fn still_held(bytes: Seq<u8>, at: int, part: Seq<u8>, more: Seq<u8>)
    requires
        png::bytes_hold(bytes, at, part),
    ensures
        png::bytes_hold(bytes + more, at, part),
{
    assert((bytes + more).subrange(at, at + part.len()) =~= bytes.subrange(at, at + part.len()));
}

/// Each of six parts put behind a start is where it was put.
proof fn parts_are_held(
    start: Seq<u8>,
    a: Seq<u8>,
    b: Seq<u8>,
    c: Seq<u8>,
    d: Seq<u8>,
    e: Seq<u8>,
    f: Seq<u8>,
)
    ensures
        ({
            let bytes = start + a + b + c + d + e + f;
            let at = start.len() as int;
            &&& png::bytes_hold(bytes, 0, start)
            &&& png::bytes_hold(bytes, at, a)
            &&& png::bytes_hold(bytes, at + a.len(), b)
            &&& png::bytes_hold(bytes, at + a.len() + b.len(), c)
            &&& png::bytes_hold(bytes, at + a.len() + b.len() + c.len(), d)
            &&& png::bytes_hold(bytes, at + a.len() + b.len() + c.len() + d.len(), e)
            &&& png::bytes_hold(bytes, at + a.len() + b.len() + c.len() + d.len() + e.len(), f)
        }),
{
    let p1 = start + a;
    let p2 = p1 + b;
    let p3 = p2 + c;
    let p4 = p3 + d;
    let p5 = p4 + e;
    assert(start.subrange(0, start.len() as int) =~= start);
    still_held(start, 0, start, a);
    still_held(p1, 0, start, b);
    still_held(p2, 0, start, c);
    still_held(p3, 0, start, d);
    still_held(p4, 0, start, e);
    still_held(p5, 0, start, f);
    part_is_held(start, a);
    still_held(p1, start.len() as int, a, b);
    still_held(p2, start.len() as int, a, c);
    still_held(p3, start.len() as int, a, d);
    still_held(p4, start.len() as int, a, e);
    still_held(p5, start.len() as int, a, f);
    part_is_held(p1, b);
    still_held(p2, p1.len() as int, b, c);
    still_held(p3, p1.len() as int, b, d);
    still_held(p4, p1.len() as int, b, e);
    still_held(p5, p1.len() as int, b, f);
    part_is_held(p2, c);
    still_held(p3, p2.len() as int, c, d);
    still_held(p4, p2.len() as int, c, e);
    still_held(p5, p2.len() as int, c, f);
    part_is_held(p3, d);
    still_held(p4, p3.len() as int, d, e);
    still_held(p5, p3.len() as int, d, f);
    part_is_held(p4, e);
    still_held(p5, p4.len() as int, e, f);
    part_is_held(p5, f);
}

proof fn optional_reads(
    bytes: Seq<u8>,
    at: int,
    kind: Seq<u8>,
    data: Seq<u8>,
    c: Contents,
    next: Contents,
)
    requires
        kind.len() == 4,
        kind != IEND@,
        data.len() <= u32::MAX,
        png::bytes_hold(bytes, at, optional(kind, data)),
        png::with_chunk(c, kind, data) == Ok::<Contents, DecodeError>(next),
        data.len() == 0 ==> next == c,
    ensures
        png::contents_from(bytes, at, c) == png::contents_from(
            bytes,
            at + optional(kind, data).len(),
            next,
        ),
{
    if data.len() > 0 {
        png::chunk_reads_back(bytes, at, kind, data, c);
        assert(optional(kind, data).len() == 12 + data.len());
    }
}

proof fn kinds_spelled()
    ensures
        seq![0x89u8, 0x50, 0x4e, 0x47, 0x0d, 0x0a, 0x1a, 0x0a] == png::SIGNATURE@,
        seq![0x49u8, 0x48, 0x44, 0x52] == IHDR@,
        seq![0x50u8, 0x4c, 0x54, 0x45] == PLTE@,
        seq![0x74u8, 0x52, 0x4e, 0x53] == TRNS@,
        seq![0x49u8, 0x44, 0x41, 0x54] == IDAT@,
        seq![0x49u8, 0x45, 0x4e, 0x44] == IEND@,
{
    assert(seq![0x89u8, 0x50, 0x4e, 0x47, 0x0d, 0x0a, 0x1a, 0x0a] =~= png::SIGNATURE@);
    assert(seq![0x49u8, 0x48, 0x44, 0x52] =~= IHDR@);
    assert(seq![0x50u8, 0x4c, 0x54, 0x45] =~= PLTE@);
    assert(seq![0x74u8, 0x52, 0x4e, 0x53] =~= TRNS@);
    assert(seq![0x49u8, 0x44, 0x41, 0x54] =~= IDAT@);
    assert(seq![0x49u8, 0x45, 0x4e, 0x44] =~= IEND@);
}

proof fn header_reads(width: u32, height: u32, depth: u8, color: u8)
    ensures
        header(width, height, depth, color).len() == 13,
        png::with_chunk(png::no_contents(), IHDR@, header(width, height, depth, color)) == Ok::<
            Contents,
            DecodeError,
        >(Contents { header: true, width, height, depth, color, ..png::no_contents() }),
{
    let head = header(width, height, depth, color);
    checksum::word_be_reads_be32(width);
    checksum::word_be_reads_be32(height);
    let w = checksum::be32(width);
    let h = checksum::be32(height);
    assert(head[0] == w[0] && head[1] == w[1] && head[2] == w[2] && head[3] == w[3]);
    assert(head[4] == h[0] && head[5] == h[1] && head[6] == h[2] && head[7] == h[3]);
}

/// What the chunks of a file come to, each where it stands.
#[verifier::spinoff_prover]
proof fn chunks_read(
    bytes: Seq<u8>,
    head: Seq<u8>,
    plte: Seq<u8>,
    trns: Seq<u8>,
    first: Seq<u8>,
    second: Seq<u8>,
    c1: Contents,
)
    requires
        head.len() == 13,
        plte.len() <= u32::MAX,
        trns.len() <= u32::MAX,
        first.len() <= u32::MAX,
        second.len() <= u32::MAX,
        png::with_chunk(png::no_contents(), IHDR@, head) == Ok::<Contents, DecodeError>(c1),
        c1.plte == Seq::<u8>::empty(),
        c1.trns == Seq::<u8>::empty(),
        c1.idat == Seq::<u8>::empty(),
        png::bytes_hold(bytes, 8, png::chunk_bytes(IHDR@, head)),
        png::bytes_hold(bytes, 33, optional(PLTE@, plte)),
        png::bytes_hold(bytes, 33int + optional(PLTE@, plte).len(), optional(TRNS@, trns)),
        png::bytes_hold(
            bytes,
            33int + optional(PLTE@, plte).len() + optional(TRNS@, trns).len(),
            optional(IDAT@, first),
        ),
        png::bytes_hold(
            bytes,
            33int + optional(PLTE@, plte).len() + optional(TRNS@, trns).len() + optional(
                IDAT@,
                first,
            ).len(),
            png::chunk_bytes(IDAT@, second),
        ),
        png::bytes_hold(
            bytes,
            45int + optional(PLTE@, plte).len() + optional(TRNS@, trns).len() + optional(
                IDAT@,
                first,
            ).len() + second.len(),
            png::chunk_bytes(IEND@, Seq::empty()),
        ),
    ensures
        png::contents_from(bytes, 8, png::no_contents()) == Ok::<Contents, DecodeError>(
            Contents { plte, trns, idat: first + second, ..c1 },
        ),
{
    png::kinds_differ();
    let at2 = 33int + optional(PLTE@, plte).len();
    let at3 = at2 + optional(TRNS@, trns).len();
    let at4 = at3 + optional(IDAT@, first).len();
    let at5 = at4 + 12 + second.len();
    let c2 = Contents { plte, ..c1 };
    let c3 = Contents { trns, ..c2 };
    let c4 = Contents { idat: first, ..c3 };
    let c5 = Contents { idat: first + second, ..c3 };
    png::chunk_reads_back(bytes, 8, IHDR@, head, png::no_contents());
    if plte.len() == 0 {
        assert(plte =~= c1.plte);
    }
    optional_reads(bytes, 33, PLTE@, plte, c1, c2);
    if trns.len() == 0 {
        assert(trns =~= c1.trns);
    }
    optional_reads(bytes, at2, TRNS@, trns, c2, c3);
    assert(c3.idat + first =~= first);
    if first.len() == 0 {
        assert(first =~= c1.idat);
    }
    optional_reads(bytes, at3, IDAT@, first, c3, c4);
    png::chunk_reads_back(bytes, at4, IDAT@, second, c4);
    png::chunk_reads_back(bytes, at5, IEND@, Seq::empty(), c5);
}

#[verifier::spinoff_prover]
proof fn file_contents(
    width: u32,
    height: u32,
    depth: u8,
    color: u8,
    plte: Seq<u8>,
    trns: Seq<u8>,
    body: Seq<u8>,
    cut: int,
)
    requires
        plte.len() <= u32::MAX,
        trns.len() <= u32::MAX,
        body.len() <= u32::MAX,
        0 <= cut <= body.len(),
    ensures
        ({
            let bytes = file(width, height, depth, color, plte, trns, body, cut);
            &&& bytes.len() >= 8
            &&& bytes.subrange(0, 8) == png::SIGNATURE@
            &&& png::contents_from(bytes, 8, png::no_contents()) == Ok::<Contents, DecodeError>(
                Contents { header: true, width, height, depth, color, plte, trns, idat: body },
            )
        }),
{
    let head = header(width, height, depth, color);
    header_reads(width, height, depth, color);
    kinds_spelled();
    let a = png::chunk_bytes(IHDR@, head);
    let b = optional(PLTE@, plte);
    let c = optional(TRNS@, trns);
    let first = body.take(cut);
    let second = body.skip(cut);
    let d = optional(IDAT@, first);
    let e = png::chunk_bytes(IDAT@, second);
    let f = png::chunk_bytes(IEND@, Seq::empty());
    parts_are_held(png::SIGNATURE@, a, b, c, d, e, f);
    assert(a.len() == 25);
    assert(e.len() == 12 + second.len());
    let c1 = Contents { header: true, width, height, depth, color, ..png::no_contents() };
    let bytes = png::SIGNATURE@ + a + b + c + d + e + f;
    assert(bytes == file(width, height, depth, color, plte, trns, body, cut));
    chunks_read(bytes, head, plte, trns, first, second, c1);
    assert(first + second =~= body);
}

/// A file shows the picture its writer put into it: of any colour type and depth, its
/// rows under any filters, its data in one chunk or two, it decodes to a picture of
/// its size in which every pixel is what its place in its row shows.
#[verifier::spinoff_prover]
pub proof fn a_file_shows_its_picture(
    width: u32,
    height: u32,
    depth: u8,
    color: u8,
    plte: Seq<u8>,
    trns: Seq<u8>,
    rows: Seq<Seq<u8>>,
    filters: Seq<u8>,
    raw: Seq<u8>,
    cut: int,
)
    requires
        comes_in(color, depth),
        1 <= width <= MAX_DIMENSION,
        1 <= height <= MAX_DIMENSION,
        rows.len() == height,
        filed(
            raw,
            rows,
            filters,
            row_length(width as int, depth, color),
            look_back(depth, color),
        ),
        plte.len() <= u32::MAX,
        trns.len() <= u32::MAX,
        color == 3 ==> plte.len() > 0,
        0 <= cut <= deflate::zlib_bytes(raw).len(),
    ensures
        ({
            let image = png::decoded(
                file(width, height, depth, color, plte, trns, deflate::zlib_bytes(raw), cut),
            );
            &&& image matches Ok((w, h, pixels))
            &&& w == width
            &&& h == height
            &&& pixels.len() == width * height
            &&& forall|x: int, y: int|
                0 <= x < width && 0 <= y < height ==> shows(
                    #[trigger] pixels[y * width + x],
                    rows[y],
                    depth,
                    color,
                    plte,
                    trns,
                    x,
                )
        }),
{
    let w = width as int;
    let h = height as int;
    let stride = row_length(w, depth, color);
    let reach = look_back(depth, color);
    let n = per_pixel(color);
    assert(png::samples_of(color) == n);
    assert(png::stride_of(w, depth, color) == stride);
    assert(png::reach_of(depth, color) == reach);
    assert(png::paired(depth, color));
    assert(1 <= w * n <= 65536) by (nonlinear_arith)
        requires
            1 <= w <= 16384,
            1 <= n <= 4,
    ;
    assert(1 <= w * n * depth <= 1048576) by (nonlinear_arith)
        requires
            1 <= w * n <= 65536,
            1 <= depth <= 16,
    ;
    assert(1 <= stride <= 131072);
    assert(0 <= h * (stride + 1) <= 16384 * 131073) by (nonlinear_arith)
        requires
            0 <= h <= 16384,
            1 <= stride <= 131072,
    ;
    let body = deflate::zlib_bytes(raw);
    deflate::zlib_length(raw);
    deflate::inflate_undoes_zlib(raw, (h * (stride + 1)) as nat);
    file_contents(width, height, depth, color, plte, trns, body, cut);
    let c = Contents { header: true, width, height, depth, color, plte, trns, idat: body };
    let palette = if color == 3 {
        png::palette_of(plte, trns)
    } else {
        Seq::empty()
    };
    let key = png::key_of(color, trns);
    assert forall|y: int| 0 <= y < h implies #[trigger] raw[y * (stride + 1)] <= 4 by {
        assert(rows[y].len() == stride);
    }
    let pixels = png::image_pixels(raw, w, h, depth, color, palette, key);
    assert(png::contents_pixels(c) == Ok::<Seq<u32>, DecodeError>(pixels));
    assert(h * w == w * h) by (nonlinear_arith);
    assert forall|x: int, y: int| 0 <= x < w && 0 <= y < h implies shows(
        #[trigger] pixels[y * w + x],
        rows[y],
        depth,
        color,
        plte,
        trns,
        x,
    ) by {
        vstd::arithmetic::div_mod::lemma_fundamental_div_mod_converse(y * w + x, w, y, x);
        assert(0 <= y * w + x < h * w) by (nonlinear_arith)
            requires
                0 <= x < w,
                0 <= y < h,
        ;
        assert(rows[y].len() == stride);
        filed_rows_read_back(raw, rows, filters, stride, reach, y);
        pixel_shows(rows[y], w, depth, color, plte, trns, x);
    }
}

/// Whether rows of bytes are a picture's pixels, each its red, green, blue and alpha
/// in that order.
pub open spec fn rows_of(pixels: Seq<u32>, rows: Seq<Seq<u8>>, width: int) -> bool {
    forall|x: int, y: int|
        0 <= x < width && 0 <= y < rows.len() ==> {
            let px = #[trigger] pixels[y * width + x];
            &&& rows[y][4 * x] == red(px)
            &&& rows[y][4 * x + 1] == green(px)
            &&& rows[y][4 * x + 2] == blue(px)
            &&& rows[y][4 * x + 3] == alpha(px)
        }
}

proof fn same_parts(a: u32, b: u32)
    requires
        red(a) == red(b),
        green(a) == green(b),
        blue(a) == blue(b),
        alpha(a) == alpha(b),
    ensures
        a == b,
{
    assert(a == 0x100_0000 * alpha(a) + 0x1_0000 * red(a) + 256 * green(a) + blue(a));
    assert(b == 0x100_0000 * alpha(b) + 0x1_0000 * red(b) + 256 * green(b) + blue(b));
}

/// A pixel packed from its own four channels is that pixel.
pub proof fn a_word_is_its_parts(px: u32)
    ensures
        png::packed(
            alpha(px) as u8,
            red(px) as u8,
            green(px) as u8,
            blue(px) as u8,
        ) == px,
{
    let back = png::packed(alpha(px) as u8, red(px) as u8, green(px) as u8, blue(px) as u8);
    parts_of_a_word(alpha(px) as u8, red(px) as u8, green(px) as u8, blue(px) as u8);
    same_parts(back, px);
}

/// An icon written with its alpha reads back pixel for pixel, whatever its pixels and
/// its rows' filters are.
pub proof fn an_icon_reads_back(
    pixels: Seq<u32>,
    width: u32,
    height: u32,
    rows: Seq<Seq<u8>>,
    filters: Seq<u8>,
    raw: Seq<u8>,
    cut: int,
)
    requires
        1 <= width <= MAX_DIMENSION,
        1 <= height <= MAX_DIMENSION,
        pixels.len() == width * height,
        rows.len() == height,
        rows_of(pixels, rows, width as int),
        filed(raw, rows, filters, 4 * width, 4),
        0 <= cut <= deflate::zlib_bytes(raw).len(),
    ensures
        png::decoded(
            file(
                width,
                height,
                8,
                6,
                Seq::empty(),
                Seq::empty(),
                deflate::zlib_bytes(raw),
                cut,
            ),
        ) == Ok::<(u32, u32, Seq<u32>), DecodeError>((width, height, pixels)),
{
    let w = width as int;
    let h = height as int;
    assert(row_length(w, 8, 6) == 4 * w);
    let none = Seq::<u8>::empty();
    a_file_shows_its_picture(width, height, 8, 6, none, none, rows, filters, raw, cut);
    let image = png::decoded(file(width, height, 8, 6, none, none, deflate::zlib_bytes(raw), cut));
    let got = image->Ok_0.2;
    assert forall|i: int| 0 <= i < pixels.len() implies #[trigger] got[i] == pixels[i] by {
        let y = i / w;
        let x = i % w;
        vstd::arithmetic::div_mod::lemma_fundamental_div_mod(i, w);
        assert(w * y == y * w) by (nonlinear_arith);
        assert(0 <= x < w) by (nonlinear_arith)
            requires
                x == i % w,
                1 <= w,
        ;
        assert(0 <= y < h) by (nonlinear_arith)
            requires
                i == y * w + x,
                0 <= x < w,
                0 <= i < w * h,
        ;
        let px = pixels[y * w + x];
        let back = got[y * w + x];
        assert(shows(back, rows[y], 8, 6, none, none, x));
        assert(red(back) == red(px) && green(back) == green(px) && blue(back) == blue(px) && alpha(
            back,
        ) == alpha(px));
        same_parts(back, px);
    }
    assert(got =~= pixels);
}

} // verus!
