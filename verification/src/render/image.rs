//! Application icons.
//!
//! An app row draws the PNG the icon lookup resolved, decoded once and resampled
//! to the row's device size behind [`IconCache`]. Anything that does not decode
//! falls back to a tile tinted from the app's name with its initial on it.

use crate::ordered;
use crate::ordered::OrderedMap;
use crate::render::buffer;
use crate::render::buffer::Color;
use crate::render::png;
use crate::render::png_laws;
use crate::render::png::{pack, Decoded};
use crate::render::primitives;
use crate::render::primitives::Rect;
use crate::single;
use crate::single::{quotient_of, rounded_of};
use crate::text;
use crate::text::chars_of;
use vstd::prelude::*;
use vstd::string::*;
use vstd::utf8::*;

verus! {

/// A decoded icon, already scaled to the size it draws at. ARGB words with
/// straight alpha, row-major.
pub struct IconImage {
    pub width: u32,
    pub height: u32,
    pub pixels: Vec<u32>,
}

#[verifier::ext_equal]
pub struct IconModel {
    pub width: u32,
    pub height: u32,
    pub pixels: Seq<u32>,
}

impl View for IconImage {
    type V = IconModel;

    open spec fn view(&self) -> IconModel {
        IconModel { width: self.width, height: self.height, pixels: self.pixels@ }
    }
}

pub open spec fn image_view(image: Option<IconImage>) -> Option<IconModel> {
    match image {
        Some(i) => Some(i@),
        None => None,
    }
}

// --- Resampling ------------------------------------------------------------------------

/// The channels of a word by number: alpha, red, green, blue.
pub open spec fn channel(px: u32, k: int) -> int {
    if k == 0 {
        buffer::alpha(px)
    } else if k == 1 {
        buffer::red(px)
    } else if k == 2 {
        buffer::green(px)
    } else {
        buffer::blue(px)
    }
}

/// A channel weighted by its pixel's alpha; the alpha itself as it is.
pub open spec fn weighed(px: u32, k: int) -> int {
    if k == 0 {
        buffer::alpha(px)
    } else {
        (channel(px, k) * buffer::alpha(px) + 127) / 255
    }
}

/// The sum of a channel over the pixels from `from` up to `to`.
pub open spec fn run_sum(src: Seq<u32>, k: int, from: int, to: int) -> int
    decreases to - from,
{
    if to <= from {
        0
    } else {
        run_sum(src, k, from, to - 1) + weighed(src[to - 1], k)
    }
}

/// The sum of a channel over a box of pixels.
pub open spec fn box_sum(
    src: Seq<u32>,
    width: int,
    k: int,
    x0: int,
    x1: int,
    y0: int,
    y1: int,
) -> int
    decreases y1 - y0,
{
    if y1 <= y0 {
        0
    } else {
        box_sum(src, width, k, x0, x1, y0, y1 - 1) + run_sum(
            src,
            k,
            (y1 - 1) * width + x0,
            (y1 - 1) * width + x1,
        )
    }
}

/// The mean, rounded to the nearest.
pub open spec fn mean(sum: int, n: int) -> int {
    (2 * sum + n) / (2 * n)
}

/// A weighted channel with its weight taken out again.
pub open spec fn unweighed(c: int, a: int) -> int {
    if a == 0 {
        0
    } else {
        primitives::least((c * 255 + a / 2) / a, 255)
    }
}

/// Where the `i`th of `d` pixels begins among `s`.
pub open spec fn span_start(i: int, s: int, d: int) -> int {
    (i * s) / d
}

/// Where it ends: at least one pixel on.
pub open spec fn span_end(i: int, s: int, d: int) -> int {
    primitives::most(((i + 1) * s) / d, span_start(i, s, d) + 1)
}

/// One pixel of a scaled image: the mean of the box it stands for, weighted by
/// alpha.
pub open spec fn scaled_pixel(
    src: Seq<u32>,
    sw: int,
    sh: int,
    dw: int,
    dh: int,
    x: int,
    y: int,
) -> u32 {
    let x0 = span_start(x, sw, dw);
    let x1 = span_end(x, sw, dw);
    let y0 = span_start(y, sh, dh);
    let y1 = span_end(y, sh, dh);
    let n = (x1 - x0) * (y1 - y0);
    let a = mean(box_sum(src, sw, 0, x0, x1, y0, y1), n);
    png::packed(
        a as u8,
        unweighed(mean(box_sum(src, sw, 1, x0, x1, y0, y1), n), a) as u8,
        unweighed(mean(box_sum(src, sw, 2, x0, x1, y0, y1), n), a) as u8,
        unweighed(mean(box_sum(src, sw, 3, x0, x1, y0, y1), n), a) as u8,
    )
}

/// An image scaled. Sizes of nothing, or a source shorter than its size, give
/// nothing; equal sizes copy, which keeps translucent pixels exact.
pub open spec fn resampled(src: Seq<u32>, sw: int, sh: int, dw: int, dh: int) -> Seq<u32> {
    if sw == 0 || sh == 0 || dw == 0 || dh == 0 || src.len() < sw * sh {
        Seq::empty()
    } else if dw == sw && dh == sh {
        src.take(sw * sh)
    } else {
        Seq::new(
            (dw * dh) as nat,
            |i: int| scaled_pixel(src, sw, sh, dw, dh, i % dw, i / dw),
        )
    }
}

/// The sums of the four channels.
#[derive(Clone, Copy)]
struct Sums {
    a: u128,
    r: u128,
    g: u128,
    b: u128,
}

proof fn run_sum_bounds(src: Seq<u32>, k: int, from: int, to: int)
    requires
        from <= to,
    ensures
        0 <= run_sum(src, k, from, to) <= 255 * (to - from),
    decreases to - from,
{
    if from < to {
        run_sum_bounds(src, k, from, to - 1);
        let px = src[to - 1];
        let c = channel(px, k);
        let a = buffer::alpha(px);
        assert(0 <= c * a <= 255 * 255) by (nonlinear_arith)
            requires
                0 <= c <= 255,
                0 <= a <= 255,
        ;
    }
}

proof fn box_sum_bounds(
    src: Seq<u32>,
    width: int,
    k: int,
    x0: int,
    x1: int,
    y0: int,
    y1: int,
)
    requires
        x0 <= x1,
        y0 <= y1,
    ensures
        0 <= box_sum(src, width, k, x0, x1, y0, y1) <= 255 * ((x1 - x0) * (y1 - y0)),
    decreases y1 - y0,
{
    if y0 < y1 {
        box_sum_bounds(src, width, k, x0, x1, y0, y1 - 1);
        run_sum_bounds(src, k, (y1 - 1) * width + x0, (y1 - 1) * width + x1);
        assert((x1 - x0) * (y1 - y0) == (x1 - x0) * (y1 - 1 - y0) + (x1 - x0))
            by (nonlinear_arith);
    } else {
        assert((x1 - x0) * (y1 - y0) == 0) by (nonlinear_arith)
            requires
                y0 == y1,
        ;
    }
}

fn weigh(c: u32, a: u32) -> (w: u128)
    requires
        c <= 255,
        a <= 255,
    ensures
        w == (c * a + 127) / 255,
{
    assert(0 <= c * a <= 255 * 255) by (nonlinear_arith)
        requires
            0 <= c <= 255,
            0 <= a <= 255,
    ;
    ((c * a + 127) / 255) as u128
}

fn sum_run(src: &[u32], from: usize, to: usize) -> (s: Sums)
    requires
        from <= to <= src@.len(),
    ensures
        s.a == run_sum(src@, 0, from as int, to as int),
        s.r == run_sum(src@, 1, from as int, to as int),
        s.g == run_sum(src@, 2, from as int, to as int),
        s.b == run_sum(src@, 3, from as int, to as int),
{
    let mut s = Sums { a: 0, r: 0, g: 0, b: 0 };
    let mut i: usize = from;
    while i < to
        invariant
            from <= i <= to <= src@.len(),
            s.a == run_sum(src@, 0, from as int, i as int),
            s.r == run_sum(src@, 1, from as int, i as int),
            s.g == run_sum(src@, 2, from as int, i as int),
            s.b == run_sum(src@, 3, from as int, i as int),
        decreases to - i,
    {
        proof {
            run_sum_bounds(src@, 0, from as int, i + 1);
            run_sum_bounds(src@, 1, from as int, i + 1);
            run_sum_bounds(src@, 2, from as int, i + 1);
            run_sum_bounds(src@, 3, from as int, i + 1);
        }
        let px: u32 = src[i];
        let a: u32 = px / 0x100_0000;
        s.a = s.a + a as u128;
        s.r = s.r + weigh(px / 0x1_0000 % 0x100, a);
        s.g = s.g + weigh(px / 0x100 % 0x100, a);
        s.b = s.b + weigh(px % 0x100, a);
        i = i + 1;
    }
    s
}

/// A row of a box lies within its image.
proof fn row_fits(width: int, height: int, x1: int, y: int, len: int)
    requires
        0 <= x1 <= width,
        0 <= y < height,
        width * height <= len,
    ensures
        0 <= y * width,
        y * width + x1 <= len,
{
    assert(0 <= y * width && y * width + width <= height * width) by (nonlinear_arith)
        requires
            0 <= width,
            0 <= y,
            y + 1 <= height,
    ;
    assert(height * width == width * height) by (nonlinear_arith);
}

fn sum_box(
    src: &[u32],
    width: usize,
    height: usize,
    x0: usize,
    x1: usize,
    y0: usize,
    y1: usize,
) -> (s: Sums)
    requires
        x0 <= x1 <= width,
        y0 <= y1 <= height,
        width * height <= src@.len(),
    ensures
        s.a == box_sum(src@, width as int, 0, x0 as int, x1 as int, y0 as int, y1 as int),
        s.r == box_sum(src@, width as int, 1, x0 as int, x1 as int, y0 as int, y1 as int),
        s.g == box_sum(src@, width as int, 2, x0 as int, x1 as int, y0 as int, y1 as int),
        s.b == box_sum(src@, width as int, 3, x0 as int, x1 as int, y0 as int, y1 as int),
{
    let mut s = Sums { a: 0, r: 0, g: 0, b: 0 };
    let mut y: usize = y0;
    while y < y1
        invariant
            x0 <= x1 <= width,
            y0 <= y <= y1 <= height,
            width * height <= src@.len(),
            s.a == box_sum(src@, width as int, 0, x0 as int, x1 as int, y0 as int, y as int),
            s.r == box_sum(src@, width as int, 1, x0 as int, x1 as int, y0 as int, y as int),
            s.g == box_sum(src@, width as int, 2, x0 as int, x1 as int, y0 as int, y as int),
            s.b == box_sum(src@, width as int, 3, x0 as int, x1 as int, y0 as int, y as int),
        decreases y1 - y,
    {
        assert(src.len() == src@.len());
        proof {
            row_fits(width as int, height as int, x1 as int, y as int, src@.len() as int);
            let (w, l, r, t, b) = (width as int, x0 as int, x1 as int, y0 as int, y + 1);
            box_sum_bounds(src@, w, 0, l, r, t, b);
            box_sum_bounds(src@, w, 1, l, r, t, b);
            box_sum_bounds(src@, w, 2, l, r, t, b);
            box_sum_bounds(src@, w, 3, l, r, t, b);
            assert((r - l) * (b - t) <= src@.len()) by (nonlinear_arith)
                requires
                    0 <= l <= r <= w,
                    0 <= t <= b <= height,
                    w * height <= src@.len(),
            ;
        }
        let run = sum_run(src, y * width + x0, y * width + x1);
        s.a = s.a + run.a;
        s.r = s.r + run.r;
        s.g = s.g + run.g;
        s.b = s.b + run.b;
        y = y + 1;
    }
    s
}

fn mean_of(sum: u128, n: u128) -> (m: u32)
    requires
        0 < n <= 0x1_0000_0000_0000_0000,
        sum <= 255 * n,
    ensures
        m == mean(sum as int, n as int),
        m <= 255,
{
    let m: u128 = (2 * sum + n) / (2 * n);
    assert(m <= 255) by (nonlinear_arith)
        requires
            n > 0,
            sum <= 255 * n,
            m == (2 * sum + n) / (2 * n),
    ;
    m as u32
}

fn unweigh(c: u32, a: u32) -> (v: u8)
    requires
        c <= 255,
        a <= 255,
    ensures
        v == unweighed(c as int, a as int),
        0 <= unweighed(c as int, a as int) <= 255,
{
    if a == 0 {
        return 0;
    }
    let v: u32 = (c * 255 + a / 2) / a;
    if v < 255 {
        v as u8
    } else {
        255
    }
}

/// A span lies within the pixels it divides.
proof fn span_bounds(i: int, s: int, d: int)
    requires
        0 <= i < d,
        0 < s,
    ensures
        0 <= span_start(i, s, d) < span_end(i, s, d) <= s,
{
    assert(0 <= (i * s) / d < s) by (nonlinear_arith)
        requires
            0 <= i < d,
            0 < s,
    ;
    assert(((i + 1) * s) / d <= s) by (nonlinear_arith)
        requires
            i + 1 <= d,
            0 <= i,
            0 < s,
    ;
}

fn span_of(i: u32, s: u32, d: u32) -> (span: (usize, usize))
    requires
        i < d,
        0 < s,
    ensures
        span.0 == span_start(i as int, s as int, d as int),
        span.1 == span_end(i as int, s as int, d as int),
        span.0 < span.1 <= s,
{
    proof {
        span_bounds(i as int, s as int, d as int);
    }
    assert((i + 1) * s <= 0x1_0000_0000 * 0xffff_ffff) by (nonlinear_arith)
        requires
            i + 1 <= 0x1_0000_0000,
            s <= 0xffff_ffff,
    ;
    assert(i * s <= (i + 1) * s) by (nonlinear_arith)
        requires
            0 <= s,
    ;
    let start: u64 = (i as u64 * s as u64) / d as u64;
    let next: u64 = ((i as u64 + 1) * s as u64) / d as u64;
    let end: u64 = if next > start + 1 {
        next
    } else {
        start + 1
    };
    (start as usize, end as usize)
}

fn scale_pixel(src: &[u32], sw: u32, sh: u32, dw: u32, dh: u32, x: u32, y: u32) -> (px: u32)
    requires
        0 < sw,
        0 < sh,
        x < dw,
        y < dh,
        sw * sh <= src@.len(),
    ensures
        px == scaled_pixel(src@, sw as int, sh as int, dw as int, dh as int, x as int, y as int),
{
    let (x0, x1): (usize, usize) = span_of(x, sw, dw);
    let (y0, y1): (usize, usize) = span_of(y, sh, dh);
    let s = sum_box(src, sw as usize, sh as usize, x0, x1, y0, y1);
    let ghost (w, l, r, t, b) = (sw as int, x0 as int, x1 as int, y0 as int, y1 as int);
    assert(src.len() == src@.len());
    proof {
        box_sum_bounds(src@, w, 0, l, r, t, b);
        box_sum_bounds(src@, w, 1, l, r, t, b);
        box_sum_bounds(src@, w, 2, l, r, t, b);
        box_sum_bounds(src@, w, 3, l, r, t, b);
        assert(0 < (r - l) * (b - t) <= src@.len()) by (nonlinear_arith)
            requires
                0 <= l < r <= w,
                0 <= t < b <= sh,
                w * sh <= src@.len(),
        ;
    }
    let n: u128 = ((x1 - x0) * (y1 - y0)) as u128;
    let a: u32 = mean_of(s.a, n);
    pack(
        a as u8,
        unweigh(mean_of(s.r, n), a),
        unweigh(mean_of(s.g, n), a),
        unweigh(mean_of(s.b, n), a),
    )
}

proof fn place_of(x: int, y: int, w: int)
    requires
        0 <= x < w,
        0 <= y,
    ensures
        (y * w + x) % w == x,
        (y * w + x) / w == y,
{
    vstd::arithmetic::div_mod::lemma_fundamental_div_mod_converse(y * w + x, w, y, x);
}

/// Scale `src` to `dw` by `dh`, straight alpha in and out. Filtering happens in
/// premultiplied space, since a fully transparent pixel usually carries black
/// and averaging that straight would pull a dark fringe around the icon's edges.
pub fn resample(src: &[u32], sw: u32, sh: u32, dw: u32, dh: u32) -> (out: Vec<u32>)
    ensures
        out@ == resampled(src@, sw as int, sh as int, dw as int, dh as int),
{
    assert(0 <= sw * sh <= 0xffff_ffff * 0xffff_ffff) by (nonlinear_arith)
        requires
            0 <= sw <= 0xffff_ffff,
            0 <= sh <= 0xffff_ffff,
    ;
    let mut out: Vec<u32> = Vec::new();
    if sw == 0 || sh == 0 || dw == 0 || dh == 0 || (src.len() as u64) < sw as u64 * sh as u64 {
        assert(out@ =~= Seq::<u32>::empty());
        return out;
    }
    if dw == sw && dh == sh {
        let n: usize = (sw as u64 * sh as u64) as usize;
        let mut i: usize = 0;
        while i < n
            invariant
                i <= n <= src@.len(),
                out@ == src@.take(i as int),
            decreases n - i,
        {
            out.push(src[i]);
            i = i + 1;
            assert(out@ =~= src@.take(i as int));
        }
        return out;
    }
    let ghost goal = resampled(src@, sw as int, sh as int, dw as int, dh as int);
    let mut y: u32 = 0;
    while y < dh
        invariant
            y <= dh,
            0 < sw,
            0 < sh,
            0 < dw,
            sw * sh <= src@.len(),
            !(dw == sw && dh == sh),
            goal == resampled(src@, sw as int, sh as int, dw as int, dh as int),
            out@.len() == y * dw,
            y * dw <= dh * dw,
            forall|i: int| 0 <= i < out@.len() ==> #[trigger] out@[i] == goal[i],
        decreases dh - y,
    {
        let mut x: u32 = 0;
        while x < dw
            invariant
                x <= dw,
                y < dh,
                0 < sw,
                0 < sh,
                0 < dw,
                sw * sh <= src@.len(),
                !(dw == sw && dh == sh),
                goal == resampled(src@, sw as int, sh as int, dw as int, dh as int),
                out@.len() == y * dw + x,
                forall|i: int| 0 <= i < out@.len() ==> #[trigger] out@[i] == goal[i],
            decreases dw - x,
        {
            proof {
                place_of(x as int, y as int, dw as int);
                assert(y * dw + x < dw * dh) by (nonlinear_arith)
                    requires
                        x < dw,
                        y + 1 <= dh,
                        0 <= y,
                ;
                assert(0 <= y * dw) by (nonlinear_arith);
                assert(goal[y * dw + x] == scaled_pixel(
                    src@,
                    sw as int,
                    sh as int,
                    dw as int,
                    dh as int,
                    x as int,
                    y as int,
                ));
            }
            out.push(scale_pixel(src, sw, sh, dw, dh, x, y));
            x = x + 1;
        }
        assert((y + 1) * dw == y * dw + dw) by (nonlinear_arith);
        assert((y + 1) * dw <= dh * dw) by (nonlinear_arith)
            requires
                y + 1 <= dh,
                0 <= dw,
        ;
        y = y + 1;
    }
    assert(dh * dw == dw * dh) by (nonlinear_arith);
    assert(out@ =~= goal);
    out
}

/// Scaling fills every pixel it was asked for: nothing where either size is
/// nothing or the source is short, else exactly the size.
pub proof fn scaling_fills_the_size(src: Seq<u32>, sw: int, sh: int, dw: int, dh: int)
    requires
        0 < sw,
        0 < sh,
        0 <= dw,
        0 <= dh,
        sw * sh <= src.len(),
    ensures
        resampled(src, sw, sh, dw, dh).len() == dw * dh,
{
    assert(dw == 0 || dh == 0 ==> dw * dh == 0) by (nonlinear_arith);
    assert(0 <= dw * dh) by (nonlinear_arith)
        requires
            0 <= dw,
            0 <= dh,
    ;
    assert(0 <= sw * sh) by (nonlinear_arith)
        requires
            0 < sw,
            0 < sh,
    ;
}

/// Scaling to the same size changes nothing.
pub proof fn scaling_to_the_same_size_copies(src: Seq<u32>, w: int, h: int)
    requires
        0 < w,
        0 < h,
        src.len() == w * h,
    ensures
        resampled(src, w, h, w, h) == src,
{
    assert(src.take(w * h) =~= src);
}

proof fn plain_run(src: Seq<u32>, k: int, from: int, to: int, px: u32)
    requires
        0 <= from <= to <= src.len(),
        forall|i: int| 0 <= i < src.len() ==> #[trigger] src[i] == px,
        buffer::alpha(px) == 255,
        0 <= k < 4,
    ensures
        run_sum(src, k, from, to) == channel(px, k) * (to - from),
    decreases to - from,
{
    let c = channel(px, k);
    if from < to {
        plain_run(src, k, from, to - 1, px);
        assert(src[to - 1] == px);
        assert(weighed(px, k) == c) by {
            assert(c * 255 == 255 * c);
        }
        assert(c * (to - from) == c * (to - 1 - from) + c) by (nonlinear_arith);
    } else {
        assert(c * (to - from) == 0) by (nonlinear_arith)
            requires
                to == from,
        ;
    }
}

proof fn plain_box(
    src: Seq<u32>,
    width: int,
    height: int,
    k: int,
    x0: int,
    x1: int,
    y0: int,
    y1: int,
    px: u32,
)
    requires
        0 <= x0 <= x1 <= width,
        0 <= y0 <= y1 <= height,
        width * height <= src.len(),
        forall|i: int| 0 <= i < src.len() ==> #[trigger] src[i] == px,
        buffer::alpha(px) == 255,
        0 <= k < 4,
    ensures
        box_sum(src, width, k, x0, x1, y0, y1) == channel(px, k) * ((x1 - x0) * (y1 - y0)),
    decreases y1 - y0,
{
    let c = channel(px, k);
    if y0 < y1 {
        plain_box(src, width, height, k, x0, x1, y0, y1 - 1, px);
        let y = y1 - 1;
        assert(0 <= y * width + x0) by (nonlinear_arith)
            requires
                0 <= y,
                0 <= width,
                0 <= x0,
        ;
        assert(y * width + x1 <= width * height) by (nonlinear_arith)
            requires
                y + 1 <= height,
                x1 <= width,
                0 <= width,
        ;
        plain_run(src, k, y * width + x0, y * width + x1, px);
        assert(c * ((x1 - x0) * (y1 - y0)) == c * ((x1 - x0) * (y - y0)) + c * (x1 - x0))
            by (nonlinear_arith)
            requires
                y1 == y + 1,
        ;
    } else {
        assert(c * ((x1 - x0) * (y1 - y0)) == 0) by (nonlinear_arith)
            requires
                y0 == y1,
        ;
    }
}

proof fn plain_mean(c: int, n: int)
    requires
        0 <= c <= 255,
        1 <= n,
    ensures
        mean(c * n, n) == c,
{
    assert((2 * (c * n) + n) / (2 * n) == c) by {
        assert(2 * (c * n) + n == c * (2 * n) + n) by (nonlinear_arith);
        vstd::arithmetic::div_mod::lemma_fundamental_div_mod_converse(
            2 * (c * n) + n,
            2 * n,
            c,
            n,
        );
    }
}

/// A picture of one opaque colour is of that colour at every size.
pub proof fn scaling_keeps_a_plain_colour(
    src: Seq<u32>,
    sw: int,
    sh: int,
    dw: int,
    dh: int,
    px: u32,
    i: int,
)
    requires
        0 < sw,
        0 < sh,
        0 < dw,
        0 < dh,
        sw * sh <= src.len(),
        forall|k: int| 0 <= k < src.len() ==> #[trigger] src[k] == px,
        buffer::alpha(px) == 255,
        0 <= i < dw * dh,
    ensures
        resampled(src, sw, sh, dw, dh)[i] == px,
{
    if dw == sw && dh == sh {
        assert(src.take(sw * sh)[i] == src[i]);
    } else {
        let x = i % dw;
        let y = i / dw;
        vstd::arithmetic::div_mod::lemma_fundamental_div_mod(i, dw);
        vstd::arithmetic::div_mod::lemma_mod_bound(i, dw);
        assert(0 <= y < dh) by (nonlinear_arith)
            requires
                i == dw * y + x,
                0 <= x < dw,
                0 <= i < dw * dh,
        ;
        span_bounds(x, sw, dw);
        span_bounds(y, sh, dh);
        let x0 = span_start(x, sw, dw);
        let x1 = span_end(x, sw, dw);
        let y0 = span_start(y, sh, dh);
        let y1 = span_end(y, sh, dh);
        let n = (x1 - x0) * (y1 - y0);
        assert(1 <= n) by (nonlinear_arith)
            requires
                n == (x1 - x0) * (y1 - y0),
                1 <= x1 - x0,
                1 <= y1 - y0,
        ;
        plain_box(src, sw, sh, 0, x0, x1, y0, y1, px);
        plain_box(src, sw, sh, 1, x0, x1, y0, y1, px);
        plain_box(src, sw, sh, 2, x0, x1, y0, y1, px);
        plain_box(src, sw, sh, 3, x0, x1, y0, y1, px);
        plain_mean(channel(px, 0), n);
        plain_mean(channel(px, 1), n);
        plain_mean(channel(px, 2), n);
        plain_mean(channel(px, 3), n);
        let (r, g, b) = (buffer::red(px), buffer::green(px), buffer::blue(px));
        assert(unweighed(r, 255) == r && unweighed(g, 255) == g && unweighed(b, 255) == b);
        png_laws::a_word_is_its_parts(px);
    }
}

/// Shrinking reads every row and column of the source once: each span begins
/// where the one before it ended, the first at the start and the last at the end.
pub proof fn shrinking_reads_everything_once(i: int, s: int, d: int)
    requires
        0 < d <= s,
        0 <= i < d,
    ensures
        span_start(0, s, d) == 0,
        span_end(d - 1, s, d) == s,
        span_end(i, s, d) == span_start(i + 1, s, d),
{
    assert((0 * s) / d == 0) by (nonlinear_arith)
        requires
            d > 0,
    ;
    assert((d * s) / d == s) by (nonlinear_arith)
        requires
            d > 0,
    ;
    assert(((i + 1) * s) / d >= (i * s) / d + 1) by (nonlinear_arith)
        requires
            0 < d <= s,
            0 <= i,
    ;
    assert(((d - 1 + 1) * s) / d >= ((d - 1) * s) / d + 1) by (nonlinear_arith)
        requires
            0 < d <= s,
    ;
}

// --- Loading --------------------------------------------------------------------------------

/// One side of an image fitted to a square, its aspect kept by `fit`.
pub open spec fn fitted_side(side: int, fit: nat) -> int {
    primitives::most(
        primitives::least(single::rounded(single::scaled(side as nat, fit)) as int, u32::MAX as int),
        1,
    )
}

/// How much an image shrinks or grows to fit a square.
pub open spec fn fit_of(side: nat, width: nat, height: nat) -> nat {
    primitives::least(
        single::quotient(side, width) as int,
        single::quotient(side, height) as int,
    ) as nat
}

/// A file's icon fitted to a `side` by `side` square with its aspect kept, if it
/// decodes.
pub open spec fn loaded(file: Option<Seq<u8>>, side: u32) -> Option<IconModel> {
    match file {
        None => None,
        Some(bytes) => match png::decoded(bytes) {
            Err(_) => None,
            Ok((w, h, pixels)) => if side == 0 || w == 0 || h == 0 {
                None
            } else {
                let fit = fit_of(side as nat, w as nat, h as nat);
                let width = fitted_side(w as int, fit);
                let height = fitted_side(h as int, fit);
                let scaled = resampled(pixels, w as int, h as int, width, height);
                if scaled.len() == 0 {
                    None
                } else {
                    Some(
                        IconModel { width: width as u32, height: height as u32, pixels: scaled },
                    )
                }
            },
        },
    }
}

fn fit_side(side: u32, fit: u128) -> (v: u32)
    requires
        side <= 0x1000_0000,
        fit <= 0x8000_0000_0000_0000_0000_0002,
    ensures
        v == fitted_side(side as int, fit as nat),
{
    let r: u128 = rounded_of(side, fit);
    if r < 1 {
        1
    } else if r > 0xffff_ffff {
        0xffff_ffff
    } else {
        r as u32
    }
}

pub open spec fn bytes_view(file: Option<&[u8]>) -> Option<Seq<u8>> {
    match file {
        Some(b) => Some(b@),
        None => None,
    }
}

/// Decode a file's bytes, scaled to fit a `side` by `side` square with its
/// aspect kept.
pub fn load(file: Option<&[u8]>, side: u32) -> (image: Option<IconImage>)
    requires
        side <= 0x1000_0000,
    ensures
        image_view(image) == loaded(bytes_view(file), side),
{
    let bytes = match file {
        Some(bytes) => bytes,
        None => {
            return None;
        },
    };
    let src: Decoded = match png::decode(bytes) {
        Ok(src) => src,
        Err(_) => {
            return None;
        },
    };
    if side == 0 || src.width == 0 || src.height == 0 {
        return None;
    }
    proof {
        decoded_sizes(bytes@);
    }
    let across: u128 = quotient_of(side, src.width);
    let down: u128 = quotient_of(side, src.height);
    let fit: u128 = if across < down {
        across
    } else {
        down
    };
    let width: u32 = fit_side(src.width, fit);
    let height: u32 = fit_side(src.height, fit);
    let pixels = resample(src.pixels.as_slice(), src.width, src.height, width, height);
    if pixels.len() == 0 {
        return None;
    }
    Some(IconImage { width, height, pixels })
}

proof fn decoded_sizes(bytes: Seq<u8>)
    ensures
        png::decoded(bytes) matches Ok((w, h, _)) ==> w <= png::MAX_DIMENSION && h
            <= png::MAX_DIMENSION,
{
}

/// One path's decode result at the size it was built for. A failed decode is
/// kept as `None` so a broken or non-PNG file is not read again every frame.
pub struct IconEntry {
    pub side: u32,
    pub image: Option<IconImage>,
}

#[verifier::ext_equal]
pub struct EntryModel {
    pub side: u32,
    pub image: Option<IconModel>,
}

impl View for IconEntry {
    type V = EntryModel;

    open spec fn view(&self) -> EntryModel {
        EntryModel { side: self.side, image: image_view(self.image) }
    }
}

/// Decoded icons keyed by file path. Lives with the window and outlives a
/// frame, so a repaint costs a lookup rather than a decode.
pub struct IconCache {
    pub entries: OrderedMap<String, IconEntry>,
}

/// An entry for this path at this size is there.
pub open spec fn holds_at(entries: Seq<(Seq<char>, EntryModel)>, path: Seq<char>, side: u32) -> bool {
    ordered::lookup(entries, path) matches Some(e) && e.side == side
}

/// The entries once a path has been looked up: built anew where it was missing
/// or of another size.
pub open spec fn looked_up(
    entries: Seq<(Seq<char>, EntryModel)>,
    path: Seq<char>,
    side: u32,
    file: Option<Seq<u8>>,
) -> Seq<(Seq<char>, EntryModel)> {
    if holds_at(entries, path, side) {
        entries
    } else {
        ordered::put::<String, EntryModel>(
            entries,
            path,
            EntryModel { side, image: loaded(file, side) },
        )
    }
}

impl Default for IconCache {
    fn default() -> (cache: Self)
        ensures
            cache.entries.wf(),
            cache.entries@.len() == 0,
    {
        IconCache::new()
    }
}

impl IconCache {
    pub fn new() -> (cache: Self)
        ensures
            cache.entries.wf(),
            cache.entries@.len() == 0,
    {
        IconCache { entries: OrderedMap::new() }
    }

    /// Whether the icon at `path` is there for a `side` by `side` square. Where it
    /// is not, its file has to be read before it is asked for.
    pub fn holds(&self, path: &String, side: u32) -> (there: bool)
        requires
            self.entries.wf(),
        ensures
            there == holds_at(self.entries@, path@, side),
    {
        match self.entries.get(path) {
            Some(e) => e.side == side,
            None => false,
        }
    }

    /// The icon at `path` fitted to a `side` by `side` square, or `None` when it
    /// does not decode. Entries rebuild from `file`, the bytes there if any, when
    /// the output scale changes `side`.
    pub fn get(&mut self, path: &String, side: u32, file: Option<&[u8]>) -> (image: Option<
        &IconImage,
    >)
        requires
            old(self).entries.wf(),
            side <= 0x1000_0000,
        ensures
            final(self).entries.wf(),
            final(self).entries@ == looked_up(
                old(self).entries@,
                path@,
                side,
                bytes_view(file),
            ),
            match image {
                Some(i) => ordered::lookup(final(self).entries@, path@) matches Some(e)
                    && e.image == Some(i@),
                None => ordered::lookup(final(self).entries@, path@) matches Some(e)
                    && e.image is None,
            },
    {
        if !self.holds(path, side) {
            let image = load(file, side);
            let ghost before = self.entries@;
            self.entries.insert(path.clone(), IconEntry { side, image });
            proof {
                ordered::lookup_of_put::<String, EntryModel>(
                    before,
                    path@,
                    EntryModel { side, image: loaded(bytes_view(file), side) },
                    path@,
                );
            }
        }
        match self.entries.get(path) {
            Some(e) => match &e.image {
                Some(i) => Some(i),
                None => None,
            },
            None => None,
        }
    }
}

/// What was looked up once is there the next time: the same path at the same size
/// reads no file, whatever the file holds by then.
pub proof fn icons_are_decoded_once(
    entries: Seq<(Seq<char>, EntryModel)>,
    path: Seq<char>,
    side: u32,
    first: Option<Seq<u8>>,
    later: Option<Seq<u8>>,
)
    requires
        ordered::ascending::<String, EntryModel>(entries),
    ensures
        ({
            let once = looked_up(entries, path, side, first);
            holds_at(once, path, side) && looked_up(once, path, side, later) == once
        }),
{
    ordered::lookup_of_put::<String, EntryModel>(
        entries,
        path,
        EntryModel { side, image: loaded(first, side) },
        path,
    );
}

/// Where a length begins that is centred in a run from `at` on.
pub open spec fn centred(at: int, room: int, length: int) -> int {
    at + if room < length {
        -((length - room) / 2)
    } else {
        (room - length) / 2
    }
}

pub(crate) fn centre(at: i32, room: i32, length: i32) -> (v: i32)
    requires
        -0x1000_0000 <= at <= 0x1000_0000,
        -0x1000_0000 <= room <= 0x1000_0000,
        0 <= length <= 0x8000,
    ensures
        v == centred(at as int, room as int, length as int),
{
    if room < length {
        at - (length - room) / 2
    } else {
        at + (room - length) / 2
    }
}

/// A rectangle an icon can be placed in.
pub open spec fn roomy(r: Rect) -> bool {
    &&& -0x1000_0000 <= r.x <= 0x1000_0000
    &&& -0x1000_0000 <= r.y <= 0x1000_0000
    &&& -0x1000_0000 <= r.w <= 0x1000_0000
    &&& -0x1000_0000 <= r.h <= 0x1000_0000
}

// --- The fallback tile --------------------------------------------------------------------------

/// FNV-1a over bytes: a number that is the same for the same name everywhere.
pub open spec fn hashed(bytes: Seq<u8>) -> u32
    decreases bytes.len(),
{
    if bytes.len() == 0 {
        0x811c_9dc5
    } else {
        (hashed(bytes.drop_last()) ^ (bytes.last() as u32)).wrapping_mul(0x0100_0193)
    }
}

fn hash_of(bytes: &[u8]) -> (h: u32)
    ensures
        h == hashed(bytes@),
{
    let mut h: u32 = 0x811c_9dc5;
    let mut i: usize = 0;
    assert(bytes@.take(0) =~= Seq::<u8>::empty());
    while i < bytes.len()
        invariant
            i <= bytes@.len(),
            h == hashed(bytes@.take(i as int)),
        decreases bytes@.len() - i,
    {
        assert(bytes@.take(i + 1).drop_last() =~= bytes@.take(i as int));
        assert(bytes@.take(i + 1).last() == bytes@[i as int]);
        h = (h ^ (bytes[i] as u32)).wrapping_mul(0x0100_0193);
        i = i + 1;
    }
    assert(bytes@.take(i as int) =~= bytes@);
    h
}

/// How far a hue is, in degrees, from the even corners of the color wheel: what
/// a channel between its least and its most has climbed.
pub open spec fn climbed(hue: int) -> int {
    if hue % 120 <= 60 {
        hue % 120
    } else {
        120 - hue % 120
    }
}

/// The chroma of a saturation and a lightness in percent, in ten-thousandths.
pub open spec fn chroma(s: int, l: int) -> int {
    (100 - if 2 * l < 100 {
        100 - 2 * l
    } else {
        2 * l - 100
    }) * s
}

/// A channel that has climbed `k` of its sixty steps.
pub open spec fn leveled(s: int, l: int, k: int) -> u8 {
    let c = chroma(s, l);
    (((2 * c * k + 12_000 * l - 60 * c) * 255 + 600_000) / 1_200_000) as u8
}

/// The color of a hue in degrees, a saturation and a lightness in percent.
pub open spec fn tint(hue: int, s: int, l: int) -> Color {
    let top = leveled(s, l, 60);
    let mid = leveled(s, l, climbed(hue));
    let low = leveled(s, l, 0);
    let sector = hue / 60;
    if sector == 0 {
        Color { r: top, g: mid, b: low, a: 255 }
    } else if sector == 1 {
        Color { r: mid, g: top, b: low, a: 255 }
    } else if sector == 2 {
        Color { r: low, g: top, b: mid, a: 255 }
    } else if sector == 3 {
        Color { r: low, g: mid, b: top, a: 255 }
    } else if sector == 4 {
        Color { r: mid, g: low, b: top, a: 255 }
    } else {
        Color { r: top, g: low, b: mid, a: 255 }
    }
}

fn level_of(s: u32, l: u32, k: u32) -> (v: u8)
    requires
        s <= 100,
        l <= 100,
        k <= 60,
    ensures
        v == leveled(s as int, l as int, k as int),
{
    let peak: u32 = if 2 * l < 100 {
        2 * l
    } else {
        200 - 2 * l
    };
    let ghost c = chroma(s as int, l as int);
    assert(peak * s <= 100 * 100 && peak * s <= peak * 100) by (nonlinear_arith)
        requires
            0 <= peak <= 100,
            0 <= s <= 100,
    ;
    let c: u32 = peak * s;
    assert(0 <= c * k <= c * 60) by (nonlinear_arith)
        requires
            0 <= k <= 60,
            0 <= c,
    ;
    assert(2 * c * k == 2 * (c * k)) by (nonlinear_arith);
    let v: u32 = ((2 * (c * k) + 12_000 * l - 60 * c) * 255 + 600_000) / 1_200_000;
    v as u8
}

/// A hue (in degrees under 360), a saturation and a lightness (in percent) as an
/// opaque color.
pub fn hsl_to_rgb(hue: u32, s: u32, l: u32) -> (c: Color)
    requires
        hue < 360,
        s <= 100,
        l <= 100,
    ensures
        c == tint(hue as int, s as int, l as int),
{
    let t: u32 = hue % 120;
    let k: u32 = if t <= 60 {
        t
    } else {
        120 - t
    };
    let top: u8 = level_of(s, l, 60);
    let mid: u8 = level_of(s, l, k);
    let low: u8 = level_of(s, l, 0);
    let sector: u32 = hue / 60;
    if sector == 0 {
        Color::rgb(top, mid, low)
    } else if sector == 1 {
        Color::rgb(mid, top, low)
    } else if sector == 2 {
        Color::rgb(low, top, mid)
    } else if sector == 3 {
        Color::rgb(low, mid, top)
    } else if sector == 4 {
        Color::rgb(mid, low, top)
    } else {
        Color::rgb(top, low, mid)
    }
}

/// The tint behind a label's initial: its name hashed to a hue on a muted wheel.
pub open spec fn tile_color(label: Seq<char>) -> Color {
    tint(hashed(encode_utf8(label)) as int % 360, 42, 46)
}

/// A stable background tint for a label: the same name always maps to the same
/// color, so an app's fallback icon does not flicker between frames or launches.
pub fn fallback_color(label: &str) -> (c: Color)
    ensures
        c == tile_color(label@),
{
    hsl_to_rgb(hash_of(label.as_bytes()) % 360, 42, 46)
}

/// What `char::to_uppercase` yields for a character.
pub uninterp spec fn upper(c: char) -> Seq<char>;

/// Calls `char::to_uppercase` and collects what it yields: one or more
/// characters, which depend on the character alone. Which ones they are is left
/// to the Unicode tables behind it.
#[verifier::external_body]
fn uppercase(c: char) -> (v: Vec<char>)
    ensures
        v@ == upper(c),
        v@.len() >= 1,
{
    c.to_uppercase().collect()
}

/// Where the first letter or number of a text is, at or after `from`.
pub open spec fn first_alnum(s: Seq<char>, from: int) -> Option<int>
    decreases s.len() - from,
{
    if from >= s.len() {
        None
    } else if text::is_alnum(s[from]) {
        Some(from)
    } else {
        first_alnum(s, from + 1)
    }
}

/// A name's initial: its first letter or number, in upper case.
pub open spec fn initial_of(label: Seq<char>) -> char {
    match first_alnum(label, 0) {
        Some(i) => upper(label[i])[0],
        None => '?',
    }
}

/// The initial to show on a fallback icon: the first alphanumeric char,
/// uppercased, or a placeholder when the name has none.
pub fn icon_initial(label: &str) -> (c: char)
    ensures
        c == initial_of(label@),
{
    let chars = chars_of(label);
    let mut i: usize = 0;
    while i < chars.len()
        invariant
            i <= chars@.len(),
            chars@ == label@,
            first_alnum(label@, 0) == first_alnum(label@, i as int),
        decreases chars@.len() - i,
    {
        if chars[i].is_alphanumeric() {
            return first_upper(chars[i]);
        }
        i = i + 1;
    }
    '?'
}

/// The first character of a character's upper case.
pub fn first_upper(c: char) -> (u: char)
    ensures
        u == upper(c)[0],
{
    let all = uppercase(c);
    all[0]
}

} // verus!
