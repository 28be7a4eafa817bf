//! Clipped drawing primitives over a borrowed pixel slice.
//!
//! A Painter carries a clip rectangle and composites into a plain &mut [u32],
//! so the same code draws the owned headless buffer and wl_shm memory. Every
//! primitive intersects the clip, so drawing out of bounds is a no-op rather
//! than a panic.
//!
//! Callers work in logical pixels; the painter holds the output scale and is the
//! single place logical turns into device. Layout, hit testing, and input all
//! stay at scale 1, and a HiDPI window differs only in how big the buffer is.

use crate::number;
use crate::number::{Number, ONE, TWO};
use crate::render::buffer;
use crate::render::buffer::{over, Color};
use crate::render::shapes;
use crate::render::shapes::{half_of, is_to_zero, Point, Shape};
use crate::single;
use crate::single::{to_device, to_logical, Scale};
use vstd::arithmetic::div_mod::*;
use vstd::prelude::*;

verus! {

/// An integer rectangle in device pixels. A non-positive width or height is
/// treated as empty.
#[derive(Clone, Copy, PartialEq, Eq, Debug, Structural)]
pub struct Rect {
    pub x: i32,
    pub y: i32,
    pub w: i32,
    pub h: i32,
}

/// The smaller of two numbers.
pub open spec fn least(a: int, b: int) -> int {
    if a < b {
        a
    } else {
        b
    }
}

/// The larger of two numbers.
pub open spec fn most(a: int, b: int) -> int {
    if a > b {
        a
    } else {
        b
    }
}

/// The rectangle with the given corner and size.
pub open spec fn rect(x: int, y: int, w: int, h: int) -> Rect {
    Rect { x: x as i32, y: y as i32, w: w as i32, h: h as i32 }
}

impl Rect {
    /// Where it ends on the right.
    pub open spec fn right_edge(self) -> int {
        self.x + self.w
    }

    /// Where it ends at the bottom.
    pub open spec fn bottom_edge(self) -> int {
        self.y + self.h
    }

    /// Its far edges are coordinates too.
    pub open spec fn fits(self) -> bool {
        &&& i32::MIN <= self.right_edge() <= i32::MAX
        &&& i32::MIN <= self.bottom_edge() <= i32::MAX
    }

    /// All its edges are near enough to the origin for their distances to be
    /// coordinates.
    pub open spec fn near(self) -> bool {
        &&& -0x4000_0000 <= self.x <= 0x3fff_ffff
        &&& -0x4000_0000 <= self.y <= 0x3fff_ffff
        &&& -0x4000_0000 <= self.right_edge() <= 0x3fff_ffff
        &&& -0x4000_0000 <= self.bottom_edge() <= 0x3fff_ffff
    }

    pub open spec fn empty(self) -> bool {
        self.w <= 0 || self.h <= 0
    }

    /// A point is inside.
    pub open spec fn covers(self, px: int, py: int) -> bool {
        self.x <= px < self.right_edge() && self.y <= py < self.bottom_edge()
    }

    /// Where two rectangles overlap.
    pub open spec fn overlap(self, other: Rect) -> Rect {
        let x = most(self.x as int, other.x as int);
        let y = most(self.y as int, other.y as int);
        rect(
            x,
            y,
            least(self.right_edge(), other.right_edge()) - x,
            least(self.bottom_edge(), other.bottom_edge()) - y,
        )
    }

    /// The overlap's size is one a rectangle can have.
    pub open spec fn overlap_fits(self, other: Rect) -> bool {
        &&& i32::MIN <= least(self.right_edge(), other.right_edge()) - most(
            self.x as int,
            other.x as int,
        ) <= i32::MAX
        &&& i32::MIN <= least(self.bottom_edge(), other.bottom_edge()) - most(
            self.y as int,
            other.y as int,
        ) <= i32::MAX
    }

    /// What is left when shrunk by `d` on every side can be counted.
    pub open spec fn inset_fits(self, d: int) -> bool {
        &&& i32::MIN <= self.x + d <= i32::MAX
        &&& i32::MIN <= self.y + d <= i32::MAX
        &&& i32::MIN <= 2 * d <= i32::MAX
        &&& i32::MIN <= self.w - 2 * d <= i32::MAX
        &&& i32::MIN <= self.h - 2 * d <= i32::MAX
    }

    /// Shrunk by `d` on every side.
    pub open spec fn shrunk(self, d: int) -> Rect {
        rect(self.x + d, self.y + d, self.w - 2 * d, self.h - 2 * d)
    }

    pub fn new(x: i32, y: i32, w: i32, h: i32) -> (r: Self)
        ensures
            r == (Rect { x, y, w, h }),
            r == rect(x as int, y as int, w as int, h as int),
    {
        Rect { x, y, w, h }
    }

    pub fn right(&self) -> (v: i32)
        requires
            i32::MIN <= self.right_edge() <= i32::MAX,
        ensures
            v == self.right_edge(),
    {
        self.x + self.w
    }

    pub fn bottom(&self) -> (v: i32)
        requires
            i32::MIN <= self.bottom_edge() <= i32::MAX,
        ensures
            v == self.bottom_edge(),
    {
        self.y + self.h
    }

    pub fn is_empty(&self) -> (e: bool)
        ensures
            e == self.empty(),
    {
        self.w <= 0 || self.h <= 0
    }

    /// Whether device point (px, py) falls inside the rectangle.
    pub fn contains(&self, px: i32, py: i32) -> (inside: bool)
        ensures
            inside == self.covers(px as int, py as int),
    {
        let (px, py): (i64, i64) = (px as i64, py as i64);
        let (x, y): (i64, i64) = (self.x as i64, self.y as i64);
        px >= x && py >= y && px < x + self.w as i64 && py < y + self.h as i64
    }

    /// The overlap of two rectangles, possibly empty.
    pub fn intersect(&self, other: Rect) -> (r: Rect)
        requires
            self.fits(),
            other.fits(),
            self.overlap_fits(other),
        ensures
            r == self.overlap(other),
    {
        let x: i32 = if self.x > other.x {
            self.x
        } else {
            other.x
        };
        let y: i32 = if self.y > other.y {
            self.y
        } else {
            other.y
        };
        let right: i32 = if self.right() < other.right() {
            self.right()
        } else {
            other.right()
        };
        let bottom: i32 = if self.bottom() < other.bottom() {
            self.bottom()
        } else {
            other.bottom()
        };
        Rect { x, y, w: right - x, h: bottom - y }
    }

    /// This rectangle shrunk by `d` on every side.
    pub fn inset(&self, d: i32) -> (r: Rect)
        requires
            self.inset_fits(d as int),
        ensures
            r == self.shrunk(d as int),
    {
        Rect { x: self.x + d, y: self.y + d, w: self.w - 2 * d, h: self.h - 2 * d }
    }
}

/// The overlap of two rectangles is the points inside both, whichever way round
/// they are taken, and a rectangle overlaps itself in itself.
pub proof fn overlap_is_the_points_in_both(a: Rect, b: Rect, px: int, py: int)
    requires
        a.fits(),
        b.fits(),
        a.overlap_fits(b),
    ensures
        a.overlap(b).covers(px, py) <==> a.covers(px, py) && b.covers(px, py),
        a.overlap(b) == b.overlap(a),
        a.overlap(a) == a,
        a.empty() ==> !a.covers(px, py),
{
}

/// Shrinking by `d` on every side moves every edge inwards by `d`, keeping the
/// points at least `d` away from all of them; a negative `d` grows outwards. What
/// shrinks can grow back, and growing back undoes it.
pub proof fn inset_undoes_itself(a: Rect, d: int, px: int, py: int)
    requires
        a.inset_fits(d),
    ensures
        a.shrunk(d).covers(px, py) <==> {
            &&& a.x + d <= px < a.right_edge() - d
            &&& a.y + d <= py < a.bottom_edge() - d
        },
        d >= 0 ==> (a.shrunk(d).covers(px, py) <==> a.covers(px - d, py - d) && a.covers(
            px + d,
            py + d,
        )),
        i32::MIN <= -2 * d <= i32::MAX ==> a.shrunk(d).inset_fits(-d) && a.shrunk(d).shrunk(-d)
            == a,
{
}

/// A clipped compositing surface over a borrowed pixel slice.
///
/// Public geometry is logical; `clip`, `width`, and `height` are device pixels,
/// and [`Painter::device`] is the one crossing between them.
pub struct Painter<'a> {
    pub pixels: &'a mut [u32],
    pub width: i32,
    pub height: i32,
    pub clip: Rect,
    pub scale: Scale,
}

/// A frame with the pixels inside `area` shaded over.
pub open spec fn shaded(
    px: Seq<u32>,
    stride: int,
    area: Rect,
    shade: spec_fn(int, int) -> Color,
) -> Seq<u32> {
    Seq::new(
        px.len(),
        |i: int|
            if area.covers(i % stride, i / stride) {
                buffer::composite(px[i], shade(i % stride, i / stride))
            } else {
                px[i]
            },
    )
}

/// A frame with the pixels inside `area` shaded over, row by row, up to (x, y).
spec fn shaded_to(
    px: Seq<u32>,
    stride: int,
    area: Rect,
    shade: spec_fn(int, int) -> Color,
    x: int,
    y: int,
) -> Seq<u32> {
    Seq::new(
        px.len(),
        |i: int|
            if area.covers(i % stride, i / stride) && (i / stride < y || (i / stride == y && i
                % stride < x)) {
                buffer::composite(px[i], shade(i % stride, i / stride))
            } else {
                px[i]
            },
    )
}

/// Shading the next pixel.
proof fn shade_step(
    px: Seq<u32>,
    stride: int,
    area: Rect,
    shade: spec_fn(int, int) -> Color,
    x: int,
    y: int,
)
    requires
        area.covers(x, y),
        0 <= x < stride,
        0 <= y,
        y * stride + x < px.len(),
    ensures
        0 <= y * stride + x,
        shaded_to(px, stride, area, shade, x, y)[y * stride + x] == px[y * stride + x],
        shaded_to(px, stride, area, shade, x + 1, y) == shaded_to(
            px,
            stride,
            area,
            shade,
            x,
            y,
        ).update(y * stride + x, buffer::composite(px[y * stride + x], shade(x, y))),
{
    let idx = y * stride + x;
    assert(0 <= y * stride) by (nonlinear_arith)
        requires
            0 <= y,
            0 <= stride,
    ;
    lemma_fundamental_div_mod_converse(idx, stride, y, x);
    let before = shaded_to(px, stride, area, shade, x, y);
    let after = shaded_to(px, stride, area, shade, x + 1, y);
    assert forall|i: int| 0 <= i < px.len() implies after[i] == before.update(
        idx,
        buffer::composite(px[idx], shade(x, y)),
    )[i] by {
        if i != idx {
            lemma_fundamental_div_mod(i, stride);
            if i / stride == y && i % stride == x {
                assert(stride * (i / stride) == y * stride) by (nonlinear_arith)
                    requires
                        i / stride == y,
                ;
            }
        }
    }
    assert(after =~= before.update(idx, buffer::composite(px[idx], shade(x, y))));
}

/// Scanning a rectangle around `area` row by row, nothing is shaded before the
/// first row, a row's end is the next one's start, and past the last row
/// everything is.
proof fn shade_rows(
    px: Seq<u32>,
    stride: int,
    area: Rect,
    shade: spec_fn(int, int) -> Color,
    scan: Rect,
    y: int,
)
    requires
        scan.x <= area.x,
        scan.y <= area.y,
        area.right_edge() <= scan.right_edge(),
        area.bottom_edge() <= scan.bottom_edge(),
    ensures
        shaded_to(px, stride, area, shade, scan.x as int, scan.y as int) == px,
        shaded_to(px, stride, area, shade, scan.right_edge(), y) == shaded_to(
            px,
            stride,
            area,
            shade,
            scan.x as int,
            y + 1,
        ),
        shaded_to(px, stride, area, shade, scan.x as int, scan.bottom_edge()) == shaded(
            px,
            stride,
            area,
            shade,
        ),
{
    assert(shaded_to(px, stride, area, shade, scan.x as int, scan.y as int) =~= px);
    assert(shaded_to(px, stride, area, shade, scan.right_edge(), y) =~= shaded_to(
        px,
        stride,
        area,
        shade,
        scan.x as int,
        y + 1,
    ));
    assert(shaded_to(px, stride, area, shade, scan.x as int, scan.bottom_edge()) =~= shaded(
        px,
        stride,
        area,
        shade,
    ));
}

/// Passing over a pixel outside the area.
proof fn shade_skip(
    px: Seq<u32>,
    stride: int,
    area: Rect,
    shade: spec_fn(int, int) -> Color,
    x: int,
    y: int,
)
    requires
        !area.covers(x, y),
    ensures
        shaded_to(px, stride, area, shade, x + 1, y) == shaded_to(px, stride, area, shade, x, y),
{
    assert(shaded_to(px, stride, area, shade, x + 1, y) =~= shaded_to(
        px,
        stride,
        area,
        shade,
        x,
        y,
    ));
}

/// Drawing nothing, or nowhere, changes nothing.
proof fn shade_nothing(px: Seq<u32>, stride: int, area: Rect, shade: spec_fn(int, int) -> Color)
    requires
        area.empty() || forall|x: int, y: int| area.covers(x, y) ==> (#[trigger] shade(x, y)).a == 0,
    ensures
        shaded(px, stride, area, shade) == px,
{
    assert(shaded(px, stride, area, shade) =~= px);
}

/// What one drawing call leaves alone, and the clip holds every pixel it draws:
/// outside the clip a frame stays as it was, inside it stays opaque where it was.
pub proof fn drawing_stays_in_the_clip(
    px: Seq<u32>,
    stride: int,
    clip: Rect,
    drawn: Rect,
    shade: spec_fn(int, int) -> Color,
    i: int,
)
    requires
        clip.near(),
        drawn.near(),
        0 <= i < px.len(),
    ensures
        shaded(px, stride, drawn.overlap(clip), shade).len() == px.len(),
        !clip.covers(i % stride, i / stride) ==> shaded(
            px,
            stride,
            drawn.overlap(clip),
            shade,
        )[i] == px[i],
        !drawn.covers(i % stride, i / stride) ==> shaded(
            px,
            stride,
            drawn.overlap(clip),
            shade,
        )[i] == px[i],
        buffer::alpha(px[i]) == 255 ==> buffer::alpha(
            shaded(px, stride, drawn.overlap(clip), shade)[i],
        ) == 255,
{
    overlap_is_the_points_in_both(drawn, clip, i % stride, i / stride);
    if buffer::alpha(px[i]) == 255 {
        buffer::compositing_stays_opaque(px[i], shade(i % stride, i / stride));
    }
}

/// One color everywhere.
pub open spec fn flat(color: Color) -> spec_fn(int, int) -> Color {
    |x: int, y: int| color
}

/// A color through a coverage mask `w` wide whose corner is at (x, y).
pub open spec fn through(color: Color, mask: Seq<u8>, x: int, y: int, w: int) -> spec_fn(
    int,
    int,
) -> Color {
    |px: int, py: int| color.covering(mask[(py - y) * w + (px - x)])
}

/// The straight-alpha color of an ARGB word.
pub open spec fn argb(word: u32) -> Color {
    Color {
        r: buffer::red(word) as u8,
        g: buffer::green(word) as u8,
        b: buffer::blue(word) as u8,
        a: buffer::alpha(word) as u8,
    }
}

/// An opaque pixel drawn over anything is that pixel, and a clear one leaves what is
/// there.
pub proof fn opaque_pixels_are_copied(dst: u32, word: u32)
    ensures
        buffer::alpha(word) == 255 ==> buffer::composite(dst, argb(word)) == word,
        buffer::alpha(word) == 0 ==> buffer::composite(dst, argb(word)) == dst,
{
}

/// The pixels of an image `w` wide whose corner is at (x, y).
pub open spec fn pixels_of(src: Seq<u32>, x: int, y: int, w: int) -> spec_fn(int, int) -> Color {
    |px: int, py: int| argb(src[(py - y) * w + (px - x)])
}

/// Edges of a logical rectangle in device pixels.
pub open spec fn placed(r: Rect, scale: Scale) -> Rect {
    if scale.bits == 0x3f80_0000 {
        r
    } else {
        let x = single::device_px(r.x as int, scale);
        let y = single::device_px(r.y as int, scale);
        rect(
            x,
            y,
            single::device_px(r.right_edge(), scale) - x,
            single::device_px(r.bottom_edge(), scale) - y,
        )
    }
}

/// The edges of a rectangle are near, before scaling and after.
pub open spec fn reachable(r: Rect, scale: Scale) -> bool {
    &&& r.near()
    &&& scale.bits != 0x3f80_0000 ==> {
        &&& -0x4000_0000 <= single::device_px(r.x as int, scale) <= 0x3fff_ffff
        &&& -0x4000_0000 <= single::device_px(r.y as int, scale) <= 0x3fff_ffff
        &&& -0x4000_0000 <= single::device_px(r.right_edge(), scale) <= 0x3fff_ffff
        &&& -0x4000_0000 <= single::device_px(r.bottom_edge(), scale) <= 0x3fff_ffff
    }
}

/// Rectangles that share an edge still share it once scaled, so no seam opens
/// between them.
pub proof fn abutting_rects_leave_no_seam(a: Rect, b: Rect, scale: Scale)
    requires
        reachable(a, scale),
        reachable(b, scale),
    ensures
        a.right_edge() == b.x ==> placed(a, scale).right_edge() == placed(b, scale).x,
        a.bottom_edge() == b.y ==> placed(a, scale).bottom_edge() == placed(b, scale).y,
{
}

impl<'a> Painter<'a> {
    /// Pixels for every row, and a clip inside the bounds.
    pub open spec fn wf(&self) -> bool {
        &&& 0 <= self.width <= 0x3fff_ffff
        &&& 0 <= self.height <= 0x3fff_ffff
        &&& self.pixels@.len() >= self.width * self.height
        &&& self.clip.near()
        &&& 0 <= self.clip.x
        &&& 0 <= self.clip.y
        &&& self.clip.right_edge() <= self.width
        &&& self.clip.bottom_edge() <= self.height
        &&& self.scale.wf()
    }

    /// Where a logical rectangle lands, in device pixels.
    pub open spec fn place(&self, r: Rect) -> Rect {
        placed(r, self.scale)
    }

    /// A logical rectangle can be placed: its edges and those it lands on are
    /// near.
    pub open spec fn reaches(&self, r: Rect) -> bool {
        reachable(r, self.scale)
    }

    /// A painter over `pixels` (width*height words) at scale 1, clip set to the
    /// bounds. The slice length must be at least width*height.
    pub fn new(pixels: &'a mut [u32], width: u32, height: u32) -> (p: Self)
        requires
            width <= 0x3fff_ffff,
            height <= 0x3fff_ffff,
            old(pixels)@.len() >= width * height,
        ensures
            p.wf(),
            p.pixels@ == old(pixels)@,
            p.width == width,
            p.height == height,
            p.clip == (Rect { x: 0, y: 0, w: p.width, h: p.height }),
            p.scale == (Scale { bits: 0x3f80_0000 }),
            final(pixels)@ == final(p.pixels)@,
    {
        Self::scaled(pixels, width, height, Scale { bits: 0x3f80_0000 })
    }

    /// A painter whose buffer holds `width` by `height` device pixels for a
    /// logical size `scale` times smaller. A scale that is not positive counts
    /// as 1.
    pub fn scaled(pixels: &'a mut [u32], width: u32, height: u32, scale: Scale) -> (p: Self)
        requires
            width <= 0x3fff_ffff,
            height <= 0x3fff_ffff,
            old(pixels)@.len() >= width * height,
            0 < scale.bits <= 0x7f80_0000 ==> scale.wf(),
        ensures
            p.wf(),
            p.pixels@ == old(pixels)@,
            p.width == width,
            p.height == height,
            p.clip == (Rect { x: 0, y: 0, w: p.width, h: p.height }),
            p.scale == if 0 < scale.bits <= 0x7f80_0000 {
                scale
            } else {
                Scale { bits: 0x3f80_0000 }
            },
            final(pixels)@ == final(p.pixels)@,
    {
        let (w, h): (i32, i32) = (width as i32, height as i32);
        let positive = 0 < scale.bits && scale.bits <= 0x7f80_0000;
        Painter {
            pixels,
            width: w,
            height: h,
            clip: Rect { x: 0, y: 0, w, h },
            scale: if positive {
                scale
            } else {
                Scale { bits: 0x3f80_0000 }
            },
        }
    }

    /// The output scale: device pixels per logical pixel.
    pub fn scale(&self) -> (s: Scale)
        ensures
            s == self.scale,
    {
        self.scale
    }

    /// A logical rectangle in device pixels. Edges round to nearest so adjacent
    /// rectangles keep sharing an edge and no seam opens between them.
    pub fn device(&self, r: Rect) -> (d: Rect)
        requires
            self.wf(),
            self.reaches(r),
        ensures
            d == self.place(r),
    {
        if self.scale.bits == 0x3f80_0000 {
            return r;
        }
        let x: i32 = to_device(r.x, self.scale);
        let y: i32 = to_device(r.y, self.scale);
        let right: i32 = to_device(r.right(), self.scale);
        let bottom: i32 = to_device(r.bottom(), self.scale);
        Rect { x, y, w: right - x, h: bottom - y }
    }

    /// The buffer bounds, in logical pixels.
    pub fn bounds(&self) -> (r: Rect)
        requires
            self.wf(),
        ensures
            r == rect(
                0,
                0,
                single::logical_px(self.width as nat, self.scale),
                single::logical_px(self.height as nat, self.scale),
            ),
    {
        Rect { x: 0, y: 0, w: to_logical(self.width, self.scale), h: to_logical(self.height, self.scale) }
    }

    /// The active clip rectangle, in device pixels.
    pub fn clip(&self) -> (r: Rect)
        ensures
            r == self.clip,
    {
        self.clip
    }

    /// Whether a logical rectangle has any pixel inside the clip. Drawing it
    /// when this is false paints nothing, so a caller with work to do first can
    /// stop here instead.
    pub fn intersects(&self, r: Rect) -> (hit: bool)
        requires
            self.wf(),
            self.reaches(r),
        ensures
            hit == !self.place(r).overlap(self.clip).empty(),
    {
        !self.device(r).intersect(self.clip).is_empty()
    }

    /// A sub-painter over the same pixels, clipped to the overlap of the
    /// current clip and `rect`. Drawing through it never escapes either.
    pub fn clipped(&mut self, r: Rect) -> (p: Painter<'_>)
        requires
            old(self).wf(),
            old(self).reaches(r),
        ensures
            p.wf(),
            p.pixels@ == old(self).pixels@,
            p.width == old(self).width,
            p.height == old(self).height,
            p.clip == old(self).clip.overlap(old(self).place(r)),
            p.scale == old(self).scale,
            final(self).pixels@ == final(p.pixels)@,
            final(final(self).pixels)@ == final(old(self).pixels)@,
            final(self).width == old(self).width,
            final(self).height == old(self).height,
            final(self).clip == old(self).clip,
            final(self).scale == old(self).scale,
    {
        let clip: Rect = self.clip.intersect(self.device(r));
        Painter {
            pixels: &mut *self.pixels,
            width: self.width,
            height: self.height,
            clip,
            scale: self.scale,
        }
    }

    /// Composite `color` onto one device pixel, honoring the clip. Glyph blits
    /// come through here already scaled.
    pub fn blend_pixel(&mut self, x: i32, y: i32, color: Color)
        requires
            old(self).wf(),
        ensures
            final(self).wf(),
            final(self).width == old(self).width,
            final(self).height == old(self).height,
            final(self).clip == old(self).clip,
            final(self).scale == old(self).scale,
            final(final(self).pixels)@ == final(old(self).pixels)@,
            final(self).pixels@ == if old(self).clip.covers(x as int, y as int) {
                let i = y * old(self).width + x;
                old(self).pixels@.update(i, buffer::composite(old(self).pixels@[i], color))
            } else {
                old(self).pixels@
            },
    {
        if color.a == 0 || !self.clip.contains(x, y) {
            proof {
                if self.clip.covers(x as int, y as int) {
                    let i = y * self.width + x;
                    index_bounds(x as int, y as int, self.width as int, self.height as int);
                    assert(self.pixels@.update(i, self.pixels@[i]) =~= self.pixels@);
                }
            }
            return;
        }
        let idx: usize = stored_at(x, y, self.width, self.height, self.pixels.len());
        let word: u32 = over(self.pixels[idx], color);
        self.pixels[idx] = word;
    }

    /// Fill a logical rectangle, blending `color` (opaque colors overwrite).
    pub fn fill(&mut self, r: Rect, color: Color)
        requires
            old(self).wf(),
            old(self).reaches(r),
        ensures
            final(self).wf(),
            final(self).width == old(self).width,
            final(self).height == old(self).height,
            final(self).clip == old(self).clip,
            final(self).scale == old(self).scale,
            final(final(self).pixels)@ == final(old(self).pixels)@,
            final(self).pixels@ == old(self).filled(r, color),
    {
        let area: Rect = self.device(r).intersect(self.clip);
        self.fill_device(area, color);
    }

    /// The pixels once a logical rectangle has been filled.
    pub open spec fn filled(&self, r: Rect, color: Color) -> Seq<u32> {
        shaded(
            self.pixels@,
            self.width as int,
            self.place(r).overlap(self.clip),
            flat(color),
        )
    }

    /// Fill an already-scaled, already-clipped rectangle.
    fn fill_device(&mut self, r: Rect, color: Color)
        requires
            old(self).wf(),
            r.near(),
            0 <= r.x,
            0 <= r.y,
            r.right_edge() <= old(self).width,
            r.bottom_edge() <= old(self).height,
        ensures
            final(self).wf(),
            final(self).width == old(self).width,
            final(self).height == old(self).height,
            final(self).clip == old(self).clip,
            final(self).scale == old(self).scale,
            final(final(self).pixels)@ == final(old(self).pixels)@,
            final(self).pixels@ == shaded(
                old(self).pixels@,
                old(self).width as int,
                r,
                flat(color),
            ),
    {
        let ghost px = self.pixels@;
        let ghost stride = self.width as int;
        let ghost shade = flat(color);
        if r.is_empty() || color.a == 0 {
            proof {
                shade_nothing(px, stride, r, shade);
            }
            return;
        }
        let (right, bottom): (i32, i32) = (r.right(), r.bottom());
        let mut y: i32 = r.y;
        proof {
            shade_rows(px, stride, r, shade, r, 0);
        }
        while y < bottom
            invariant
                self.wf(),
                self.width == old(self).width,
                self.height == old(self).height,
                self.clip == old(self).clip,
                self.scale == old(self).scale,
                final(self.pixels)@ == final(old(self).pixels)@,
                px == old(self).pixels@,
                self.pixels@.len() == px.len(),
                stride == self.width,
                shade == flat(color),
                r.near(),
                0 <= r.x,
                0 <= r.y,
                right == r.right_edge() <= stride,
                bottom == r.bottom_edge() <= self.height,
                r.y <= y <= bottom,
                r.x < right,
                self.pixels@ == shaded_to(px, stride, r, shade, r.x as int, y as int),
            decreases bottom - y,
        {
            let mut x: i32 = r.x;
            while x < right
                invariant
                    self.wf(),
                    self.width == old(self).width,
                    self.height == old(self).height,
                    self.clip == old(self).clip,
                    self.scale == old(self).scale,
                    final(self.pixels)@ == final(old(self).pixels)@,
                    px == old(self).pixels@,
                    self.pixels@.len() == px.len(),
                    stride == self.width,
                    shade == flat(color),
                    0 <= r.x,
                    0 <= r.y,
                    right == r.right_edge() <= stride,
                    bottom == r.bottom_edge() <= self.height,
                    r.y <= y < bottom,
                    r.x <= x <= right,
                    self.pixels@ == shaded_to(px, stride, r, shade, x as int, y as int),
                decreases right - x,
            {
                let idx: usize = stored_at(x, y, self.width, self.height, self.pixels.len());
                proof {
                    shade_step(px, stride, r, shade, x as int, y as int);
                }
                let word: u32 = over(self.pixels[idx], color);
                self.pixels[idx] = word;
                x = x + 1;
            }
            proof {
                shade_rows(px, stride, r, shade, r, y as int);
            }
            y = y + 1;
        }
    }
}

/// The four sides of a border `t` thick inside the edges of a rectangle: top,
/// bottom, left, right.
pub open spec fn border(r: Rect, t: int) -> (Rect, Rect, Rect, Rect) {
    (
        rect(r.x as int, r.y as int, r.w as int, t),
        rect(r.x as int, r.bottom_edge() - t, r.w as int, t),
        rect(r.x as int, r.y as int, t, r.h as int),
        rect(r.right_edge() - t, r.y as int, t, r.h as int),
    )
}

/// Pixels once a logical rectangle has been filled through a clip.
pub open spec fn filled_over(
    px: Seq<u32>,
    stride: int,
    clip: Rect,
    scale: Scale,
    r: Rect,
    color: Color,
) -> Seq<u32> {
    shaded(px, stride, placed(r, scale).overlap(clip), flat(color))
}

impl<'a> Painter<'a> {
    /// The pixels once a border has been drawn.
    pub open spec fn stroked(&self, r: Rect, thickness: int, color: Color) -> Seq<u32> {
        if r.empty() || thickness <= 0 {
            self.pixels@
        } else {
            let (top, bottom, left, right) = border(
                r,
                least(thickness, least(r.w as int, r.h as int)),
            );
            let (stride, clip, scale) = (self.width as int, self.clip, self.scale);
            let a = filled_over(self.pixels@, stride, clip, scale, top, color);
            let b = filled_over(a, stride, clip, scale, bottom, color);
            let c = filled_over(b, stride, clip, scale, left, color);
            filled_over(c, stride, clip, scale, right, color)
        }
    }

    /// A horizontal line `len` pixels wide, one pixel tall.
    pub fn hline(&mut self, x: i32, y: i32, len: i32, color: Color)
        requires
            old(self).wf(),
            old(self).reaches(rect(x as int, y as int, len as int, 1)),
        ensures
            final(self).wf(),
            final(self).width == old(self).width,
            final(self).height == old(self).height,
            final(self).clip == old(self).clip,
            final(self).scale == old(self).scale,
            final(final(self).pixels)@ == final(old(self).pixels)@,
            final(self).pixels@ == old(self).filled(
                rect(x as int, y as int, len as int, 1),
                color,
            ),
    {
        self.fill(Rect::new(x, y, len, 1), color);
    }

    /// A vertical line `len` pixels tall, one pixel wide.
    pub fn vline(&mut self, x: i32, y: i32, len: i32, color: Color)
        requires
            old(self).wf(),
            old(self).reaches(rect(x as int, y as int, 1, len as int)),
        ensures
            final(self).wf(),
            final(self).width == old(self).width,
            final(self).height == old(self).height,
            final(self).clip == old(self).clip,
            final(self).scale == old(self).scale,
            final(final(self).pixels)@ == final(old(self).pixels)@,
            final(self).pixels@ == old(self).filled(
                rect(x as int, y as int, 1, len as int),
                color,
            ),
    {
        self.fill(Rect::new(x, y, 1, len), color);
    }

    /// A `thickness`-pixel border inside the edges of `rect`.
    pub fn stroke_rect(&mut self, r: Rect, thickness: i32, color: Color)
        requires
            old(self).wf(),
            r.near(),
            !r.empty() && thickness > 0 ==> {
                let sides = border(r, least(thickness as int, least(r.w as int, r.h as int)));
                &&& old(self).reaches(sides.0)
                &&& old(self).reaches(sides.1)
                &&& old(self).reaches(sides.2)
                &&& old(self).reaches(sides.3)
            },
        ensures
            final(self).wf(),
            final(self).width == old(self).width,
            final(self).height == old(self).height,
            final(self).clip == old(self).clip,
            final(self).scale == old(self).scale,
            final(final(self).pixels)@ == final(old(self).pixels)@,
            final(self).pixels@ == old(self).stroked(r, thickness as int, color),
    {
        if r.is_empty() || thickness <= 0 {
            return;
        }
        let shorter: i32 = if r.w < r.h {
            r.w
        } else {
            r.h
        };
        let t: i32 = if thickness < shorter {
            thickness
        } else {
            shorter
        };
        self.fill(Rect::new(r.x, r.y, r.w, t), color);
        self.fill(Rect::new(r.x, r.bottom() - t, r.w, t), color);
        self.fill(Rect::new(r.x, r.y, t, r.h), color);
        self.fill(Rect::new(r.right() - t, r.y, t, r.h), color);
    }

    /// Composite `color` through an 8-bit coverage mask (`w` by `h`, row-major)
    /// placed at device (x, y). Glyphs rasterize at the output scale, so this
    /// takes device coordinates rather than logical ones.
    pub fn blit_coverage(&mut self, x: i32, y: i32, w: i32, h: i32, mask: &[u8], color: Color)
        requires
            old(self).wf(),
            w > 0 && h > 0 ==> {
                &&& rect(x as int, y as int, w as int, h as int).near()
                &&& w * h <= i32::MAX
                &&& w * h <= mask@.len()
            },
        ensures
            final(self).wf(),
            final(self).width == old(self).width,
            final(self).height == old(self).height,
            final(self).clip == old(self).clip,
            final(self).scale == old(self).scale,
            final(final(self).pixels)@ == final(old(self).pixels)@,
            final(self).pixels@ == if w <= 0 || h <= 0 {
                old(self).pixels@
            } else {
                shaded(
                    old(self).pixels@,
                    old(self).width as int,
                    rect(x as int, y as int, w as int, h as int).overlap(old(self).clip),
                    through(color, mask@, x as int, y as int, w as int),
                )
            },
    {
        if w <= 0 || h <= 0 {
            return;
        }
        let ghost px = self.pixels@;
        let ghost stride = self.width as int;
        let ghost scan = rect(x as int, y as int, w as int, h as int);
        let ghost area = scan.overlap(self.clip);
        let ghost shade = through(color, mask@, x as int, y as int, w as int);
        if color.a == 0 {
            proof {
                assert forall|px: int, py: int| area.covers(px, py) implies (#[trigger] shade(
                    px,
                    py,
                )).a == 0 by {}
                shade_nothing(px, stride, area, shade);
            }
            return;
        }
        proof {
            shade_rows(px, stride, area, shade, scan, 0);
        }
        let mut row: i32 = 0;
        while row < h
            invariant
                self.wf(),
                self.width == old(self).width,
                self.height == old(self).height,
                self.clip == old(self).clip,
                self.scale == old(self).scale,
                final(self.pixels)@ == final(old(self).pixels)@,
                px == old(self).pixels@,
                self.pixels@.len() == px.len(),
                stride == self.width,
                scan == rect(x as int, y as int, w as int, h as int),
                scan.near(),
                area == scan.overlap(self.clip),
                shade == through(color, mask@, x as int, y as int, w as int),
                0 <= row <= h,
                0 < w,
                w * h <= i32::MAX,
                w * h <= mask@.len(),
                self.pixels@ == shaded_to(px, stride, area, shade, x as int, y + row),
            decreases h - row,
        {
            proof {
                row_bounds(row as int, w as int, h as int);
            }
            let mrow: usize = (row * w) as usize;
            let mut col: i32 = 0;
            while col < w
                invariant
                    self.wf(),
                    self.width == old(self).width,
                    self.height == old(self).height,
                    self.clip == old(self).clip,
                    self.scale == old(self).scale,
                    final(self.pixels)@ == final(old(self).pixels)@,
                    px == old(self).pixels@,
                    self.pixels@.len() == px.len(),
                    stride == self.width,
                    scan == rect(x as int, y as int, w as int, h as int),
                    scan.near(),
                    area == scan.overlap(self.clip),
                    shade == through(color, mask@, x as int, y as int, w as int),
                    0 <= row < h,
                    0 <= col <= w,
                    mrow == row * w,
                    mrow + w <= w * h,
                    w * h <= mask@.len(),
                    self.pixels@ == shaded_to(px, stride, area, shade, x + col, y + row),
                decreases w - col,
            {
                assert(mask.len() == mask@.len());
                let cov: u8 = mask[mrow + col as usize];
                proof {
                    let (gx, gy) = (x + col, y + row);
                    assert((gy - y) * w + (gx - x) == row * w + col);
                    overlap_is_the_points_in_both(scan, self.clip, gx, gy);
                    if area.covers(gx, gy) {
                        index_bounds(gx, gy, stride, self.height as int);
                        shade_step(px, stride, area, shade, gx, gy);
                    } else {
                        shade_skip(px, stride, area, shade, gx, gy);
                    }
                }
                self.blend_pixel(x + col, y + row, color.scale_alpha(cov));
                col = col + 1;
            }
            proof {
                shade_rows(px, stride, area, shade, scan, y + row);
            }
            row = row + 1;
        }
    }

    /// Composite a straight-alpha ARGB image (`w` by `h`, row-major) placed at
    /// device (x, y). Icons decode and resample at the output scale, so like
    /// glyphs they arrive in device coordinates.
    pub fn blit_argb(&mut self, x: i32, y: i32, w: i32, h: i32, src: &[u32])
        requires
            old(self).wf(),
            w > 0 && h > 0 ==> {
                &&& rect(x as int, y as int, w as int, h as int).near()
                &&& w * h <= i32::MAX
                &&& w * h <= src@.len()
            },
        ensures
            final(self).wf(),
            final(self).width == old(self).width,
            final(self).height == old(self).height,
            final(self).clip == old(self).clip,
            final(self).scale == old(self).scale,
            final(final(self).pixels)@ == final(old(self).pixels)@,
            final(self).pixels@ == if w <= 0 || h <= 0 {
                old(self).pixels@
            } else {
                shaded(
                    old(self).pixels@,
                    old(self).width as int,
                    rect(x as int, y as int, w as int, h as int).overlap(old(self).clip),
                    pixels_of(src@, x as int, y as int, w as int),
                )
            },
    {
        if w <= 0 || h <= 0 {
            return;
        }
        let ghost px = self.pixels@;
        let ghost stride = self.width as int;
        let ghost scan = rect(x as int, y as int, w as int, h as int);
        let ghost area = scan.overlap(self.clip);
        let ghost shade = pixels_of(src@, x as int, y as int, w as int);
        proof {
            shade_rows(px, stride, area, shade, scan, 0);
        }
        let mut row: i32 = 0;
        while row < h
            invariant
                self.wf(),
                self.width == old(self).width,
                self.height == old(self).height,
                self.clip == old(self).clip,
                self.scale == old(self).scale,
                final(self.pixels)@ == final(old(self).pixels)@,
                px == old(self).pixels@,
                self.pixels@.len() == px.len(),
                stride == self.width,
                scan == rect(x as int, y as int, w as int, h as int),
                scan.near(),
                area == scan.overlap(self.clip),
                shade == pixels_of(src@, x as int, y as int, w as int),
                0 <= row <= h,
                0 < w,
                w * h <= i32::MAX,
                w * h <= src@.len(),
                self.pixels@ == shaded_to(px, stride, area, shade, x as int, y + row),
            decreases h - row,
        {
            proof {
                row_bounds(row as int, w as int, h as int);
            }
            let srow: usize = (row * w) as usize;
            let mut col: i32 = 0;
            while col < w
                invariant
                    self.wf(),
                    self.width == old(self).width,
                    self.height == old(self).height,
                    self.clip == old(self).clip,
                    self.scale == old(self).scale,
                    final(self.pixels)@ == final(old(self).pixels)@,
                    px == old(self).pixels@,
                    self.pixels@.len() == px.len(),
                    stride == self.width,
                    scan == rect(x as int, y as int, w as int, h as int),
                    scan.near(),
                    area == scan.overlap(self.clip),
                    shade == pixels_of(src@, x as int, y as int, w as int),
                    0 <= row < h,
                    0 <= col <= w,
                    srow == row * w,
                    srow + w <= w * h,
                    w * h <= src@.len(),
                    self.pixels@ == shaded_to(px, stride, area, shade, x + col, y + row),
                decreases w - col,
            {
                assert(src.len() == src@.len());
                let word: u32 = src[srow + col as usize];
                let color = Color {
                    r: (word / 0x1_0000 % 0x100) as u8,
                    g: (word / 0x100 % 0x100) as u8,
                    b: (word % 0x100) as u8,
                    a: (word / 0x100_0000) as u8,
                };
                proof {
                    let (gx, gy) = (x + col, y + row);
                    assert((gy - y) * w + (gx - x) == row * w + col);
                    overlap_is_the_points_in_both(scan, self.clip, gx, gy);
                    if area.covers(gx, gy) {
                        index_bounds(gx, gy, stride, self.height as int);
                        shade_step(px, stride, area, shade, gx, gy);
                    } else {
                        shade_skip(px, stride, area, shade, gx, gy);
                    }
                }
                self.blend_pixel(x + col, y + row, color);
                col = col + 1;
            }
            proof {
                shade_rows(px, stride, area, shade, scan, y + row);
            }
            row = row + 1;
        }
    }
}

proof fn row_bounds(row: int, w: int, h: int)
    requires
        0 <= row < h,
        0 < w,
    ensures
        0 <= row * w,
        row * w + w <= w * h,
{
    assert(0 <= row * w && row * w + w <= w * h) by (nonlinear_arith)
        requires
            0 <= row < h,
            0 < w,
    ;
}

proof fn index_bounds(x: int, y: int, width: int, height: int)
    requires
        0 <= x < width,
        0 <= y < height,
    ensures
        0 <= y * width,
        y * width + x < width * height,
{
    assert(y * width + x < width * height) by (nonlinear_arith)
        requires
            0 <= x < width,
            0 <= y < height,
    ;
    assert(0 <= y * width) by (nonlinear_arith)
        requires
            0 <= y,
            0 <= width,
    ;
}

/// Where a device pixel inside the bounds of a buffer is stored.
fn stored_at(x: i32, y: i32, width: i32, height: i32, len: usize) -> (i: usize)
    requires
        0 <= x < width,
        0 <= y < height,
        width * height <= len,
    ensures
        i == y * width + x,
        i < len,
{
    proof {
        index_bounds(x as int, y as int, width as int, height as int);
    }
    (y as usize) * (width as usize) + (x as usize)
}

// --- Anti-aliased shapes -----------------------------------------------------------------

/// A color through a shape.
pub open spec fn tinted(color: Color, shape: Shape) -> spec_fn(int, int) -> Color {
    |x: int, y: int| color.covering(shapes::covered(shape, x, y))
}

/// A scale, as a number.
pub open spec fn factor(scale: Scale) -> Number {
    Number { bits: scale.bits }
}

/// A rectangle with round corners as it lands on the pixels.
pub open spec fn rounded_shape(r: Rect, radius: i32, scale: Scale) -> Shape {
    let d = placed(r, scale);
    Shape::Rounded {
        rect: d,
        radius: least(
            most(single::device_px(radius as int, scale), 0),
            least(d.w as int, d.h as int) / 2,
        ) as i32,
    }
}

/// A line along the edge of such a rectangle, `thickness` logical pixels wide but
/// never under a device pixel.
pub open spec fn outline_shape(r: Rect, radius: i32, thickness: Number, scale: Scale) -> Shape {
    let d = placed(r, scale);
    Shape::Outline {
        rect: d,
        corner: number::clamped(
            scaled(radius, scale),
            Number { bits: 0 },
            shapes::halved(number::whole_number(least(d.w as int, d.h as int))),
        ),
        width: number::larger(number::product(thickness, factor(scale)), Number { bits: ONE }),
    }
}

/// A logical coordinate on the device.
pub open spec fn scaled(v: i32, scale: Scale) -> Number {
    number::product(number::whole_number(v as int), factor(scale))
}

/// A logical point on the device.
pub open spec fn placed_point(p: (i32, i32), scale: Scale) -> Point {
    Point { x: scaled(p.0, scale), y: scaled(p.1, scale) }
}

/// Half the width of a line on the device.
pub open spec fn half_width(thickness: Number, scale: Scale) -> Number {
    shapes::halved(number::product(thickness, factor(scale)))
}

/// Whether a thickness is none at all: zero, or less.
pub open spec fn thin(thickness: Number) -> bool {
    shapes::to_zero(thickness)
}

/// The stretch of pixels a line between two coordinates can light, grown by `pad`
/// at both ends: where it begins and where it ends.
pub open spec fn line_stretch(a: Number, b: Number, pad: Number) -> (int, int) {
    let (low, high) = (number::lesser(a, b), number::larger(a, b));
    let from = number::cut(number::difference(low, pad));
    let length = number::sum(
        number::difference(high, low),
        number::product(Number { bits: TWO }, pad),
    );
    (from, from + number::cut(length))
}

/// The stretch of pixels a triangle with three coordinates can light.
pub open spec fn triangle_stretch(a: Number, b: Number, c: Number) -> (int, int) {
    (
        number::cut(number::lesser(number::lesser(a, b), c)) - 1,
        number::cut(number::larger(number::larger(a, b), c)) + 2,
    )
}

/// The part of a clip between two columns and two rows.
pub open spec fn spanned(across: (int, int), down: (int, int), clip: Rect) -> Rect {
    let (x, y) = (most(across.0, clip.x as int), most(down.0, clip.y as int));
    let (right, bottom) = (
        least(across.1, clip.right_edge()),
        least(down.1, clip.bottom_edge()),
    );
    if x < right && y < bottom {
        rect(x, y, right - x, bottom - y)
    } else {
        rect(0, 0, 0, 0)
    }
}

/// The pixels of a clip that a line can light: those in its bounding box, grown by
/// half its width and a pixel more.
pub open spec fn line_bounds(a: Point, b: Point, half: Number, clip: Rect) -> Rect {
    let pad = number::sum(number::raised(half), Number { bits: ONE });
    spanned(line_stretch(a.x, b.x, pad), line_stretch(a.y, b.y, pad), clip)
}

/// The pixels of a clip that a triangle can light.
pub open spec fn triangle_bounds(a: Point, b: Point, c: Point, clip: Rect) -> Rect {
    spanned(triangle_stretch(a.x, b.x, c.x), triangle_stretch(a.y, b.y, c.y), clip)
}

fn smaller(a: i32, b: i32) -> (v: i32)
    ensures
        v == least(a as int, b as int),
{
    if a < b {
        a
    } else {
        b
    }
}

fn bigger(a: i32, b: i32) -> (v: i32)
    ensures
        v == most(a as int, b as int),
{
    if a > b {
        a
    } else {
        b
    }
}

fn scale_up(v: i32, scale: Scale) -> (n: Number)
    ensures
        n == scaled(v, scale),
{
    Number::of_whole(v).times(Number { bits: scale.bits })
}

fn point_on(p: (i32, i32), scale: Scale) -> (q: Point)
    ensures
        q == placed_point(p, scale),
{
    Point { x: scale_up(p.0, scale), y: scale_up(p.1, scale) }
}

fn stretch_of_line(a: Number, b: Number, pad: Number) -> (s: (i64, i64))
    ensures
        (s.0 as int, s.1 as int) == line_stretch(a, b, pad),
        -0x1_0000_0000 <= s.0 <= 0x1_0000_0000,
        -0x1_0000_0000 <= s.1 <= 0x1_0000_0000,
{
    let (low, high): (Number, Number) = (a.or_less(b), a.or_more(b));
    let from: i64 = low.less_by(pad).to_whole() as i64;
    let length = high.less_by(low).plus((Number { bits: TWO }).times(pad));
    (from, from + length.to_whole() as i64)
}

fn stretch_of_triangle(a: Number, b: Number, c: Number) -> (s: (i64, i64))
    ensures
        (s.0 as int, s.1 as int) == triangle_stretch(a, b, c),
{
    (
        a.or_less(b).or_less(c).to_whole() as i64 - 1,
        a.or_more(b).or_more(c).to_whole() as i64 + 2,
    )
}

fn span(across: (i64, i64), down: (i64, i64), clip: Rect) -> (r: Rect)
    requires
        clip.near(),
    ensures
        r == spanned((across.0 as int, across.1 as int), (down.0 as int, down.1 as int), clip),
{
    let (cx, cy): (i64, i64) = (clip.x as i64, clip.y as i64);
    let (cr, cb): (i64, i64) = (cx + clip.w as i64, cy + clip.h as i64);
    let x: i64 = if across.0 > cx {
        across.0
    } else {
        cx
    };
    let y: i64 = if down.0 > cy {
        down.0
    } else {
        cy
    };
    let right: i64 = if across.1 < cr {
        across.1
    } else {
        cr
    };
    let bottom: i64 = if down.1 < cb {
        down.1
    } else {
        cb
    };
    if x < right && y < bottom {
        Rect { x: x as i32, y: y as i32, w: (right - x) as i32, h: (bottom - y) as i32 }
    } else {
        Rect { x: 0, y: 0, w: 0, h: 0 }
    }
}

impl<'a> Painter<'a> {
    /// Blend a color through a shape into an already-clipped rectangle.
    fn shade_shape(&mut self, r: Rect, shape: &Shape, color: Color)
        requires
            old(self).wf(),
            r.near(),
            0 <= r.x,
            0 <= r.y,
            r.right_edge() <= old(self).width,
            r.bottom_edge() <= old(self).height,
            shape.wf(),
        ensures
            final(self).wf(),
            final(self).width == old(self).width,
            final(self).height == old(self).height,
            final(self).clip == old(self).clip,
            final(self).scale == old(self).scale,
            final(final(self).pixels)@ == final(old(self).pixels)@,
            final(self).pixels@ == shaded(
                old(self).pixels@,
                old(self).width as int,
                r,
                tinted(color, *shape),
            ),
    {
        let ghost px = self.pixels@;
        let ghost stride = self.width as int;
        let ghost shade = tinted(color, *shape);
        if r.is_empty() || color.a == 0 {
            proof {
                shade_nothing(px, stride, r, shade);
            }
            return;
        }
        let (right, bottom): (i32, i32) = (r.right(), r.bottom());
        let mut y: i32 = r.y;
        proof {
            shade_rows(px, stride, r, shade, r, 0);
        }
        while y < bottom
            invariant
                self.wf(),
                self.width == old(self).width,
                self.height == old(self).height,
                self.clip == old(self).clip,
                self.scale == old(self).scale,
                final(self.pixels)@ == final(old(self).pixels)@,
                px == old(self).pixels@,
                self.pixels@.len() == px.len(),
                stride == self.width,
                shade == tinted(color, *shape),
                shape.wf(),
                r.near(),
                0 <= r.x,
                0 <= r.y,
                right == r.right_edge() <= stride,
                bottom == r.bottom_edge() <= self.height,
                r.y <= y <= bottom,
                r.x < right,
                self.pixels@ == shaded_to(px, stride, r, shade, r.x as int, y as int),
            decreases bottom - y,
        {
            let mut x: i32 = r.x;
            while x < right
                invariant
                    self.wf(),
                    self.width == old(self).width,
                    self.height == old(self).height,
                    self.clip == old(self).clip,
                    self.scale == old(self).scale,
                    final(self.pixels)@ == final(old(self).pixels)@,
                    px == old(self).pixels@,
                    self.pixels@.len() == px.len(),
                    stride == self.width,
                    shade == tinted(color, *shape),
                    shape.wf(),
                        0 <= r.x,
                    0 <= r.y,
                    right == r.right_edge() <= stride,
                    bottom == r.bottom_edge() <= self.height,
                    r.y <= y < bottom,
                    r.x <= x <= right,
                    self.pixels@ == shaded_to(px, stride, r, shade, x as int, y as int),
                decreases right - x,
            {
                let idx: usize = stored_at(x, y, self.width, self.height, self.pixels.len());
                proof {
                    shade_step(px, stride, r, shade, x as int, y as int);
                }
                let word: u32 = over(self.pixels[idx], color.scale_alpha(shape.cover(x, y)));
                self.pixels[idx] = word;
                x = x + 1;
            }
            proof {
                shade_rows(px, stride, r, shade, r, y as int);
            }
            y = y + 1;
        }
    }

    /// A filled rounded rectangle with anti-aliased corners. The radius is clamped
    /// to half the shorter side; radius 0 is a plain fill.
    pub fn rounded_rect(&mut self, r: Rect, radius: i32, color: Color)
        requires
            old(self).wf(),
            old(self).reaches(r),
        ensures
            final(self).wf(),
            final(self).width == old(self).width,
            final(self).height == old(self).height,
            final(self).clip == old(self).clip,
            final(self).scale == old(self).scale,
            final(final(self).pixels)@ == final(old(self).pixels)@,
            final(self).pixels@ == if r.empty() {
                old(self).pixels@
            } else {
                shaded(
                    old(self).pixels@,
                    old(self).width as int,
                    old(self).place(r).overlap(old(self).clip),
                    tinted(color, rounded_shape(r, radius, old(self).scale)),
                )
            },
    {
        if r.is_empty() {
            return;
        }
        let d: Rect = self.device(r);
        let wanted: i32 = bigger(to_device(radius, self.scale), 0);
        let shape = Shape::Rounded { rect: d, radius: smaller(wanted, smaller(d.w, d.h) / 2) };
        let area: Rect = d.intersect(self.clip);
        self.shade_shape(area, &shape, color);
    }

    /// An anti-aliased outline just inside the edge of a rounded rectangle,
    /// `thickness` logical pixels wide.
    ///
    /// [`Painter::stroke_rect`] draws square corners, so a rounded fill given a
    /// stroked border ends up with corners that disagree. This traces the same
    /// shape [`Painter::rounded_rect`] fills.
    pub fn rounded_stroke(&mut self, r: Rect, radius: i32, thickness: Number, color: Color)
        requires
            old(self).wf(),
            old(self).reaches(r),
        ensures
            final(self).wf(),
            final(self).width == old(self).width,
            final(self).height == old(self).height,
            final(self).clip == old(self).clip,
            final(self).scale == old(self).scale,
            final(final(self).pixels)@ == final(old(self).pixels)@,
            final(self).pixels@ == if r.empty() || thin(thickness) {
                old(self).pixels@
            } else {
                shaded(
                    old(self).pixels@,
                    old(self).width as int,
                    old(self).place(r).overlap(old(self).clip),
                    tinted(color, outline_shape(r, radius, thickness, old(self).scale)),
                )
            },
    {
        if r.is_empty() || is_to_zero(thickness) {
            return;
        }
        let d: Rect = self.device(r);
        let most = half_of(Number::of_whole(smaller(d.w, d.h)));
        let corner = scale_up(radius, self.scale).between(Number { bits: 0 }, most);
        let width = thickness.times(Number { bits: self.scale.bits }).or_more(Number { bits: ONE });
        let shape = Shape::Outline { rect: d, corner, width };
        let area: Rect = d.intersect(self.clip);
        self.shade_shape(area, &shape, color);
    }

    /// An anti-aliased line between two logical points, `thickness` logical pixels
    /// wide. Window-button glyphs are drawn with this rather than typeset, because
    /// the box-drawing characters they would need are missing from most system
    /// fonts and come out as tofu.
    pub fn line(&mut self, a: (i32, i32), b: (i32, i32), thickness: Number, color: Color)
        requires
            old(self).wf(),
        ensures
            final(self).wf(),
            final(self).width == old(self).width,
            final(self).height == old(self).height,
            final(self).clip == old(self).clip,
            final(self).scale == old(self).scale,
            final(final(self).pixels)@ == final(old(self).pixels)@,
            ({
                let (p, q) = (
                    placed_point(a, old(self).scale),
                    placed_point(b, old(self).scale),
                );
                let half = half_width(thickness, old(self).scale);
                final(self).pixels@ == if thin(thickness) {
                    old(self).pixels@
                } else {
                    shaded(
                        old(self).pixels@,
                        old(self).width as int,
                        line_bounds(p, q, half, old(self).clip),
                        tinted(color, Shape::Line { a: p, b: q, half }),
                    )
                }
            }),
    {
        if is_to_zero(thickness) {
            return;
        }
        let s = self.scale;
        let (p, q): (Point, Point) = (point_on(a, s), point_on(b, s));
        let half = half_of(thickness.times(Number { bits: s.bits }));
        let pad = half.to_ceiling().plus(Number { bits: ONE });
        let area: Rect = span(
            stretch_of_line(p.x, q.x, pad),
            stretch_of_line(p.y, q.y, pad),
            self.clip,
        );
        self.shade_shape(area, &Shape::Line { a: p, b: q, half }, color);
    }

    /// A filled triangle from three logical points, with anti-aliased edges via
    /// 2x2 supersampling.
    pub fn triangle(&mut self, a: (i32, i32), b: (i32, i32), c: (i32, i32), color: Color)
        requires
            old(self).wf(),
        ensures
            final(self).wf(),
            final(self).width == old(self).width,
            final(self).height == old(self).height,
            final(self).clip == old(self).clip,
            final(self).scale == old(self).scale,
            final(final(self).pixels)@ == final(old(self).pixels)@,
            ({
                let p = placed_point(a, old(self).scale);
                let q = placed_point(b, old(self).scale);
                let r = placed_point(c, old(self).scale);
                final(self).pixels@ == shaded(
                    old(self).pixels@,
                    old(self).width as int,
                    triangle_bounds(p, q, r, old(self).clip),
                    tinted(color, Shape::Triangle { a: p, b: q, c: r }),
                )
            }),
    {
        let s = self.scale;
        let (p, q, r): (Point, Point, Point) = (point_on(a, s), point_on(b, s), point_on(c, s));
        let area: Rect = span(
            stretch_of_triangle(p.x, q.x, r.x),
            stretch_of_triangle(p.y, q.y, r.y),
            self.clip,
        );
        self.shade_shape(area, &Shape::Triangle { a: p, b: q, c: r }, color);
    }
}

} // verus!
