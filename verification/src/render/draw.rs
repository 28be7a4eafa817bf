//! Drawing on the pixels: lists of what to draw, and the clips around parts of
//! them.

use crate::number::Number;
use crate::render::buffer;
use crate::render::buffer::Color;
use crate::render::image;
use crate::render::image::{centre, fallback_color, IconImage};
use crate::render::paint::{Mark, MarkView};
use crate::render::primitives;
use crate::render::primitives::{Painter, Rect};
use crate::render::shapes::Shape;
use crate::single::{to_device, Scale};
use vstd::prelude::*;

verus! {

/// The bits of the width of a hairline that follows round corners: one pixel.
pub const HAIRLINE: u32 = 0x3f80_0000;

/// The bits of the width of a glyph's strokes: a pixel and a half.
pub const STROKE: u32 = 0x3fc0_0000;

/// One thing to draw. Shapes are in logical pixels; masks and pictures have been
/// made at the output's scale and are in device pixels.
pub enum Op {
    Fill { rect: Rect, color: Color },
    Rounded { rect: Rect, radius: i32, color: Color },
    Outline { rect: Rect, radius: i32, color: Color },
    Border { rect: Rect, color: Color },
    Line { a: (i32, i32), b: (i32, i32), color: Color },
    Triangle { a: (i32, i32), b: (i32, i32), c: (i32, i32), color: Color },
    /// A color through a coverage mask.
    Mask { x: i32, y: i32, w: i32, h: i32, coverage: Vec<u8>, color: Color },
    /// Straight-alpha pixels.
    Picture { x: i32, y: i32, w: i32, h: i32, argb: Vec<u32> },
    /// Nothing until the matching end lands outside this rectangle.
    Clip(Rect),
    Unclip,
}

/// Where drawing goes: how wide a row of the pixels is, the clip, and the scale.
pub struct Surface {
    pub stride: int,
    pub clip: Rect,
    pub scale: Scale,
}

impl Surface {
    /// A surface clipped to a logical rectangle.
    pub open spec fn within(self, r: Rect) -> Surface {
        Surface { clip: self.clip.overlap(primitives::placed(r, self.scale)), ..self }
    }

    /// Pixels with a rectangle of them shaded over, inside the clip.
    pub open spec fn shade(
        self,
        px: Seq<u32>,
        area: Rect,
        shade: spec_fn(int, int) -> Color,
    ) -> Seq<u32> {
        primitives::shaded(px, self.stride, area.overlap(self.clip), shade)
    }

    /// Pixels with a logical rectangle filled.
    pub open spec fn fill(self, px: Seq<u32>, r: Rect, color: Color) -> Seq<u32> {
        self.shade(px, primitives::placed(r, self.scale), primitives::flat(color))
    }
}

/// What a painter draws on.
pub open spec fn surface(p: Painter<'_>) -> Surface {
    Surface { stride: p.width as int, clip: p.clip, scale: p.scale }
}

/// Pixels once one thing has been drawn on them.
pub open spec fn inked(op: Op, px: Seq<u32>, on: Surface) -> Seq<u32> {
    match op {
        Op::Fill { rect, color } => on.fill(px, rect, color),
        Op::Rounded { rect, radius, color } => if rect.empty() {
            px
        } else {
            on.shade(
                px,
                primitives::placed(rect, on.scale),
                primitives::tinted(color, primitives::rounded_shape(rect, radius, on.scale)),
            )
        },
        Op::Outline { rect, radius, color } => if rect.empty() {
            px
        } else {
            on.shade(
                px,
                primitives::placed(rect, on.scale),
                primitives::tinted(
                    color,
                    primitives::outline_shape(
                        rect,
                        radius,
                        Number { bits: HAIRLINE },
                        on.scale,
                    ),
                ),
            )
        },
        Op::Border { rect, color } => if rect.empty() {
            px
        } else {
            let (top, bottom, left, right) = primitives::border(rect, 1);
            on.fill(on.fill(on.fill(on.fill(px, top, color), bottom, color), left, color), right, color)
        },
        Op::Line { a, b, color } => {
            let (p, q) = (
                primitives::placed_point(a, on.scale),
                primitives::placed_point(b, on.scale),
            );
            let half = primitives::half_width(Number { bits: STROKE }, on.scale);
            primitives::shaded(
                px,
                on.stride,
                primitives::line_bounds(p, q, half, on.clip),
                primitives::tinted(color, Shape::Line { a: p, b: q, half }),
            )
        },
        Op::Triangle { a, b, c, color } => {
            let p = primitives::placed_point(a, on.scale);
            let q = primitives::placed_point(b, on.scale);
            let r = primitives::placed_point(c, on.scale);
            primitives::shaded(
                px,
                on.stride,
                primitives::triangle_bounds(p, q, r, on.clip),
                primitives::tinted(color, Shape::Triangle { a: p, b: q, c: r }),
            )
        },
        Op::Mask { x, y, w, h, coverage, color } => if w <= 0 || h <= 0 {
            px
        } else {
            on.shade(
                px,
                primitives::rect(x as int, y as int, w as int, h as int),
                primitives::through(color, coverage@, x as int, y as int, w as int),
            )
        },
        Op::Picture { x, y, w, h, argb } => if w <= 0 || h <= 0 {
            px
        } else {
            on.shade(
                px,
                primitives::rect(x as int, y as int, w as int, h as int),
                primitives::pixels_of(argb@, x as int, y as int, w as int),
            )
        },
        Op::Clip(_) | Op::Unclip => px,
    }
}

/// Pixels once a list has been drawn from its `at`th entry on, up to the end of the
/// clip around it, and where that is.
pub open spec fn drawn(ops: Seq<Op>, at: int, px: Seq<u32>, on: Surface) -> (Seq<u32>, int)
    decreases ops.len() - at,
{
    if at < 0 || at >= ops.len() {
        (px, at)
    } else {
        match ops[at] {
            Op::Unclip => (px, at + 1),
            Op::Clip(r) => {
                let (held, end) = drawn(ops, at + 1, px, on.within(r));
                drawn(
                    ops,
                    if at < end <= ops.len() {
                        end
                    } else {
                        at + 1
                    },
                    held,
                    on,
                )
            },
            op => drawn(ops, at + 1, inked(op, px, on), on),
        }
    }
}

/// A mask or picture whose pixels are all there, at a place a frame can have.
pub open spec fn stored(x: i32, y: i32, w: i32, h: i32, len: nat) -> bool {
    w > 0 && h > 0 ==> {
        &&& primitives::rect(x as int, y as int, w as int, h as int).near()
        &&& w * h <= i32::MAX
        &&& w * h <= len
    }
}

/// Whether something can be reckoned with at a scale.
pub open spec fn drawable(op: Op, scale: Scale) -> bool {
    match op {
        Op::Fill { rect, color: _ } => primitives::reachable(rect, scale),
        Op::Rounded { rect, radius: _, color: _ } => primitives::reachable(rect, scale),
        Op::Outline { rect, radius: _, color: _ } => primitives::reachable(rect, scale),
        Op::Border { rect, color: _ } => {
            let sides = primitives::border(rect, 1);
            &&& rect.near()
            &&& !rect.empty() ==> {
                &&& primitives::reachable(sides.0, scale)
                &&& primitives::reachable(sides.1, scale)
                &&& primitives::reachable(sides.2, scale)
                &&& primitives::reachable(sides.3, scale)
            }
        },
        Op::Line { .. } => true,
        Op::Triangle { .. } => true,
        Op::Mask { x, y, w, h, coverage, color: _ } => stored(x, y, w, h, coverage@.len()),
        Op::Picture { x, y, w, h, argb } => stored(x, y, w, h, argb@.len()),
        Op::Clip(rect) => primitives::reachable(rect, scale),
        Op::Unclip => true,
    }
}

proof fn ends_later(ops: Seq<Op>, at: int, px: Seq<u32>, on: Surface)
    requires
        0 <= at <= ops.len(),
    ensures
        at <= drawn(ops, at, px, on).1 <= ops.len(),
        at < ops.len() ==> at < drawn(ops, at, px, on).1,
    decreases ops.len() - at,
{
    if at < ops.len() {
        match ops[at] {
            Op::Unclip => {},
            Op::Clip(r) => {
                ends_later(ops, at + 1, px, on.within(r));
                let (held, end) = drawn(ops, at + 1, px, on.within(r));
                ends_later(ops, end, held, on);
            },
            op => {
                ends_later(ops, at + 1, inked(op, px, on), on);
            },
        }
    }
}

/// Draw one thing that is no clip.
fn draw_one(p: &mut Painter<'_>, op: &Op)
    requires
        old(p).wf(),
        drawable(*op, old(p).scale),
    ensures
        final(p).wf(),
        surface(*final(p)) == surface(*old(p)),
        final(p).height == old(p).height,
        final(final(p).pixels)@ == final(old(p).pixels)@,
        final(p).pixels@ == inked(*op, old(p).pixels@, surface(*old(p))),
{
    match op {
        Op::Fill { rect, color } => p.fill(*rect, *color),
        Op::Rounded { rect, radius, color } => p.rounded_rect(*rect, *radius, *color),
        Op::Outline { rect, radius, color } => p.rounded_stroke(
            *rect,
            *radius,
            Number { bits: HAIRLINE },
            *color,
        ),
        Op::Border { rect, color } => p.stroke_rect(*rect, 1, *color),
        Op::Line { a, b, color } => p.line(*a, *b, Number { bits: STROKE }, *color),
        Op::Triangle { a, b, c, color } => p.triangle(*a, *b, *c, *color),
        Op::Mask { x, y, w, h, coverage, color } => p.blit_coverage(
            *x,
            *y,
            *w,
            *h,
            coverage.as_slice(),
            *color,
        ),
        Op::Picture { x, y, w, h, argb } => p.blit_argb(*x, *y, *w, *h, argb.as_slice()),
        Op::Clip(_) | Op::Unclip => {},
    }
}

/// Draw a list from its `at`th entry on, up to the end of the clip around it.
fn draw_within(p: &mut Painter<'_>, ops: &Vec<Op>, at: usize) -> (end: usize)
    requires
        old(p).wf(),
        at <= ops@.len(),
        forall|i: int| 0 <= i < ops@.len() ==> drawable(#[trigger] ops@[i], old(p).scale),
    ensures
        final(p).wf(),
        surface(*final(p)) == surface(*old(p)),
        final(p).height == old(p).height,
        final(final(p).pixels)@ == final(old(p).pixels)@,
        (final(p).pixels@, end as int) == drawn(
            ops@,
            at as int,
            old(p).pixels@,
            surface(*old(p)),
        ),
    decreases ops@.len() - at,
{
    let mut i: usize = at;
    let ghost on = surface(*p);
    while i < ops.len()
        invariant
            at <= i <= ops@.len(),
            p.wf(),
            surface(*p) == on,
            on == surface(*old(p)),
            p.height == old(p).height,
            final(p.pixels)@ == final(old(p).pixels)@,
            forall|i: int| 0 <= i < ops@.len() ==> drawable(#[trigger] ops@[i], on.scale),
            drawn(ops@, at as int, old(p).pixels@, on) == drawn(ops@, i as int, p.pixels@, on),
        decreases ops@.len() - i,
    {
        assert(drawable(ops@[i as int], on.scale));
        match &ops[i] {
            Op::Unclip => {
                return i + 1;
            },
            Op::Clip(rect) => {
                proof {
                    ends_later(ops@, i + 1, p.pixels@, on.within(*rect));
                }
                let mut inner = p.clipped(*rect);
                i = draw_within(&mut inner, ops, i + 1);
            },
            op => {
                draw_one(p, op);
                i = i + 1;
            },
        }
    }
    i
}

/// Draw a list, up to its end or to an end of a clip that was never begun.
pub fn draw(p: &mut Painter<'_>, ops: &Vec<Op>)
    requires
        old(p).wf(),
        forall|i: int| 0 <= i < ops@.len() ==> drawable(#[trigger] ops@[i], old(p).scale),
    ensures
        final(p).wf(),
        surface(*final(p)) == surface(*old(p)),
        final(p).height == old(p).height,
        final(final(p).pixels)@ == final(old(p).pixels)@,
        final(p).pixels@ == drawn(ops@, 0, old(p).pixels@, surface(*old(p))).0,
{
    draw_within(p, ops, 0);
}

// --- What a frame's marks become ----------------------------------------------------------

/// What a mark is on the pixels, where nothing has to be measured or made for it.
pub open spec fn plainly(mark: MarkView) -> Option<Op> {
    match mark {
        MarkView::Fill { rect, color } => Some(Op::Fill { rect, color }),
        MarkView::Rounded { rect, radius, color } => Some(Op::Rounded { rect, radius, color }),
        MarkView::Outline { rect, radius, color } => Some(Op::Outline { rect, radius, color }),
        MarkView::Border { rect, color } => Some(Op::Border { rect, color }),
        MarkView::Rule { x, y, len, color } => Some(
            Op::Fill { rect: primitives::rect(x as int, y as int, len as int, 1), color },
        ),
        MarkView::Line { x0, y0, x1, y1, color } => Some(
            Op::Line { a: (x0, y0), b: (x1, y1), color },
        ),
        MarkView::Triangle { a, b, c, color } => Some(Op::Triangle { a, b, c, color }),
        MarkView::Clip(rect) => Some(Op::Clip(rect)),
        MarkView::Unclip => Some(Op::Unclip),
        _ => None,
    }
}

/// What to draw for a mark, unless it has to be measured or made first.
pub fn plain_op(mark: &Mark) -> (op: Option<Op>)
    ensures
        op == plainly(mark@),
{
    match mark {
        Mark::Fill { rect, color } => Some(Op::Fill { rect: *rect, color: *color }),
        Mark::Rounded { rect, radius, color } => Some(
            Op::Rounded { rect: *rect, radius: *radius, color: *color },
        ),
        Mark::Outline { rect, radius, color } => Some(
            Op::Outline { rect: *rect, radius: *radius, color: *color },
        ),
        Mark::Border { rect, color } => Some(Op::Border { rect: *rect, color: *color }),
        Mark::Rule { x, y, len, color } => Some(
            Op::Fill { rect: Rect { x: *x, y: *y, w: *len, h: 1 }, color: *color },
        ),
        Mark::Line { x0, y0, x1, y1, color } => Some(
            Op::Line { a: (*x0, *y0), b: (*x1, *y1), color: *color },
        ),
        Mark::Triangle { a, b, c, color } => Some(
            Op::Triangle { a: *a, b: *b, c: *c, color: *color },
        ),
        Mark::Clip(rect) => Some(Op::Clip(*rect)),
        Mark::Unclip => Some(Op::Unclip),
        _ => None,
    }
}

/// An icon in the middle of where it goes, since keeping the aspect can leave one
/// axis short.
pub open spec fn picture(device: Rect, icon: IconImage) -> Op {
    Op::Picture {
        x: image::centred(device.x as int, device.w as int, icon.width as int) as i32,
        y: image::centred(device.y as int, device.h as int, icon.height as int) as i32,
        w: icon.width as i32,
        h: icon.height as i32,
        argb: icon.pixels,
    }
}

/// The tile that stands in for an icon, always the same one for the same label.
pub open spec fn tile(rect: Rect, label: Seq<char>, radius: i32) -> Op {
    Op::Rounded { rect, radius, color: image::tile_color(label) }
}

/// The tile that stands in for an icon that cannot be had.
pub fn draw_fallback_icon(rect: Rect, label: &str, radius: i32) -> (op: Op)
    ensures
        op == tile(rect, label@, radius),
{
    Op::Rounded { rect, radius, color: fallback_color(label) }
}

/// What stands at an application's icon: its picture where it has one, else its
/// tile. `device` is where `rect` lands on the device's pixels.
pub fn draw_icon(
    rect: Rect,
    device: Rect,
    icon: Option<IconImage>,
    label: &str,
    radius: i32,
) -> (op: Op)
    requires
        icon matches Some(i) ==> {
            &&& image::roomy(device)
            &&& 0 < i.width <= 0x8000
            &&& 0 < i.height <= 0x8000
        },
    ensures
        op == match icon {
            Some(i) => picture(device, i),
            None => tile(rect, label@, radius),
        },
{
    match icon {
        Some(i) => {
            let (w, h): (i32, i32) = (i.width as i32, i.height as i32);
            Op::Picture {
                x: centre(device.x, device.w, w),
                y: centre(device.y, device.h, h),
                w,
                h,
                argb: i.pixels,
            }
        },
        None => draw_fallback_icon(rect, label, radius),
    }
}

// --- What can be drawn --------------------------------------------------------------------

fn near_edge(v: i64) -> (near: bool)
    ensures
        near == (-0x4000_0000 <= v <= 0x3fff_ffff),
{
    -0x4000_0000 <= v && v <= 0x3fff_ffff
}

fn is_near(r: Rect) -> (near: bool)
    ensures
        near == r.near(),
{
    near_edge(r.x as i64) && near_edge(r.y as i64) && near_edge(r.x as i64 + r.w as i64)
        && near_edge(r.y as i64 + r.h as i64)
}

fn is_reachable(r: Rect, scale: Scale) -> (reachable: bool)
    requires
        scale.wf(),
    ensures
        reachable == primitives::reachable(r, scale),
{
    is_near(r) && (scale.bits == 0x3f80_0000 || (near_edge(to_device(r.x, scale) as i64)
        && near_edge(to_device(r.y, scale) as i64) && near_edge(
        to_device(r.x + r.w, scale) as i64,
    ) && near_edge(to_device(r.y + r.h, scale) as i64)))
}

fn is_stored(x: i32, y: i32, w: i32, h: i32, len: usize) -> (stored: bool)
    ensures
        stored == self::stored(x, y, w, h, len as nat),
{
    if w <= 0 || h <= 0 {
        return true;
    }
    assert(0 < w * h <= 0x4000_0000_0000_0000) by (nonlinear_arith)
        requires
            0 < w <= 0x7fff_ffff,
            0 < h <= 0x7fff_ffff,
    ;
    let area: u64 = w as u64 * h as u64;
    is_near(Rect { x, y, w, h }) && area <= 0x7fff_ffff && area <= len as u64
}

/// Whether something can be drawn at a scale: it is there, and neither it nor what
/// it becomes on the device is absurdly far away.
pub fn can_draw(op: &Op, scale: Scale) -> (can: bool)
    requires
        scale.wf(),
    ensures
        can == drawable(*op, scale),
{
    match op {
        Op::Fill { rect, color: _ } => is_reachable(*rect, scale),
        Op::Rounded { rect, radius: _, color: _ } => is_reachable(*rect, scale),
        Op::Outline { rect, radius: _, color: _ } => is_reachable(*rect, scale),
        Op::Border { rect, color: _ } => {
            if !is_near(*rect) {
                return false;
            }
            if rect.is_empty() {
                return true;
            }
            let r = *rect;
            is_reachable(Rect { x: r.x, y: r.y, w: r.w, h: 1 }, scale) && is_reachable(
                Rect { x: r.x, y: r.y + r.h - 1, w: r.w, h: 1 },
                scale,
            ) && is_reachable(Rect { x: r.x, y: r.y, w: 1, h: r.h }, scale) && is_reachable(
                Rect { x: r.x + r.w - 1, y: r.y, w: 1, h: r.h },
                scale,
            )
        },
        Op::Line { .. } => true,
        Op::Triangle { .. } => true,
        Op::Mask { x, y, w, h, coverage, color: _ } => is_stored(*x, *y, *w, *h, coverage.len()),
        Op::Picture { x, y, w, h, argb } => is_stored(*x, *y, *w, *h, argb.len()),
        Op::Clip(rect) => is_reachable(*rect, scale),
        Op::Unclip => true,
    }
}

// --- What drawing leaves alone ------------------------------------------------------------

/// What a pixel keeps of what it was: all of it outside a clip, and its opacity
/// everywhere.
pub open spec fn keeps(before: Seq<u32>, after: Seq<u32>, on: Surface, i: int) -> bool {
    &&& after.len() == before.len()
    &&& !on.clip.covers(i % on.stride, i / on.stride) ==> after[i] == before[i]
    &&& buffer::alpha(before[i]) == 255 ==> buffer::alpha(after[i]) == 255
}

proof fn shading_keeps(
    px: Seq<u32>,
    area: Rect,
    shade: spec_fn(int, int) -> Color,
    on: Surface,
    i: int,
)
    requires
        on.clip.near(),
        area.near(),
        0 <= i < px.len(),
    ensures
        keeps(px, on.shade(px, area, shade), on, i),
{
    primitives::drawing_stays_in_the_clip(px, on.stride, on.clip, area, shade, i);
}

/// Shading a part of the clip keeps what shading under the clip does.
proof fn part_keeps(
    px: Seq<u32>,
    area: Rect,
    shade: spec_fn(int, int) -> Color,
    on: Surface,
    i: int,
)
    requires
        on.clip.near(),
        area.near(),
        area.covers(i % on.stride, i / on.stride) ==> on.clip.covers(i % on.stride, i / on.stride),
        0 <= i < px.len(),
    ensures
        keeps(px, primitives::shaded(px, on.stride, area, shade), on, i),
{
    primitives::drawing_stays_in_the_clip(px, on.stride, area, area, shade, i);
}

proof fn ink_keeps(op: Op, px: Seq<u32>, on: Surface, i: int)
    requires
        on.clip.near(),
        drawable(op, on.scale),
        0 <= i < px.len(),
    ensures
        keeps(px, inked(op, px, on), on, i),
{
    match op {
        Op::Fill { rect, color } => {
            shading_keeps(
                px,
                primitives::placed(rect, on.scale),
                primitives::flat(color),
                on,
                i,
            );
        },
        Op::Rounded { rect, radius, color } => {
            let shade = primitives::tinted(
                color,
                primitives::rounded_shape(rect, radius, on.scale),
            );
            shading_keeps(px, primitives::placed(rect, on.scale), shade, on, i);
        },
        Op::Outline { rect, radius, color } => {
            let shade = primitives::tinted(
                color,
                primitives::outline_shape(
                        rect,
                        radius,
                        Number { bits: HAIRLINE },
                        on.scale,
                    ),
            );
            shading_keeps(px, primitives::placed(rect, on.scale), shade, on, i);
        },
        Op::Border { rect, color } => {
            if !rect.empty() {
                let (top, bottom, left, right) = primitives::border(rect, 1);
                let shade = primitives::flat(color);
                let one = on.fill(px, top, color);
                let two = on.fill(one, bottom, color);
                let three = on.fill(two, left, color);
                shading_keeps(px, primitives::placed(top, on.scale), shade, on, i);
                shading_keeps(one, primitives::placed(bottom, on.scale), shade, on, i);
                shading_keeps(two, primitives::placed(left, on.scale), shade, on, i);
                shading_keeps(three, primitives::placed(right, on.scale), shade, on, i);
            }
        },
        Op::Line { a, b, color } => {
            let (p, q) = (
                primitives::placed_point(a, on.scale),
                primitives::placed_point(b, on.scale),
            );
            let half = primitives::half_width(Number { bits: STROKE }, on.scale);
            let shade = primitives::tinted(color, Shape::Line { a: p, b: q, half });
            part_keeps(px, primitives::line_bounds(p, q, half, on.clip), shade, on, i);
        },
        Op::Triangle { a, b, c, color } => {
            let p = primitives::placed_point(a, on.scale);
            let q = primitives::placed_point(b, on.scale);
            let r = primitives::placed_point(c, on.scale);
            let shade = primitives::tinted(color, Shape::Triangle { a: p, b: q, c: r });
            part_keeps(px, primitives::triangle_bounds(p, q, r, on.clip), shade, on, i);
        },
        Op::Mask { x, y, w, h, coverage, color } => {
            if w > 0 && h > 0 {
                let area = primitives::rect(x as int, y as int, w as int, h as int);
                let shade = primitives::through(color, coverage@, x as int, y as int, w as int);
                shading_keeps(px, area, shade, on, i);
            }
        },
        Op::Picture { x, y, w, h, argb } => {
            if w > 0 && h > 0 {
                let area = primitives::rect(x as int, y as int, w as int, h as int);
                let shade = primitives::pixels_of(argb@, x as int, y as int, w as int);
                shading_keeps(px, area, shade, on, i);
            }
        },
        Op::Clip(_) | Op::Unclip => {},
    }
}

/// Whatever a list draws, however its clips nest, pixels outside the clip stay as
/// they were and opaque pixels stay opaque.
pub proof fn drawing_never_escapes(ops: Seq<Op>, at: int, px: Seq<u32>, on: Surface, i: int)
    requires
        on.clip.near(),
        forall|k: int| 0 <= k < ops.len() ==> drawable(#[trigger] ops[k], on.scale),
        0 <= i < px.len(),
        0 <= at <= ops.len(),
    ensures
        keeps(px, drawn(ops, at, px, on).0, on, i),
    decreases ops.len() - at,
{
    if at < ops.len() {
        match ops[at] {
            Op::Unclip => {},
            Op::Clip(r) => {
                assert(drawable(ops[at], on.scale));
                let inner = on.within(r);
                let placed = primitives::placed(r, on.scale);
                primitives::overlap_is_the_points_in_both(
                    on.clip,
                    placed,
                    i % on.stride,
                    i / on.stride,
                );
                drawing_never_escapes(ops, at + 1, px, inner, i);
                ends_later(ops, at + 1, px, inner);
                let (held, end) = drawn(ops, at + 1, px, inner);
                drawing_never_escapes(ops, end, held, on, i);
            },
            op => {
                assert(drawable(op, on.scale));
                ink_keeps(op, px, on, i);
                drawing_never_escapes(ops, at + 1, inked(op, px, on), on, i);
            },
        }
    }
}

} // verus!
