//! Where text goes: how much of it fits, where its lines begin, and where the
//! caret and the selection stand in it.
//!
//! A font measures; the places follow from its measures alone. Positions within a
//! run count in 65536ths of a pixel, positions in a frame in whole pixels.

use crate::number;
use crate::number::{Number, HALF};
use crate::render::buffer::Color;
use crate::render::primitives;
use crate::render::primitives::Rect;
use crate::render::text;
use crate::render::text::{
    char_offset_at_x, text_width, x_at_char_offset, Cluster, TextStyle,
};
use crate::text::{chars_of, text_of};
use crate::ui::layout;
use crate::ui::layout::half_of;
use crate::ui::metrics::{FIELD_PAD, FIELD_TEXT_SIZE, FIELD_TEXT_TOP};
use crate::ui::SUBPIXELS;
use vstd::prelude::*;
use vstd::string::*;

verus! {

/// Parts of a pixel that a pen counts in.
pub const PEN: u64 = 0x1_0000;

/// What a font says of a text in a style: the text's units, how far an ellipsis
/// moves the pen with the spacing behind it, and how tall a line is.
pub struct Measure {
    pub run: Vec<Cluster>,
    pub dots: u32,
    pub height: i32,
}

impl Measure {
    /// A measure of a text that is to be seen on a screen.
    pub open spec fn of(&self, s: Seq<char>, style: TextStyle) -> bool {
        &&& text::measurable(self.run@)
        &&& text::chars_in(self.run@, self.run@.len() as int) == s.len()
        &&& style.tracking < 0x1_0000
        &&& text::pen_after(self.run@, spacing(style), self.run@.len() as int) <= 0x1000_0000
            * PEN
        &&& 0 <= self.height <= 0x1000_0000
    }
}

/// A style's letter spacing.
pub open spec fn spacing(style: TextStyle) -> u32 {
    (style.tracking * PEN) as u32
}

fn spacing_of(style: TextStyle) -> (tracking: u32)
    requires
        style.tracking < 0x1_0000,
    ensures
        tracking == spacing(style),
{
    style.tracking * 0x1_0000
}

/// A pen's position to the nearest pixel.
pub open spec fn nearest(pen: nat) -> int {
    ((pen + PEN / 2) / PEN as int) as int
}

fn to_nearest(pen: u64) -> (px: i32)
    requires
        pen <= 0x1000_0000 * PEN + PEN,
    ensures
        px == nearest(pen as nat),
        0 <= px <= 0x1000_0002,
{
    ((pen + PEN / 2) / PEN) as i32
}

// --- What fits ----------------------------------------------------------------------------

/// Whether a text fits a width as it is.
pub open spec fn whole(run: Seq<Cluster>, style: TextStyle, width: int) -> bool {
    text::pen_after(run, spacing(style), run.len() as int) <= width * PEN
}

/// The units kept of a text that does not fit, in front of an ellipsis.
pub open spec fn kept(run: Seq<Cluster>, dots: u32, style: TextStyle, width: int) -> int {
    text::fitting(run, spacing(style), width * PEN - dots, 0)
}

/// A text cut to a width: itself where it fits, else as much of its front as
/// leaves room for an ellipsis. Advances are fractional, so nothing is rounded
/// before the comparison.
pub open spec fn fitted(
    s: Seq<char>,
    run: Seq<Cluster>,
    dots: u32,
    style: TextStyle,
    width: int,
) -> Seq<char> {
    if whole(run, style, width) {
        s
    } else {
        s.take(text::chars_in(run, kept(run, dots, style, width)) as int).push('\u{2026}')
    }
}

/// How far a text so cut moves the pen.
pub open spec fn fitted_pen(
    run: Seq<Cluster>,
    dots: u32,
    style: TextStyle,
    width: int,
) -> nat {
    if whole(run, style, width) {
        text::pen_after(run, spacing(style), run.len() as int)
    } else {
        text::pen_after(run, spacing(style), kept(run, dots, style, width)) + dots as nat
    }
}

proof fn chars_grow(run: Seq<Cluster>, tracking: u32, a: int, b: int)
    requires
        a <= b,
    ensures
        text::chars_in(run, a) <= text::chars_in(run, b),
        text::pen_after(run, tracking, a) <= text::pen_after(run, tracking, b),
    decreases b - a,
{
    if a < b {
        chars_grow(run, tracking, a, b - 1);
    }
}

/// Cut a text to a width; its pen comes with it.
pub fn fit(s: &str, m: &Measure, style: TextStyle, width: i32) -> (out: (String, u64))
    requires
        m.of(s@, style),
        -0x1000_0000 <= width <= 0x1000_0000,
    ensures
        out.0@ == fitted(s@, m.run@, m.dots, style, width as int),
        out.1 == fitted_pen(m.run@, m.dots, style, width as int),
        out.1 <= 0x1000_0000 * PEN + PEN * PEN,
{
    let tracking: u32 = spacing_of(style);
    let pen: u64 = text_width(&m.run, tracking);
    let room: i64 = width as i64 * 0x1_0000;
    if pen as i64 <= room {
        return (s.to_owned(), pen);
    }
    let left: i64 = room - m.dots as i64;
    let chars = chars_of(s);
    let total: usize = chars.len();
    let mut at: u64 = 0;
    let mut count: usize = 0;
    let mut i: usize = 0;
    while i < m.run.len()
        invariant_except_break
            text::fitting(m.run@, tracking, left as int, 0) == text::fitting(
                m.run@,
                tracking,
                left as int,
                i as int,
            ),
        invariant
            i <= m.run@.len(),
            m.of(s@, style),
            tracking == spacing(style),
            chars@ == s@,
            total == s@.len(),
            at == text::pen_after(m.run@, tracking, i as int),
            count == text::chars_in(m.run@, i as int),
            -0x2000_0000_0000 <= left <= 0x2000_0000_0000,
        ensures
            i == text::fitting(m.run@, tracking, left as int, 0),
        decreases m.run@.len() - i,
    {
        proof {
            chars_grow(m.run@, tracking, i + 1, m.run@.len() as int);
        }
        assert(text::chars_in(m.run@, i + 1) == count + m.run@[i as int].chars);
        let next: u64 = at + m.run[i].advance as u64 + tracking as u64;
        if next as i64 > left {
            break;
        }
        at = next;
        count = count + m.run[i].chars;
        i = i + 1;
    }
    proof {
        chars_grow(m.run@, tracking, i as int, m.run@.len() as int);
    }
    let mut out = text_of(&chars, 0, count);
    out.push('\u{2026}');
    assert(out@ =~= fitted(s@, m.run@, m.dots, style, width as int));
    (out, at + m.dots as u64)
}

/// A text cut to a width never moves the pen past it, unless the width is too
/// narrow for the ellipsis itself.
pub proof fn cut_texts_fit(run: Seq<Cluster>, dots: u32, style: TextStyle, width: int)
    requires
        dots <= width * PEN,
    ensures
        fitted_pen(run, dots, style, width) <= width * PEN,
{
    if !whole(run, style, width) {
        fitting_fits(run, spacing(style), width * PEN - dots, 0);
    }
}

proof fn fitting_fits(run: Seq<Cluster>, tracking: u32, room: int, from: int)
    requires
        0 <= from <= run.len(),
        text::pen_after(run, tracking, from) <= room,
    ensures
        text::pen_after(run, tracking, text::fitting(run, tracking, room, from)) <= room,
    decreases run.len() - from,
{
    if from < run.len() && text::pen_after(run, tracking, from + 1) <= room {
        fitting_fits(run, tracking, room, from + 1);
    }
}

// --- Lines --------------------------------------------------------------------------------

/// A line of text in its place: nothing of it lands outside its clip, and nothing
/// is drawn past its width.
pub struct Line {
    pub clip: Option<Rect>,
    pub x: i32,
    pub y: i32,
    pub text: String,
    pub style: TextStyle,
    pub width: i32,
}

#[verifier::ext_equal]
pub struct LineView {
    pub clip: Option<Rect>,
    pub x: int,
    pub y: int,
    pub text: Seq<char>,
    pub style: TextStyle,
    pub width: int,
}

impl View for Line {
    type V = LineView;

    open spec fn view(&self) -> LineView {
        LineView {
            clip: self.clip,
            x: self.x as int,
            y: self.y as int,
            text: self.text@,
            style: self.style,
            width: self.width as int,
        }
    }
}

pub open spec fn lines(list: Seq<Line>) -> Seq<LineView> {
    Seq::new(list.len(), |i: int| list[i]@)
}

/// The top of a line in the middle of a height.
pub open spec fn line_top(rect: Rect, height: int) -> int {
    rect.y + layout::half(rect.h - height)
}

/// A text from the left of a rectangle, in the middle of its height.
pub open spec fn left_line(rect: Rect, s: Seq<char>, m: Measure, style: TextStyle) -> LineView {
    LineView {
        clip: Some(rect),
        x: rect.x as int,
        y: line_top(rect, m.height as int),
        text: fitted(s, m.run@, m.dots, style, rect.w as int),
        style,
        width: rect.w as int,
    }
}

/// A text in the middle of a rectangle, from its left where it fills it.
pub open spec fn centered_line(rect: Rect, s: Seq<char>, m: Measure, style: TextStyle) -> LineView {
    let w = nearest(fitted_pen(m.run@, m.dots, style, rect.w as int));
    LineView {
        x: if w >= rect.w {
            rect.x as int
        } else {
            rect.x + (rect.w - w) / 2
        },
        ..left_line(rect, s, m, style)
    }
}

/// A line of text in a rectangle, from its left or in its middle.
pub fn line_in(rect: Rect, s: &str, m: &Measure, style: TextStyle, centered: bool) -> (line: Line)
    requires
        m.of(s@, style),
        layout::within(rect, 0x1000_0000),
    ensures
        line@ == if centered {
            centered_line(rect, s@, *m, style)
        } else {
            left_line(rect, s@, *m, style)
        },
{
    let (text, pen): (String, u64) = fit(s, m, style, rect.w);
    let y: i32 = rect.y + half_of(rect.h - m.height);
    let mut x: i32 = rect.x;
    if centered {
        // A run wider than any rectangle is no narrower once rounded.
        let w: u64 = (pen + PEN / 2) / PEN;
        if rect.w > 0 && w < rect.w as u64 {
            x = rect.x + (rect.w - w as i32) / 2;
        }
    }
    Line { clip: Some(rect), x, y, text, style, width: rect.w }
}

/// The room a command's action has behind its namespace.
pub open spec fn behind(rect: Rect, used: int) -> Rect {
    primitives::rect(rect.x + used, rect.y as int, rect.w - used, rect.h as int)
}

/// A command's label: its namespace, where it has one, and its action right behind
/// it, each in its own style.
pub open spec fn command_lines(
    rect: Rect,
    namespace: Seq<char>,
    action: Seq<char>,
    dim: TextStyle,
    full: TextStyle,
    first: Measure,
    second: Measure,
) -> Seq<LineView> {
    if namespace.len() == 0 {
        seq![left_line(rect, action, second, full)]
    } else {
        let used = nearest(
            text::pen_after(first.run@, spacing(dim), first.run@.len() as int),
        );
        seq![
            left_line(rect, namespace, first, dim),
            left_line(behind(rect, used), action, second, full),
        ]
    }
}

/// Place a command's label.
pub fn lines_of_command(
    rect: Rect,
    namespace: &str,
    action: &str,
    dim: TextStyle,
    full: TextStyle,
    first: &Measure,
    second: &Measure,
) -> (out: Vec<Line>)
    requires
        first.of(namespace@, dim),
        second.of(action@, full),
        layout::within(rect, 0x400_0000),
        text::pen_after(first.run@, spacing(dim), first.run@.len() as int) <= 0x400_0000 * PEN,
    ensures
        lines(out@) == command_lines(rect, namespace@, action@, dim, full, *first, *second),
{
    let mut out: Vec<Line> = Vec::new();
    let mut room = rect;
    if !namespace.is_empty() {
        let used: i32 = to_nearest(text_width(&first.run, spacing_of(dim)));
        out.push(line_in(rect, namespace, first, dim, false));
        room = Rect { x: rect.x + used, y: rect.y, w: rect.w - used, h: rect.h };
    }
    out.push(line_in(room, action, second, full, false));
    assert(lines(out@) =~= command_lines(
        rect,
        namespace@,
        action@,
        dim,
        full,
        *first,
        *second,
    ));
    out
}

/// The text in a field, from its padding on.
pub open spec fn field_line(field: Rect, s: Seq<char>, color: Color) -> LineView {
    LineView {
        clip: Some(field),
        x: field.x + FIELD_PAD,
        y: field.y + FIELD_TEXT_TOP,
        text: s,
        style: TextStyle::plain(Number { bits: FIELD_TEXT_SIZE }, color),
        width: field.w - 2 * FIELD_PAD,
    }
}

pub fn line_in_field(field: Rect, s: &str, color: Color) -> (line: Line)
    requires
        layout::within(field, 0x1000_0000),
    ensures
        line@ == field_line(field, s@, color),
{
    Line {
        clip: Some(field),
        x: field.x + FIELD_PAD,
        y: field.y + FIELD_TEXT_TOP,
        text: s.to_owned(),
        style: TextStyle::new(Number { bits: FIELD_TEXT_SIZE }, color),
        width: field.w - 2 * FIELD_PAD,
    }
}

/// The initial on a fallback icon: white, half as tall as its tile, and in the
/// tile's middle.
pub open spec fn initial_style(tile: Rect) -> TextStyle {
    TextStyle::plain(
        number::product(number::whole_number(tile.h as int), Number { bits: HALF }),
        Color { r: 0xff, g: 0xff, b: 0xff, a: 0xff },
    )
}

pub open spec fn initial_line(tile: Rect, initial: char, m: Measure) -> LineView {
    let style = initial_style(tile);
    let w = nearest(text::pen_after(m.run@, spacing(style), m.run@.len() as int));
    LineView {
        clip: None,
        x: tile.x + layout::half(tile.w - w),
        y: line_top(tile, m.height as int),
        text: seq![initial],
        style,
        width: tile.w as int,
    }
}

/// The style of the initial on a tile.
pub fn style_of_initial(tile: Rect) -> (style: TextStyle)
    ensures
        style == initial_style(tile),
{
    TextStyle::new(
        Number::of_whole(tile.h).times(Number { bits: HALF }),
        Color { r: 0xff, g: 0xff, b: 0xff, a: 0xff },
    )
}

/// Place the initial on a tile.
pub fn line_of_initial(tile: Rect, initial: char, m: &Measure) -> (line: Line)
    requires
        m.of(seq![initial], initial_style(tile)),
        layout::within(tile, 0x1000_0000),
        0 <= tile.h,
    ensures
        line@ == initial_line(tile, initial, *m),
{
    let style = style_of_initial(tile);
    let w: i32 = to_nearest(text_width(&m.run, spacing_of(style)));
    let mut text: String = String::new();
    text.push(initial);
    assert(text@ =~= seq![initial]);
    Line {
        clip: None,
        x: tile.x + half_of(tile.w - w),
        y: tile.y + half_of(tile.h - m.height),
        text,
        style,
        width: tile.w,
    }
}

// --- Carets -------------------------------------------------------------------------------

/// Where the caret of a char offset stands behind a field's padding.
pub open spec fn caret_at(run: Seq<Cluster>, offset: int) -> int {
    nearest(text::pen_after(run, 0, text::whole_units(run, offset, 0)))
}

/// A field's selection: from one caret to the other, and never invisible.
pub open spec fn band_of(field: Rect, m: Measure, selection: (usize, usize)) -> Rect {
    let (from, to) = (
        caret_at(m.run@, selection.0 as int),
        caret_at(m.run@, selection.1 as int),
    );
    primitives::rect(
        field.x + FIELD_PAD + from,
        field.y + FIELD_TEXT_TOP,
        primitives::most(to - from, 1),
        m.height as int,
    )
}

/// A field's caret: two pixels wide, as tall as a line.
pub open spec fn caret_of(field: Rect, m: Measure, offset: usize) -> Rect {
    primitives::rect(
        field.x + FIELD_PAD + caret_at(m.run@, offset as int),
        field.y + FIELD_TEXT_TOP,
        2,
        m.height as int,
    )
}

/// Whether a field's measure is that of a text on a screen.
pub open spec fn field_measure(m: Measure) -> bool {
    &&& text::measurable(m.run@)
    &&& text::pen_after(m.run@, 0, m.run@.len() as int) <= 0x400_0000 * PEN
    &&& 0 <= m.height <= 0x1000_0000
}

fn caret_px(m: &Measure, offset: usize) -> (px: i32)
    requires
        field_measure(*m),
    ensures
        px == caret_at(m.run@, offset as int),
        0 <= px <= 0x400_0001,
{
    proof {
        let all = text::chars_in(m.run@, m.run@.len() as int) as int;
        let far = if offset as int > all {
            offset as int
        } else {
            all
        };
        text::carets_never_turn_back(m.run@, offset as int, far);
        text::the_last_caret_stands_at_the_width(m.run@, far);
    }
    to_nearest(x_at_char_offset(&m.run, offset))
}

/// Where a field's selection shows.
pub fn selection_band(field: Rect, m: &Measure, selection: (usize, usize)) -> (band: Rect)
    requires
        field_measure(*m),
        layout::within(field, 0x1000_0000),
    ensures
        band == band_of(field, *m, selection),
{
    let (from, to): (i32, i32) = (caret_px(m, selection.0), caret_px(m, selection.1));
    let w: i32 = if to - from > 1 {
        to - from
    } else {
        1
    };
    Rect { x: field.x + FIELD_PAD + from, y: field.y + FIELD_TEXT_TOP, w, h: m.height }
}

/// Where a field's caret shows.
pub fn caret_box(field: Rect, m: &Measure, offset: usize) -> (caret: Rect)
    requires
        field_measure(*m),
        layout::within(field, 0x1000_0000),
    ensures
        caret == caret_of(field, *m, offset),
{
    Rect {
        x: field.x + FIELD_PAD + caret_px(m, offset),
        y: field.y + FIELD_TEXT_TOP,
        w: 2,
        h: m.height,
    }
}

/// How far into a field's text a pointer is, in 256ths of a pixel like its `x`;
/// left of the text counts as its start.
pub open spec fn into_text(field: Rect, x: int) -> int {
    primitives::most(x - (field.x + FIELD_PAD) * SUBPIXELS, 0)
}

/// The char offset in a field's text that a pointer lands on, measured from where
/// the field draws its first glyph.
pub fn caret_offset(field: Rect, m: &Measure, x: i32) -> (offset: usize)
    requires
        text::measurable(m.run@),
        layout::within(field, 0x40_0000),
    ensures
        offset == text::chars_in(
            m.run@,
            text::unit_at(m.run@, into_text(field, x as int) * 256, 0),
        ),
{
    let rel: i64 = x as i64 - (field.x as i64 + FIELD_PAD as i64) * SUBPIXELS as i64;
    let rel: i64 = if rel > 0 {
        rel
    } else {
        0
    };
    char_offset_at_x(&m.run, rel * 256)
}

} // verus!
