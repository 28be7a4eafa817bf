//! The frame painter: what a snapshot, its projected layout, and the retained UI
//! state come to as marks on a surface.
//!
//! This is the one pixel-producing path both shells share. It reads the snapshot,
//! the layout geometry, the meter animation, and the theme, and lists what to
//! draw, bottom up; it commits nothing and knows no window system. Measuring text
//! and laying ink down is left to whoever holds the fonts.

use crate::domain::{Gain, Section};
use crate::number::Number;
use crate::render::buffer::Color;
use crate::render::primitives;
use crate::render::primitives::Rect;
use crate::render::text::TextStyle;
use crate::text;
use crate::text::{chars_of, clone_opt};
use crate::ui::halo::FADE;
use crate::ui::layout;
use crate::ui::layout::{
    half_of, same_opt_target, same_row, ColumnGeom, ColumnModel, Hit, HitModel, HitTarget,
    HitTargetView, Layout, LayoutModel, MenuGeomModel, ModalGeom, PaletteGeom, PaletteGeomModel,
    ProfileMenuGeom, ProfileRowGeomModel, RowId, RowIdView, SliderGeom, TitlebarGeom,
};
use crate::ui::meter;
use crate::ui::meter::{bar_count, segment_tier, segments_for, Tier};
use crate::ui::panels;
use crate::ui::panels::command_parts;
use crate::ui::row;
use crate::ui::row::{name_text, readout_text};
use crate::ui::theme::Palette;
use crate::ui::{Drag, Focus, UiModel, UiState};
use crate::view::snapshot;
use crate::view::snapshot::{
    AppRowModel, AppRowView, DeviceRowModel, DeviceRowView, ModalModel, ModalView, SinkOption,
    SinkOptionModel, SnapshotModel, ViewSnapshot,
};
use vstd::prelude::*;
use vstd::string::*;

verus! {

/// Text sizes are the bits of so many pixels: 13 here.
pub const NAME_SIZE: u32 = 0x4150_0000;

/// All-caps device form heading: 12.
pub const TYPE_SIZE: u32 = 0x4140_0000;

pub const TYPE_TRACKING: u32 = 1;

/// Device name under its form heading, and the app name in an app column: 10.
pub const DEVICE_NAME_SIZE: u32 = 0x4120_0000;

/// Small pick-button label: 12.
pub const PICK_SIZE_PT: u32 = 0x4140_0000;

/// The profile chip's label, a step up from a pick button: 13.
pub const PROFILE_SIZE: u32 = 0x4150_0000;

/// Inset from the chip's edge to its label.
pub const PROFILE_PAD_X: i32 = 12;

/// A profile dropdown row: its label size of 12, its inset, and its corner.
pub const MENU_SIZE: u32 = 0x4140_0000;

pub const MENU_PAD_X: i32 = 10;

pub const MENU_ROW_RADIUS: i32 = 3;

/// Volume percentage on the knob: quiet detail at 9, not a headline.
pub const KNOB_VALUE_SIZE: u32 = 0x4110_0000;

/// The text under a modal's title: 11.
pub const SUB_SIZE: u32 = 0x4130_0000;

pub const ICON_RADIUS: i32 = 6;

/// Corner radius shared by every small button and the profile chip.
pub const PICK_RADIUS: i32 = 4;

// --- Marks --------------------------------------------------------------------------------

/// One thing to draw.
#[derive(Debug, PartialEq, Eq)]
pub enum Mark {
    /// A rectangle, blended over what is there.
    Fill { rect: Rect, color: Color },
    /// A rectangle with round corners.
    Rounded { rect: Rect, radius: i32, color: Color },
    /// A hairline along a rectangle with round corners.
    Outline { rect: Rect, radius: i32, color: Color },
    /// A hairline inside a rectangle's edges.
    Border { rect: Rect, color: Color },
    /// A horizontal hairline.
    Rule { x: i32, y: i32, len: i32, color: Color },
    /// A line one and a half pixels wide.
    Line { x0: i32, y0: i32, x1: i32, y1: i32, color: Color },
    /// A triangle.
    Triangle { a: (i32, i32), b: (i32, i32), c: (i32, i32), color: Color },
    /// An app's icon: its file where it decodes, else a tile tinted from its name.
    Icon { rect: Rect, path: Option<String>, key: String },
    /// A run of text, cut with an ellipsis where it does not fit.
    Text { rect: Rect, text: String, style: TextStyle, centered: bool },
    /// A command's label: its namespace, then its action right behind it.
    Command { rect: Rect, namespace: String, action: String, dim: TextStyle, full: TextStyle },
    /// The text in a field, from its padding on.
    Field { rect: Rect, text: String, color: Color },
    /// The selection's band and the caret of a field's text.
    Caret {
        rect: Rect,
        text: String,
        selection: Option<(usize, usize)>,
        caret: Option<usize>,
        band: Color,
        ink: Color,
    },
    /// A cell of a level meter, covered as far as the peak reaches into it.
    Level { rect: Rect, peak: Gain, index: i32, total: i32, color: Color },
    /// Nothing until the matching end lands outside this rectangle.
    Clip(Rect),
    Unclip,
}

#[verifier::ext_equal]
pub enum MarkView {
    Fill { rect: Rect, color: Color },
    Rounded { rect: Rect, radius: i32, color: Color },
    Outline { rect: Rect, radius: i32, color: Color },
    Border { rect: Rect, color: Color },
    Rule { x: i32, y: i32, len: i32, color: Color },
    Line { x0: i32, y0: i32, x1: i32, y1: i32, color: Color },
    Triangle { a: (i32, i32), b: (i32, i32), c: (i32, i32), color: Color },
    Icon { rect: Rect, path: Option<Seq<char>>, key: Seq<char> },
    Text { rect: Rect, text: Seq<char>, style: TextStyle, centered: bool },
    Command {
        rect: Rect,
        namespace: Seq<char>,
        action: Seq<char>,
        dim: TextStyle,
        full: TextStyle,
    },
    Field { rect: Rect, text: Seq<char>, color: Color },
    Caret {
        rect: Rect,
        text: Seq<char>,
        selection: Option<(usize, usize)>,
        caret: Option<usize>,
        band: Color,
        ink: Color,
    },
    Level { rect: Rect, peak: Gain, index: i32, total: i32, color: Color },
    Clip(Rect),
    Unclip,
}

impl View for Mark {
    type V = MarkView;

    open spec fn view(&self) -> MarkView {
        match self {
            Mark::Fill { rect, color } => MarkView::Fill { rect: *rect, color: *color },
            Mark::Rounded { rect, radius, color } => MarkView::Rounded {
                rect: *rect,
                radius: *radius,
                color: *color,
            },
            Mark::Outline { rect, radius, color } => MarkView::Outline {
                rect: *rect,
                radius: *radius,
                color: *color,
            },
            Mark::Border { rect, color } => MarkView::Border { rect: *rect, color: *color },
            Mark::Rule { x, y, len, color } => MarkView::Rule {
                x: *x,
                y: *y,
                len: *len,
                color: *color,
            },
            Mark::Line { x0, y0, x1, y1, color } => MarkView::Line {
                x0: *x0,
                y0: *y0,
                x1: *x1,
                y1: *y1,
                color: *color,
            },
            Mark::Triangle { a, b, c, color } => MarkView::Triangle {
                a: *a,
                b: *b,
                c: *c,
                color: *color,
            },
            Mark::Icon { rect, path, key } => MarkView::Icon {
                rect: *rect,
                path: text::opt(*path),
                key: key@,
            },
            Mark::Text { rect, text, style, centered } => MarkView::Text {
                rect: *rect,
                text: text@,
                style: *style,
                centered: *centered,
            },
            Mark::Command { rect, namespace, action, dim, full } => MarkView::Command {
                rect: *rect,
                namespace: namespace@,
                action: action@,
                dim: *dim,
                full: *full,
            },
            Mark::Field { rect, text, color } => MarkView::Field {
                rect: *rect,
                text: text@,
                color: *color,
            },
            Mark::Caret { rect, text, selection, caret, band, ink } => MarkView::Caret {
                rect: *rect,
                text: text@,
                selection: *selection,
                caret: *caret,
                band: *band,
                ink: *ink,
            },
            Mark::Level { rect, peak, index, total, color } => MarkView::Level {
                rect: *rect,
                peak: *peak,
                index: *index,
                total: *total,
                color: *color,
            },
            Mark::Clip(rect) => MarkView::Clip(*rect),
            Mark::Unclip => MarkView::Unclip,
        }
    }
}

pub open spec fn marks(list: Seq<Mark>) -> Seq<MarkView> {
    Seq::new(list.len(), |i: int| list[i]@)
}

fn put(out: &mut Vec<Mark>, mark: Mark)
    ensures
        marks(final(out)@) == marks(old(out)@).push(mark@),
{
    let ghost before = marks(out@);
    let ghost m = mark@;
    out.push(mark);
    assert(marks(out@) =~= before.push(m));
}

/// A rectangle near enough to the origin to be reckoned with.
pub open spec fn near(r: Rect) -> bool {
    layout::within(r, 0x1fff_ffff)
}

pub open spec fn said(rect: Rect, text: Seq<char>, style: TextStyle) -> MarkView {
    MarkView::Text { rect, text, style, centered: true }
}

pub open spec fn said_left(rect: Rect, text: Seq<char>, style: TextStyle) -> MarkView {
    MarkView::Text { rect, text, style, centered: false }
}

fn say(out: &mut Vec<Mark>, rect: Rect, text: &str, style: TextStyle)
    ensures
        marks(final(out)@) == marks(old(out)@).push(said(rect, text@, style)),
{
    put(out, Mark::Text { rect, text: text.to_owned(), style, centered: true });
}

fn say_left(out: &mut Vec<Mark>, rect: Rect, text: &str, style: TextStyle)
    ensures
        marks(final(out)@) == marks(old(out)@).push(said_left(rect, text@, style)),
{
    put(out, Mark::Text { rect, text: text.to_owned(), style, centered: false });
}

/// Marks, or none.
pub open spec fn marks_if(there: bool, list: Seq<MarkView>) -> Seq<MarkView> {
    if there {
        list
    } else {
        Seq::empty()
    }
}

fn hovers(ui: &UiState, target: HitTarget) -> (yes: bool)
    ensures
        yes == (ui@.hover == Some(target@)),
{
    same_opt_target(&ui.hover, &Some(target))
}

// --- The titlebar -------------------------------------------------------------------------

/// The glyph of a window button, in a box of ten pixels centred in it. Drawn
/// rather than typeset: the characters it would need are missing from most system
/// fonts.
pub open spec fn glyph_marks(target: HitTargetView, g: Rect, maximized: bool, p: Palette) -> Seq<
    MarkView,
> {
    let ink = p.text_subtle;
    match target {
        HitTargetView::WindowMinimize => seq![
            MarkView::Line {
                x0: g.x,
                y0: (g.y + layout::half(g.h as int)) as i32,
                x1: g.right_edge() as i32,
                y1: (g.y + layout::half(g.h as int)) as i32,
                color: ink,
            },
        ],
        HitTargetView::WindowMaximize => if maximized {
            // A square with a second one peeking out behind it.
            let back = primitives::rect(g.x + 3, g.y as int, g.w - 3, g.h - 3);
            let front = primitives::rect(g.x as int, g.y + 3, g.w - 3, g.h - 3);
            seq![
                MarkView::Border { rect: back, color: ink },
                MarkView::Fill { rect: front, color: p.titlebar },
                MarkView::Border { rect: front, color: ink },
            ]
        } else {
            seq![MarkView::Border { rect: g, color: ink }]
        },
        _ => seq![
            MarkView::Line {
                x0: g.x,
                y0: g.y,
                x1: g.right_edge() as i32,
                y1: g.bottom_edge() as i32,
                color: ink,
            },
            MarkView::Line {
                x0: g.right_edge() as i32,
                y0: g.y,
                x1: g.x,
                y1: g.bottom_edge() as i32,
                color: ink,
            },
        ],
    }
}

/// A window button. Close lights up red, the other two neutral, so the
/// destructive one reads as destructive before it is pressed.
pub open spec fn button_marks(
    rect: Rect,
    target: HitTargetView,
    lit: Color,
    ui: UiModel,
    p: Palette,
) -> Seq<MarkView> {
    marks_if(
        ui.hover == Some(target),
        seq![MarkView::Rounded { rect, radius: PICK_RADIUS, color: lit }],
    ) + glyph_marks(target, rect.shrunk(layout::half(rect.w - 10)), ui.maximized, p)
}

/// The window's own titlebar. Its title's space belongs to the profile chip.
pub open spec fn titlebar_marks(bar: TitlebarGeom, ui: UiModel, p: Palette) -> Seq<MarkView> {
    seq![
        MarkView::Fill { rect: bar.bar, color: p.titlebar },
        MarkView::Rule {
            x: bar.bar.x,
            y: (bar.bar.bottom_edge() - 1) as i32,
            len: bar.bar.w,
            color: p.border,
        },
    ] + button_marks(bar.minimize, HitTargetView::WindowMinimize, p.wash_10, ui, p)
        + button_marks(bar.maximize, HitTargetView::WindowMaximize, p.wash_10, ui, p)
        + button_marks(bar.close, HitTargetView::WindowClose, p.danger_bg, ui, p)
}

fn paint_glyph(out: &mut Vec<Mark>, target: &HitTarget, g: Rect, maximized: bool, p: &Palette)
    requires
        layout::within(g, 0x3000_0000),
    ensures
        marks(final(out)@) == marks(old(out)@) + glyph_marks(target@, g, maximized, *p),
{
    let ghost before = marks(out@);
    let ink = p.text_subtle;
    match target {
        HitTarget::WindowMinimize => {
            let y: i32 = g.y + half_of(g.h);
            put(out, Mark::Line { x0: g.x, y0: y, x1: g.right(), y1: y, color: ink });
        },
        HitTarget::WindowMaximize => {
            if maximized {
                let back = Rect::new(g.x + 3, g.y, g.w - 3, g.h - 3);
                put(out, Mark::Border { rect: back, color: ink });
                let front = Rect::new(g.x, g.y + 3, g.w - 3, g.h - 3);
                put(out, Mark::Fill { rect: front, color: p.titlebar });
                put(out, Mark::Border { rect: front, color: ink });
            } else {
                put(out, Mark::Border { rect: g, color: ink });
            }
        },
        _ => {
            let (r, b): (i32, i32) = (g.right(), g.bottom());
            put(out, Mark::Line { x0: g.x, y0: g.y, x1: r, y1: b, color: ink });
            put(out, Mark::Line { x0: r, y0: g.y, x1: g.x, y1: b, color: ink });
        },
    }
    assert(marks(out@) =~= before + glyph_marks(target@, g, maximized, *p));
}

fn paint_button(
    out: &mut Vec<Mark>,
    rect: Rect,
    target: HitTarget,
    lit: Color,
    ui: &UiState,
    p: &Palette,
)
    requires
        near(rect),
        0 <= rect.w <= 0x1000,
    ensures
        marks(final(out)@) == marks(old(out)@) + button_marks(rect, target@, lit, ui@, *p),
{
    let ghost before = marks(out@);
    if hovers(ui, target.clone()) {
        put(out, Mark::Rounded { rect, radius: PICK_RADIUS, color: lit });
    }
    let ghost first = marks_if(
        ui@.hover == Some(target@),
        seq![MarkView::Rounded { rect, radius: PICK_RADIUS, color: lit }],
    );
    assert(marks(out@) =~= before + first);
    let g = rect.inset(half_of(rect.w - 10));
    paint_glyph(out, &target, g, ui.maximized, p);
    assert(marks(out@) =~= before + button_marks(rect, target@, lit, ui@, *p));
}

/// A titlebar that can be drawn.
pub open spec fn titlebar_near(bar: TitlebarGeom) -> bool {
    &&& near(bar.bar)
    &&& near(bar.minimize) && 0 <= bar.minimize.w <= 0x1000
    &&& near(bar.maximize) && 0 <= bar.maximize.w <= 0x1000
    &&& near(bar.close) && 0 <= bar.close.w <= 0x1000
}

/// Draw the window's own titlebar: the strip and the three window buttons.
fn paint_titlebar(out: &mut Vec<Mark>, bar: &TitlebarGeom, ui: &UiState, p: &Palette)
    requires
        titlebar_near(*bar),
    ensures
        marks(final(out)@) == marks(old(out)@) + titlebar_marks(*bar, ui@, *p),
{
    let ghost before = marks(out@);
    put(out, Mark::Fill { rect: bar.bar, color: p.titlebar });
    put(
        out,
        Mark::Rule { x: bar.bar.x, y: bar.bar.bottom() - 1, len: bar.bar.w, color: p.border },
    );
    paint_button(out, bar.minimize, HitTarget::WindowMinimize, p.wash_10, ui, p);
    paint_button(out, bar.maximize, HitTarget::WindowMaximize, p.wash_10, ui, p);
    paint_button(out, bar.close, HitTarget::WindowClose, p.danger_bg, ui, p);
    assert(marks(out@) =~= before + titlebar_marks(*bar, ui@, *p));
}

// --- Picks ----------------------------------------------------------------------------------

/// How a pick button reads: filled when lit, outlined in the accent when it is
/// the active choice, plain otherwise.
#[derive(Clone, Copy, PartialEq, Eq, Debug, Structural)]
pub struct PickState {
    pub lit: bool,
    pub hovered: bool,
    pub accent: bool,
}

/// The color a pick button's content draws in.
pub open spec fn pick_ink(p: Palette, state: PickState) -> Color {
    if state.lit {
        p.on_filled
    } else if state.accent {
        p.accent
    } else {
        p.text_subtle
    }
}

/// A pick button's background and border.
pub open spec fn pick_frame(rect: Rect, p: Palette, state: PickState) -> Seq<MarkView> {
    let border = if state.lit {
        p.filter
    } else if state.accent {
        p.accent
    } else {
        p.wash_18
    };
    (if state.lit {
        seq![MarkView::Rounded { rect, radius: PICK_RADIUS, color: p.filter }]
    } else {
        marks_if(
            state.hovered,
            seq![MarkView::Rounded { rect, radius: PICK_RADIUS, color: p.wash_5 }],
        )
    }) + seq![MarkView::Outline { rect, radius: PICK_RADIUS, color: border }]
}

/// One small pick button: a hairline-bordered box with a centered label.
pub open spec fn pick_marks(rect: Rect, label: Seq<char>, p: Palette, state: PickState) -> Seq<
    MarkView,
> {
    pick_frame(rect, p, state).push(
        said(rect, label, TextStyle::plain(Number { bits: PICK_SIZE_PT }, pick_ink(p, state))),
    )
}

/// A pick button's background and border, and the color its content draws in.
/// Split out so a button can hold drawn ink instead of a glyph.
fn pick_chrome(out: &mut Vec<Mark>, rect: Rect, p: &Palette, state: PickState) -> (ink: Color)
    ensures
        marks(final(out)@) == marks(old(out)@) + pick_frame(rect, *p, state),
        ink == pick_ink(*p, state),
{
    let ghost before = marks(out@);
    let (border, ink) = if state.lit {
        put(out, Mark::Rounded { rect, radius: PICK_RADIUS, color: p.filter });
        (p.filter, p.on_filled)
    } else {
        if state.hovered {
            put(out, Mark::Rounded { rect, radius: PICK_RADIUS, color: p.wash_5 });
        }
        if state.accent {
            (p.accent, p.accent)
        } else {
            (p.wash_18, p.text_subtle)
        }
    };
    put(out, Mark::Outline { rect, radius: PICK_RADIUS, color: border });
    assert(marks(out@) =~= before + pick_frame(rect, *p, state));
    ink
}

fn pick(out: &mut Vec<Mark>, rect: Rect, label: &str, p: &Palette, state: PickState)
    ensures
        marks(final(out)@) == marks(old(out)@) + pick_marks(rect, label@, *p, state),
{
    let ghost before = marks(out@);
    let ink = pick_chrome(out, rect, p, state);
    say(out, rect, label, TextStyle::new(Number { bits: PICK_SIZE_PT }, ink));
    assert(marks(out@) =~= before + pick_marks(rect, label@, *p, state));
}

// --- The chrome around the columns ------------------------------------------------------------

pub open spec fn section_name(section: Section) -> Seq<char> {
    match section {
        Section::Inputs => "IN"@,
        Section::Outputs => "OUT"@,
        Section::Apps => "APP"@,
    }
}

fn section_label(section: Section) -> (label: &'static str)
    ensures
        label@ == section_name(section),
{
    match section {
        Section::Inputs => "IN",
        Section::Outputs => "OUT",
        Section::Apps => "APP",
    }
}

/// The profile chip: the active profile's name on the left and a drawn caret on
/// the right, which is what makes it read as a menu rather than a button.
pub open spec fn chip_marks(r: Rect, active: Option<Seq<char>>, hovered: bool, p: Palette) -> Seq<
    MarkView,
> {
    let cx = r.right_edge() - 10;
    let cy = r.y + layout::half(r.h as int);
    seq![
        MarkView::Rounded {
            rect: r,
            radius: PICK_RADIUS,
            color: if hovered {
                p.wash_8
            } else {
                p.wash_4
            },
        },
        said_left(
            primitives::rect(
                r.x + PROFILE_PAD_X,
                r.y as int,
                r.w - 20 - PROFILE_PAD_X,
                r.h as int,
            ),
            match active {
                Some(name) => name,
                None => "Profiles"@,
            },
            TextStyle::plain(Number { bits: PROFILE_SIZE }, p.text),
        ),
        MarkView::Triangle {
            a: ((cx - 4) as i32, (cy - 2) as i32),
            b: ((cx + 4) as i32, (cy - 2) as i32),
            c: (cx as i32, (cy + 3) as i32),
            color: p.text,
        },
    ]
}

fn paint_chip(out: &mut Vec<Mark>, r: Rect, active: &Option<String>, hovered: bool, p: &Palette)
    requires
        near(r),
    ensures
        marks(final(out)@) == marks(old(out)@) + chip_marks(r, text::opt(*active), hovered, *p),
{
    let ghost before = marks(out@);
    let wash = if hovered {
        p.wash_8
    } else {
        p.wash_4
    };
    put(out, Mark::Rounded { rect: r, radius: PICK_RADIUS, color: wash });
    let label: &str = match active {
        Some(name) => name.as_str(),
        None => "Profiles",
    };
    say_left(
        out,
        Rect::new(r.x + PROFILE_PAD_X, r.y, r.w - 20 - PROFILE_PAD_X, r.h),
        label,
        TextStyle::new(Number { bits: PROFILE_SIZE }, p.text),
    );
    let cx: i32 = r.right() - 10;
    let cy: i32 = r.y + half_of(r.h);
    put(
        out,
        Mark::Triangle { a: (cx - 4, cy - 2), b: (cx + 4, cy - 2), c: (cx, cy + 3), color: p.text },
    );
    assert(marks(out@) =~= before + chip_marks(r, text::opt(*active), hovered, *p));
}

pub open spec fn plain_pick(hovered: bool) -> PickState {
    PickState { lit: false, hovered, accent: false }
}

/// What of the chrome lies at a hit. Filters light up solid when their section is
/// showing.
pub open spec fn hit_marks(hit: HitModel, snap: SnapshotModel, ui: UiModel, p: Palette) -> Seq<
    MarkView,
> {
    let hovered = ui.hover == Some(hit.target);
    match hit.target {
        HitTargetView::SectionFilter(section) => pick_marks(
            hit.rect,
            section_name(section),
            p,
            PickState { lit: snap.filter.showing(section), hovered, accent: false },
        ),
        HitTargetView::MuteAll => pick_marks(hit.rect, "M"@, p, plain_pick(hovered)),
        HitTargetView::ResetTargets => pick_marks(hit.rect, "R"@, p, plain_pick(hovered)),
        HitTargetView::ProfileSelector => chip_marks(hit.rect, snap.profile.active, hovered, p),
        _ => Seq::empty(),
    }
}

/// What of the chrome lies at the first `n` hits.
pub open spec fn hits_marks(
    hits: Seq<HitModel>,
    snap: SnapshotModel,
    ui: UiModel,
    p: Palette,
    n: int,
) -> Seq<MarkView>
    decreases n,
{
    if n <= 0 {
        Seq::empty()
    } else {
        hits_marks(hits, snap, ui, p, n - 1) + hit_marks(hits[n - 1], snap, ui, p)
    }
}

/// The panels behind the chrome: the profile strip, and the action bar, which
/// carries the surface color so the filters read as chrome beside the mixer.
pub open spec fn backing_marks(layout: LayoutModel, p: Palette) -> Seq<MarkView> {
    (match layout.profile_strip {
        Some(bar) => seq![
            MarkView::Fill { rect: bar, color: p.titlebar },
            MarkView::Rule {
                x: bar.x,
                y: (bar.bottom_edge() - 1) as i32,
                len: bar.w,
                color: p.border,
            },
        ],
        None => Seq::empty(),
    }) + (match layout.sidebar {
        Some(bar) => seq![MarkView::Fill { rect: bar, color: p.surface }],
        None => Seq::empty(),
    })
}

/// The left action bar and the profile strip: the chrome around the columns.
pub open spec fn chrome_marks(layout: LayoutModel, snap: SnapshotModel, ui: UiModel, p: Palette) -> Seq<
    MarkView,
> {
    backing_marks(layout, p) + hits_marks(layout.hits, snap, ui, p, layout.hits.len() as int)
}

fn paint_hit(out: &mut Vec<Mark>, hit: &Hit, snap: &ViewSnapshot, ui: &UiState, p: &Palette)
    requires
        hit.target is ProfileSelector ==> near(hit.rect),
    ensures
        marks(final(out)@) == marks(old(out)@) + hit_marks(hit@, snap@, ui@, *p),
{
    let ghost before = marks(out@);
    let hovered = hovers(ui, hit.target.clone());
    match &hit.target {
        HitTarget::SectionFilter(section) => {
            let lit = snap.filter.shows(*section);
            pick(
                out,
                hit.rect,
                section_label(*section),
                p,
                PickState { lit, hovered, accent: false },
            );
        },
        HitTarget::MuteAll => pick(
            out,
            hit.rect,
            "M",
            p,
            PickState { lit: false, hovered, accent: false },
        ),
        HitTarget::ResetTargets => pick(
            out,
            hit.rect,
            "R",
            p,
            PickState { lit: false, hovered, accent: false },
        ),
        HitTarget::ProfileSelector => paint_chip(out, hit.rect, &snap.profile.active, hovered, p),
        _ => {},
    }
    assert(marks(out@) =~= before + hit_marks(hit@, snap@, ui@, *p));
}

fn paint_backing(out: &mut Vec<Mark>, layout: &Layout, p: &Palette)
    requires
        layout@.profile_strip matches Some(bar) ==> near(bar),
    ensures
        marks(final(out)@) == marks(old(out)@) + backing_marks(layout@, *p),
{
    let ghost before = marks(out@);
    if let Some(bar) = layout.profile_strip {
        put(out, Mark::Fill { rect: bar, color: p.titlebar });
        put(out, Mark::Rule { x: bar.x, y: bar.bottom() - 1, len: bar.w, color: p.border });
    }
    if let Some(bar) = layout.sidebar {
        put(out, Mark::Fill { rect: bar, color: p.surface });
    }
    assert(marks(out@) =~= before + backing_marks(layout@, *p));
}

/// Draw the left action bar and the profile strip: the chrome around the columns,
/// both laid out as small square picks.
fn paint_chrome(out: &mut Vec<Mark>, snap: &ViewSnapshot, layout: &Layout, ui: &UiState, p: &Palette)
    requires
        layout@.profile_strip matches Some(bar) ==> near(bar),
        forall|i: int|
            0 <= i < layout@.hits.len() && (#[trigger] layout@.hits[i]).target is ProfileSelector
                ==> near(layout@.hits[i].rect),
    ensures
        marks(final(out)@) == marks(old(out)@) + chrome_marks(layout@, snap@, ui@, *p),
{
    let ghost before = marks(out@);
    paint_backing(out, layout, p);
    let ghost backed = marks(out@);
    let ghost hits = layout@.hits;
    let mut i: usize = 0;
    assert(backed =~= backed + hits_marks(hits, snap@, ui@, *p, 0));
    while i < layout.hits.len()
        invariant
            i <= layout.hits@.len(),
            hits == layout@.hits,
            forall|k: int|
                0 <= k < hits.len() && (#[trigger] hits[k]).target is ProfileSelector ==> near(
                    hits[k].rect,
                ),
            marks(out@) == backed + hits_marks(hits, snap@, ui@, *p, i as int),
        decreases layout.hits@.len() - i,
    {
        let ghost so_far = hits_marks(hits, snap@, ui@, *p, i as int);
        assert(hits[i as int] == layout.hits@[i as int]@);
        paint_hit(out, &layout.hits[i], snap, ui, p);
        assert(backed + so_far + hit_marks(hits[i as int], snap@, ui@, *p) =~= backed + (so_far
            + hit_marks(hits[i as int], snap@, ui@, *p)));
        i = i + 1;
    }
    assert(marks(out@) =~= before + chrome_marks(layout@, snap@, ui@, *p));
}

// --- A row's data -----------------------------------------------------------------------------

/// What one column needs drawn, unified across device and app rows.
pub struct RowDraw {
    pub label: String,
    /// Device form heading ("SPEAKER", "HEADSET"); empty for app rows.
    pub sublabel: String,
    pub icon_key: String,
    /// The resolved icon file for app rows; none falls back to the tinted tile.
    pub icon_path: Option<String>,
    /// Cubic gain, for the percent readout.
    pub cubic: Gain,
    /// The sink an app row is pinned to; none is autoroute.
    pub target_sink: Option<u32>,
    pub muted: bool,
    pub warning: bool,
    pub tombstoned: bool,
    pub is_default: bool,
    pub is_app: bool,
    pub member_count: usize,
    pub is_expanded: bool,
    pub can_expand: bool,
}

#[verifier::ext_equal]
pub struct RowDrawModel {
    pub label: Seq<char>,
    pub sublabel: Seq<char>,
    pub icon_key: Seq<char>,
    pub icon_path: Option<Seq<char>>,
    pub cubic: Gain,
    pub target_sink: Option<u32>,
    pub muted: bool,
    pub warning: bool,
    pub tombstoned: bool,
    pub is_default: bool,
    pub is_app: bool,
    pub member_count: usize,
    pub is_expanded: bool,
    pub can_expand: bool,
}

impl View for RowDraw {
    type V = RowDrawModel;

    open spec fn view(&self) -> RowDrawModel {
        RowDrawModel {
            label: self.label@,
            sublabel: self.sublabel@,
            icon_key: self.icon_key@,
            icon_path: text::opt(self.icon_path),
            cubic: self.cubic,
            target_sink: self.target_sink,
            muted: self.muted,
            warning: self.warning,
            tombstoned: self.tombstoned,
            is_default: self.is_default,
            is_app: self.is_app,
            member_count: self.member_count,
            is_expanded: self.is_expanded,
            can_expand: self.can_expand,
        }
    }
}

pub open spec fn draw_view(row: Option<RowDraw>) -> Option<RowDrawModel> {
    match row {
        Some(r) => Some(r@),
        None => None,
    }
}

pub open spec fn device_draw(d: DeviceRowModel) -> RowDrawModel {
    RowDrawModel {
        label: d.label,
        sublabel: d.sublabel,
        icon_key: d.label,
        icon_path: None,
        cubic: d.cubic,
        target_sink: None,
        muted: d.muted,
        warning: d.warning,
        tombstoned: false,
        is_default: d.is_default,
        is_app: false,
        member_count: 1,
        is_expanded: false,
        can_expand: false,
    }
}

pub open spec fn app_draw(a: AppRowModel) -> RowDrawModel {
    RowDrawModel {
        label: a.label,
        sublabel: Seq::empty(),
        icon_key: a.icon_key,
        icon_path: a.icon_path,
        cubic: a.cubic,
        target_sink: a.target_sink,
        muted: a.muted,
        warning: a.warning,
        tombstoned: a.tombstoned,
        is_default: false,
        is_app: true,
        member_count: a.member_count,
        is_expanded: a.is_expanded,
        can_expand: a.can_expand,
    }
}

/// The first device row with an id, from `from` on.
pub open spec fn device_with(rows: Seq<DeviceRowModel>, id: RowIdView, from: int) -> Option<int>
    decreases rows.len() - from,
{
    if from >= rows.len() {
        None
    } else if rows[from].id == id {
        Some(from)
    } else {
        device_with(rows, id, from + 1)
    }
}

/// The first app row with an id, from `from` on.
pub open spec fn app_with(rows: Seq<AppRowModel>, id: RowIdView, from: int) -> Option<int>
    decreases rows.len() - from,
{
    if from >= rows.len() {
        None
    } else if rows[from].id == id {
        Some(from)
    } else {
        app_with(rows, id, from + 1)
    }
}

/// The draw data for the row a column shows: among the outputs, then the inputs,
/// then the apps.
pub open spec fn draw_of(snap: SnapshotModel, id: RowIdView) -> Option<RowDrawModel> {
    match device_with(snap.sinks, id, 0) {
        Some(i) => Some(device_draw(snap.sinks[i])),
        None => match device_with(snap.sources, id, 0) {
            Some(i) => Some(device_draw(snap.sources[i])),
            None => match app_with(snap.app_rows, id, 0) {
                Some(i) => Some(app_draw(snap.app_rows[i])),
                None => None,
            },
        },
    }
}

fn find_device(rows: &Vec<DeviceRowView>, id: &RowId) -> (draw: Option<RowDraw>)
    ensures
        draw_view(draw) == match device_with(snapshot::device_rows(rows@), id@, 0) {
            Some(i) => Some(device_draw(snapshot::device_rows(rows@)[i])),
            None => None,
        },
{
    let ghost all = snapshot::device_rows(rows@);
    let mut i: usize = 0;
    while i < rows.len()
        invariant
            i <= rows@.len(),
            all == snapshot::device_rows(rows@),
            device_with(all, id@, 0) == device_with(all, id@, i as int),
        decreases rows@.len() - i,
    {
        let d = &rows[i];
        assert(all[i as int] == d@);
        if same_row(&d.id, id) {
            return Some(
                RowDraw {
                    label: d.label.clone(),
                    sublabel: d.sublabel.clone(),
                    icon_key: d.label.clone(),
                    icon_path: None,
                    cubic: d.cubic,
                    target_sink: None,
                    muted: d.muted,
                    warning: d.warning,
                    tombstoned: false,
                    is_default: d.is_default,
                    is_app: false,
                    member_count: 1,
                    is_expanded: false,
                    can_expand: false,
                },
            );
        }
        i = i + 1;
    }
    None
}

fn find_app(rows: &Vec<AppRowView>, id: &RowId) -> (draw: Option<RowDraw>)
    ensures
        draw_view(draw) == match app_with(snapshot::app_rows(rows@), id@, 0) {
            Some(i) => Some(app_draw(snapshot::app_rows(rows@)[i])),
            None => None,
        },
{
    let ghost all = snapshot::app_rows(rows@);
    let mut i: usize = 0;
    while i < rows.len()
        invariant
            i <= rows@.len(),
            all == snapshot::app_rows(rows@),
            app_with(all, id@, 0) == app_with(all, id@, i as int),
        decreases rows@.len() - i,
    {
        let a = &rows[i];
        assert(all[i as int] == a@);
        if same_row(&a.id, id) {
            let sublabel: String = String::new();
            assert(sublabel@ =~= Seq::<char>::empty());
            return Some(
                RowDraw {
                    label: a.label.clone(),
                    sublabel,
                    icon_key: a.icon_key.clone(),
                    icon_path: clone_opt(&a.icon_path),
                    cubic: a.cubic,
                    target_sink: a.target_sink,
                    muted: a.muted,
                    warning: a.warning,
                    tombstoned: a.tombstoned,
                    is_default: false,
                    is_app: true,
                    member_count: a.member_count,
                    is_expanded: a.is_expanded,
                    can_expand: a.can_expand,
                },
            );
        }
        i = i + 1;
    }
    None
}

/// The draw data for the row a column shows, read straight off the snapshot.
pub fn row_draw(snap: &ViewSnapshot, id: &RowId) -> (draw: Option<RowDraw>)
    ensures
        draw_view(draw) == draw_of(snap@, id@),
{
    if let Some(d) = find_device(&snap.sinks, id) {
        return Some(d);
    }
    if let Some(d) = find_device(&snap.sources, id) {
        return Some(d);
    }
    find_app(&snap.app_rows, id)
}

// --- The meter ------------------------------------------------------------------------------------

pub open spec fn tier_ink(tier: Tier, p: Palette) -> Color {
    match tier {
        Tier::Neutral => p.meter_neutral,
        Tier::Green => p.meter_green,
        Tier::Amber => p.meter_amber,
        Tier::Red => p.meter_red,
    }
}

fn tier_color(tier: Tier, p: &Palette) -> (c: Color)
    ensures
        c == tier_ink(tier, *p),
{
    match tier {
        Tier::Neutral => p.meter_neutral,
        Tier::Green => p.meter_green,
        Tier::Amber => p.meter_amber,
        Tier::Red => p.meter_red,
    }
}

/// How wide each of `n` bars is, one pixel apart.
pub open spec fn bar_width(w: int, n: int) -> int {
    if w - (n - 1) < n {
        1
    } else {
        (w - (n - 1)) / n
    }
}

/// A cell of a bar, counted from the bottom. Whole rows throughout: the pitch
/// divides the strip evenly, so every cell is the same height.
pub open spec fn cell(area: Rect, x: int, w: int, i: int) -> Rect {
    primitives::rect(x, area.bottom_edge() - i * 4 - 3, w, 3)
}

/// The first `k` cells of a bar, each dim under what its peak lights of it.
pub open spec fn cells_marks(
    area: Rect,
    x: int,
    w: int,
    peak: Gain,
    total: int,
    p: Palette,
    k: int,
) -> Seq<MarkView>
    decreases k,
{
    if k <= 0 {
        Seq::empty()
    } else {
        cells_marks(area, x, w, peak, total, p, k - 1) + seq![
            MarkView::Fill { rect: cell(area, x, w, k - 1), color: p.dim_grid },
            MarkView::Level {
                rect: cell(area, x, w, k - 1),
                peak,
                index: (k - 1) as i32,
                total: total as i32,
                color: tier_ink(meter::tier(k - 1, total), p),
            },
        ]
    }
}

/// Where a bar's peak stands; bars without a channel are silent.
pub open spec fn peak_of(channels: Seq<Gain>, b: int) -> Gain {
    if b < channels.len() {
        channels[b]
    } else {
        Gain { bits: 0 }
    }
}

/// The first `b` of a meter's `n` bars.
pub open spec fn bars_marks(area: Rect, channels: Seq<Gain>, n: int, p: Palette, b: int) -> Seq<
    MarkView,
>
    decreases b,
{
    if b <= 0 {
        Seq::empty()
    } else {
        let w = bar_width(area.w as int, n);
        let total = meter::cells(area.h as int);
        bars_marks(area, channels, n, p, b - 1) + cells_marks(
            area,
            area.x + (b - 1) * (w + 1),
            w,
            peak_of(channels, b - 1),
            total,
            p,
            total,
        )
    }
}

/// A row's level meter: a bar per channel.
pub open spec fn meter_marks(area: Rect, channels: Seq<Gain>, p: Palette) -> Seq<MarkView> {
    let n = if channels.len() == 0 {
        meter::ASSUMED_CHANNELS as int
    } else {
        channels.len() as int
    };
    bars_marks(area, channels, n, p, n)
}

fn paint_bar(out: &mut Vec<Mark>, area: Rect, x: i32, w: i32, peak: Gain, p: &Palette)
    requires
        near(area),
        area.h <= 0x100_0000,
    ensures
        marks(final(out)@) == marks(old(out)@) + cells_marks(
            area,
            x as int,
            w as int,
            peak,
            meter::cells(area.h as int),
            *p,
            meter::cells(area.h as int),
        ),
{
    let ghost before = marks(out@);
    let total: i32 = segments_for(area.h);
    let ghost t = total as int;
    let mut i: i32 = 0;
    assert(before =~= before + cells_marks(area, x as int, w as int, peak, t, *p, 0));
    while i < total
        invariant
            0 <= i <= total <= 0x100_0000,
            t == total,
            near(area),
            marks(out@) == before + cells_marks(area, x as int, w as int, peak, t, *p, i as int),
        decreases total - i,
    {
        let ghost so_far = cells_marks(area, x as int, w as int, peak, t, *p, i as int);
        let rect = Rect::new(x, area.bottom() - i * 4 - 3, w, 3);
        let color = tier_color(segment_tier(i, total), p);
        put(out, Mark::Fill { rect, color: p.dim_grid });
        put(out, Mark::Level { rect, peak, index: i, total, color });
        i = i + 1;
        assert(marks(out@) =~= before + cells_marks(
            area,
            x as int,
            w as int,
            peak,
            t,
            *p,
            i as int,
        ));
    }
}

fn paint_meter(out: &mut Vec<Mark>, area: Rect, channels: &Vec<Gain>, p: &Palette)
    requires
        near(area),
        area.h <= 0x100_0000,
        channels@.len() <= 0x1000,
        area.w <= 0x1_0000,
    ensures
        marks(final(out)@) == marks(old(out)@) + meter_marks(area, channels@, *p),
{
    let ghost before = marks(out@);
    let n: i32 = bar_count(channels.len()) as i32;
    let room: i32 = area.w - (n - 1);
    let w: i32 = if room < n {
        1
    } else {
        room / n
    };
    assert(w == bar_width(area.w as int, n as int));
    assert(1 <= w <= 0x1_0000) by (nonlinear_arith)
        requires
            w == 1 || w == room / n,
            room <= 0x1_0000,
            n >= 1,
            w != 1 ==> room >= n,
    ;
    let mut b: i32 = 0;
    assert(before =~= before + bars_marks(area, channels@, n as int, *p, 0));
    while b < n
        invariant
            0 <= b <= n <= 0x1000,
            near(area),
            area.h <= 0x100_0000,
            1 <= w <= 0x1_0000,
            w == bar_width(area.w as int, n as int),
            marks(out@) == before + bars_marks(area, channels@, n as int, *p, b as int),
        decreases n - b,
    {
        let peak = if (b as usize) < channels.len() {
            channels[b as usize]
        } else {
            Gain { bits: 0 }
        };
        assert(0 <= b * (w + 1) <= 0x1000 * 0x1_0001) by (nonlinear_arith)
            requires
                0 <= b <= 0x1000,
                1 <= w <= 0x1_0000,
        ;
        let x: i32 = area.x + b * (w + 1);
        paint_bar(out, area, x, w, peak, p);
        b = b + 1;
        assert(marks(out@) =~= before + bars_marks(area, channels@, n as int, *p, b as int));
    }
}

// --- The fader ------------------------------------------------------------------------------------

/// One of the circles a knob's shadow stacks into a falloff: the knob's own,
/// pushed down and spread.
pub open spec fn shadow_ring(thumb: Rect, dy: int, blur: int, color: Color, i: int) -> MarkView {
    let r = thumb.shrunk(i - blur / 2);
    MarkView::Rounded {
        rect: primitives::rect(r.x as int, r.y + dy, r.w as int, r.h as int),
        radius: layout::half(r.h as int) as i32,
        color: color.covering((255int / blur) as u8),
    }
}

pub open spec fn shadow_marks(thumb: Rect, dy: int, blur: int, color: Color) -> Seq<MarkView> {
    Seq::new(blur as nat, |i: int| shadow_ring(thumb, dy, blur, color, i))
}

/// Lay a soft shadow under the knob: the same circle pushed down by `dy` and
/// spread over `blur` pixels.
fn knob_shadow(out: &mut Vec<Mark>, thumb: Rect, dy: i32, blur: i32, color: Color)
    requires
        near(thumb),
        0 <= dy <= 100,
        1 <= blur <= 100,
    ensures
        marks(final(out)@) == marks(old(out)@) + shadow_marks(
            thumb,
            dy as int,
            blur as int,
            color,
        ),
{
    let ghost before = marks(out@);
    let ghost all = shadow_marks(thumb, dy as int, blur as int, color);
    let alpha: u8 = (255 / blur) as u8;
    let mut i: i32 = 0;
    while i < blur
        invariant
            0 <= i <= blur <= 100,
            1 <= blur,
            0 <= dy <= 100,
            near(thumb),
            alpha == (255int / blur as int) as u8,
            all == shadow_marks(thumb, dy as int, blur as int, color),
            marks(out@) == before + all.take(i as int),
        decreases blur - i,
    {
        let r = thumb.inset(i - blur / 2);
        let rect = Rect::new(r.x, r.y + dy, r.w, r.h);
        put(out, Mark::Rounded { rect, radius: half_of(r.h), color: color.scale_alpha(alpha) });
        assert(all.take(i + 1) =~= all.take(i as int).push(all[i as int]));
        i = i + 1;
        assert(marks(out@) =~= before + all.take(i as int));
    }
    assert(all.take(i as int) =~= all);
}

/// How wide the ring around a lit knob gets.
pub const HALO_WIDTH: i32 = 5;

/// The part of `n` that a strength is of the whole fade, rounded.
pub open spec fn faded_in(n: int, strength: u64) -> int {
    (2 * n * strength + FADE) / (2 * FADE as int)
}

/// A hard ring around the knob, as far as it has faded in. It grows out of the
/// knob's edge rather than fading in at its full width: at this alpha the width is
/// most of what the eye catches.
pub open spec fn halo_marks(thumb: Rect, strength: u64, p: Palette) -> Seq<MarkView> {
    let ring = thumb.shrunk(-faded_in(HALO_WIDTH as int, strength));
    marks_if(
        faded_in(HALO_WIDTH as int, strength) > 0,
        seq![
            MarkView::Rounded {
                rect: ring,
                radius: layout::half(ring.h as int) as i32,
                color: p.knob_halo.covering(faded_in(255, strength) as u8),
            },
        ],
    )
}

fn fade_in(n: u64, strength: u64) -> (v: u64)
    requires
        n <= 255,
        strength <= FADE,
    ensures
        v == faded_in(n as int, strength),
        v <= n,
{
    assert(2 * n * strength <= 2 * n * FADE && 2 * n * FADE <= 510 * FADE) by (nonlinear_arith)
        requires
            n <= 255,
            strength <= FADE,
    ;
    let v: u64 = (2 * n * strength + FADE) / (2 * FADE);
    assert(v <= n) by (nonlinear_arith)
        requires
            v == (2 * n * strength + FADE) / (2 * FADE as int),
            2 * n * strength <= 2 * n * FADE,
            FADE > 0,
    ;
    v
}

fn paint_halo(out: &mut Vec<Mark>, thumb: Rect, strength: u64, p: &Palette)
    requires
        near(thumb),
        strength <= FADE,
    ensures
        marks(final(out)@) == marks(old(out)@) + halo_marks(thumb, strength, *p),
{
    let ghost before = marks(out@);
    let width: i32 = fade_in(5, strength) as i32;
    if width > 0 {
        let ring = thumb.inset(-width);
        let alpha: u8 = fade_in(255, strength) as u8;
        let color = p.knob_halo.scale_alpha(alpha);
        // Drawn before the knob, so the knob covers the inner half and only the
        // ring shows.
        put(out, Mark::Rounded { rect: ring, radius: half_of(ring.h), color });
    }
    assert(marks(out@) =~= before + halo_marks(thumb, strength, *p));
}

/// The fader: a rounded trough, the fill from the bottom up to the value, the
/// unity notch, the ring while it shows, and the round knob riding on top of two
/// stacked shadows.
pub open spec fn slider_marks(s: SliderGeom, warning: bool, strength: u64, p: Palette) -> Seq<
    MarkView,
> {
    seq![
        MarkView::Rounded { rect: s.track, radius: 3, color: p.dim_grid },
        MarkView::Rounded {
            rect: s.fill,
            radius: 3,
            color: if warning {
                p.scale_fill_warning
            } else {
                p.scale_fill
            },
        },
        MarkView::Rule {
            x: (s.track.x + layout::half(s.track.w as int) - 2) as i32,
            y: s.unity_y,
            len: 4,
            color: p.unity_notch,
        },
    ] + halo_marks(s.thumb, strength, p) + shadow_marks(s.thumb, 1, 2, p.shadow_strong)
        + shadow_marks(s.thumb, 2, 4, p.shadow_soft) + seq![
        MarkView::Rounded {
            rect: s.thumb,
            radius: layout::half(s.thumb.h as int) as i32,
            color: p.surface,
        },
    ]
}

fn paint_slider(out: &mut Vec<Mark>, s: &SliderGeom, warning: bool, strength: u64, p: &Palette)
    requires
        strength <= FADE,
        near(s.track),
        near(s.thumb),
    ensures
        marks(final(out)@) == marks(old(out)@) + slider_marks(*s, warning, strength, *p),
{
    let ghost before = marks(out@);
    put(out, Mark::Rounded { rect: s.track, radius: 3, color: p.dim_grid });
    let fill = if warning {
        p.scale_fill_warning
    } else {
        p.scale_fill
    };
    put(out, Mark::Rounded { rect: s.fill, radius: 3, color: fill });
    // A short reference notch centered on the trough, so it reads as part of the
    // fader rather than a rule across the column.
    put(
        out,
        Mark::Rule {
            x: s.track.x + half_of(s.track.w) - 2,
            y: s.unity_y,
            len: 4,
            color: p.unity_notch,
        },
    );
    paint_halo(out, s.thumb, strength, p);
    knob_shadow(out, s.thumb, 1, 2, p.shadow_strong);
    knob_shadow(out, s.thumb, 2, 4, p.shadow_soft);
    put(out, Mark::Rounded { rect: s.thumb, radius: half_of(s.thumb.h), color: p.surface });
    assert(marks(out@) =~= before + slider_marks(*s, warning, strength, *p));
}

// --- A column ---------------------------------------------------------------------------------------

/// An app's header: its icon over its name, dimmed while it is idle.
pub open spec fn app_header(col: ColumnModel, row: RowDrawModel, p: Palette) -> Seq<MarkView> {
    seq![
        MarkView::Icon { rect: col.icon, path: row.icon_path, key: row.icon_key },
        said(
            col.name,
            row::name_shown(row.label, row.tombstoned, row.member_count),
            TextStyle::plain(
                Number { bits: DEVICE_NAME_SIZE },
                if row.tombstoned {
                    p.text_muted
                } else {
                    p.text_subtle
                },
            ),
        ),
    ]
}

/// A device's header: its form as an all-caps heading, in the accent while it is
/// the default, over its name.
pub open spec fn device_header(col: ColumnModel, row: RowDrawModel, p: Palette) -> Seq<MarkView> {
    seq![
        said(
            col.name,
            row.sublabel,
            TextStyle {
                size: Number { bits: TYPE_SIZE },
                color: if row.is_default {
                    p.accent
                } else {
                    p.text_muted
                },
                tracking: TYPE_TRACKING,
                bold: true,
            },
        ),
        said(
            col.sub,
            row::name_shown(row.label, false, 1),
            TextStyle::plain(Number { bits: DEVICE_NAME_SIZE }, p.text_subtle),
        ),
    ]
}

fn paint_header(out: &mut Vec<Mark>, col: &ColumnGeom, row: &RowDraw, p: &Palette)
    ensures
        marks(final(out)@) == marks(old(out)@) + if row.is_app {
            app_header(col@, row@, *p)
        } else {
            device_header(col@, row@, *p)
        },
{
    let ghost before = marks(out@);
    if row.is_app {
        put(
            out,
            Mark::Icon {
                rect: col.icon,
                path: clone_opt(&row.icon_path),
                key: row.icon_key.clone(),
            },
        );
        let color = if row.tombstoned {
            p.text_muted
        } else {
            p.text_subtle
        };
        let name = name_text(row.label.as_str(), row.tombstoned, row.member_count);
        say(out, col.name, name.as_str(), TextStyle::new(Number { bits: DEVICE_NAME_SIZE }, color));
        assert(marks(out@) =~= before + app_header(col@, row@, *p));
    } else {
        let color = if row.is_default {
            p.accent
        } else {
            p.text_muted
        };
        let style = TextStyle::new(Number { bits: TYPE_SIZE }, color).spread(TYPE_TRACKING).bold();
        say(out, col.name, row.sublabel.as_str(), style);
        let name = name_text(row.label.as_str(), false, 1);
        say(out, col.sub, name.as_str(), TextStyle::new(Number { bits: DEVICE_NAME_SIZE }, p.text_subtle));
        assert(marks(out@) =~= before + device_header(col@, row@, *p));
    }
}

/// The expand toggle, lit while the group is open, its triangle pointing down
/// then. Drawn rather than typeset: the triangles are absent from most UI fonts.
pub open spec fn expand_marks(col: ColumnModel, row: RowDrawModel, ui: UiModel, p: Palette) -> Seq<
    MarkView,
> {
    let state = PickState {
        lit: row.is_expanded,
        hovered: ui.hover == Some(HitTargetView::AppExpand(col.id)),
        accent: false,
    };
    let x = col.expand.x + layout::half(col.expand.w as int);
    let y = col.expand.y + layout::half(col.expand.h as int);
    pick_frame(col.expand, p, state).push(
        if row.is_expanded {
            MarkView::Triangle {
                a: ((x - 4) as i32, (y - 2) as i32),
                b: ((x + 4) as i32, (y - 2) as i32),
                c: (x as i32, (y + 3) as i32),
                color: pick_ink(p, state),
            }
        } else {
            MarkView::Triangle {
                a: ((x - 2) as i32, (y - 4) as i32),
                b: ((x - 2) as i32, (y + 4) as i32),
                c: ((x + 3) as i32, y as i32),
                color: pick_ink(p, state),
            }
        },
    )
}

fn paint_expand(out: &mut Vec<Mark>, col: &ColumnGeom, row: &RowDraw, ui: &UiState, p: &Palette)
    requires
        near(col.expand),
    ensures
        marks(final(out)@) == marks(old(out)@) + expand_marks(col@, row@, ui@, *p),
{
    let ghost before = marks(out@);
    let state = PickState {
        lit: row.is_expanded,
        hovered: hovers(ui, HitTarget::AppExpand(col.id.clone())),
        accent: false,
    };
    let ink = pick_chrome(out, col.expand, p, state);
    let x: i32 = col.expand.x + half_of(col.expand.w);
    let y: i32 = col.expand.y + half_of(col.expand.h);
    if row.is_expanded {
        put(
            out,
            Mark::Triangle { a: (x - 4, y - 2), b: (x + 4, y - 2), c: (x, y + 3), color: ink },
        );
    } else {
        put(
            out,
            Mark::Triangle { a: (x - 2, y - 4), b: (x - 2, y + 4), c: (x + 3, y), color: ink },
        );
    }
    assert(marks(out@) =~= before + expand_marks(col@, row@, ui@, *p));
}

/// The first sink on offer with an id, from `from` on.
pub open spec fn option_with(sinks: Seq<SinkOptionModel>, id: u32, from: int) -> Option<int>
    decreases sinks.len() - from,
{
    if from >= sinks.len() {
        None
    } else if sinks[from].id == id {
        Some(from)
    } else {
        option_with(sinks, id, from + 1)
    }
}

/// A pin's letter: automatic, the sink's initial, or a sink that is no longer
/// there.
pub open spec fn pin_letter(sinks: Seq<SinkOptionModel>, sink: Option<u32>) -> char {
    match sink {
        None => 'A',
        Some(id) => match option_with(sinks, id, 0) {
            Some(i) => sinks[i].short,
            None => '?',
        },
    }
}

fn pin_label(sinks: &Vec<SinkOption>, sink: Option<u32>) -> (letter: char)
    ensures
        letter == pin_letter(snapshot::options(sinks@), sink),
{
    let id: u32 = match sink {
        None => {
            return 'A';
        },
        Some(id) => id,
    };
    let ghost all = snapshot::options(sinks@);
    let mut i: usize = 0;
    while i < sinks.len()
        invariant
            i <= sinks@.len(),
            all == snapshot::options(sinks@),
            sink == Some(id),
            option_with(all, id, 0) == option_with(all, id, i as int),
        decreases sinks@.len() - i,
    {
        assert(all[i as int] == sinks@[i as int]@);
        if sinks[i].id == id {
            return sinks[i].short;
        }
        i = i + 1;
    }
    '?'
}

/// One routing pin.
pub open spec fn pin_marks(
    col: ColumnModel,
    row: RowDrawModel,
    ui: UiModel,
    sinks: Seq<SinkOptionModel>,
    p: Palette,
    i: int,
) -> Seq<MarkView> {
    let (rect, sink) = col.targets[i];
    pick_marks(
        rect,
        seq![pin_letter(sinks, sink)],
        p,
        PickState {
            lit: false,
            hovered: ui.hover == Some(HitTargetView::AppTarget { row: col.id, sink }),
            accent: sink == row.target_sink,
        },
    )
}

/// The first `n` routing pins.
pub open spec fn pins_marks(
    col: ColumnModel,
    row: RowDrawModel,
    ui: UiModel,
    sinks: Seq<SinkOptionModel>,
    p: Palette,
    n: int,
) -> Seq<MarkView>
    decreases n,
{
    if n <= 0 {
        Seq::empty()
    } else {
        pins_marks(col, row, ui, sinks, p, n - 1) + pin_marks(col, row, ui, sinks, p, n - 1)
    }
}

fn paint_pins(
    out: &mut Vec<Mark>,
    col: &ColumnGeom,
    row: &RowDraw,
    ui: &UiState,
    sinks: &Vec<SinkOption>,
    p: &Palette,
)
    ensures
        marks(final(out)@) == marks(old(out)@) + pins_marks(
            col@,
            row@,
            ui@,
            snapshot::options(sinks@),
            *p,
            col.targets@.len() as int,
        ),
{
    let ghost before = marks(out@);
    let ghost opts = snapshot::options(sinks@);
    let mut i: usize = 0;
    assert(before =~= before + pins_marks(col@, row@, ui@, opts, *p, 0));
    while i < col.targets.len()
        invariant
            i <= col.targets@.len(),
            opts == snapshot::options(sinks@),
            marks(out@) == before + pins_marks(col@, row@, ui@, opts, *p, i as int),
        decreases col.targets@.len() - i,
    {
        let (rect, sink): (Rect, Option<u32>) = col.targets[i];
        let mut label: String = String::new();
        label.push(pin_label(sinks, sink));
        assert(label@ =~= seq![pin_letter(opts, sink)]);
        let state = PickState {
            lit: false,
            hovered: hovers(ui, HitTarget::AppTarget { row: col.id.clone(), sink }),
            accent: sink == row.target_sink,
        };
        pick(out, rect, label.as_str(), p, state);
        i = i + 1;
        assert(marks(out@) =~= before + pins_marks(col@, row@, ui@, opts, *p, i as int));
    }
}

/// The mute button, filled while the row is muted.
pub open spec fn mute_marks(col: ColumnModel, row: RowDrawModel, ui: UiModel, p: Palette) -> Seq<
    MarkView,
> {
    if row.muted {
        seq![
            MarkView::Rounded { rect: col.mute, radius: PICK_RADIUS, color: p.warning },
            MarkView::Outline { rect: col.mute, radius: PICK_RADIUS, color: p.warning },
            said(col.mute, "M"@, TextStyle::plain(Number { bits: PICK_SIZE_PT }, p.on_filled)),
        ]
    } else {
        pick_marks(
            col.mute,
            "M"@,
            p,
            plain_pick(ui.hover == Some(HitTargetView::RowMute(col.id))),
        )
    }
}

fn paint_mute(out: &mut Vec<Mark>, col: &ColumnGeom, row: &RowDraw, ui: &UiState, p: &Palette)
    ensures
        marks(final(out)@) == marks(old(out)@) + mute_marks(col@, row@, ui@, *p),
{
    let ghost before = marks(out@);
    if row.muted {
        put(out, Mark::Rounded { rect: col.mute, radius: PICK_RADIUS, color: p.warning });
        put(out, Mark::Outline { rect: col.mute, radius: PICK_RADIUS, color: p.warning });
        say(out, col.mute, "M", TextStyle::new(Number { bits: PICK_SIZE_PT }, p.on_filled));
    } else {
        let hovered = hovers(ui, HitTarget::RowMute(col.id.clone()));
        pick(out, col.mute, "M", p, PickState { lit: false, hovered, accent: false });
    }
    assert(marks(out@) =~= before + mute_marks(col@, row@, ui@, *p));
}

/// The percent rides on the knob, quiet enough to read as detail.
pub open spec fn readout_mark(col: ColumnModel, row: RowDrawModel, p: Palette) -> MarkView {
    said(
        col.slider.thumb,
        row::readout(row.cubic),
        TextStyle {
            size: Number { bits: KNOB_VALUE_SIZE },
            color: if row.warning {
                p.warning
            } else {
                p.text_muted
            },
            tracking: 0,
            bold: true,
        },
    )
}

/// A column's buttons: the expand toggle and the pins of an app, then mute.
pub open spec fn buttons_marks(
    col: ColumnModel,
    row: RowDrawModel,
    ui: UiModel,
    sinks: Seq<SinkOptionModel>,
    p: Palette,
) -> Seq<MarkView> {
    marks_if(row.is_app && row.can_expand, expand_marks(col, row, ui, p)) + marks_if(
        row.is_app,
        pins_marks(col, row, ui, sinks, p, col.targets.len() as int),
    ) + mute_marks(col, row, ui, p)
}

/// One column: expanded sub-rows get a quiet wash so a parent and its children
/// read as one app; then the header, the meter, the fader, its readout, the
/// buttons, and the hairline closing the column on its right.
pub open spec fn column_marks(
    col: ColumnModel,
    row: RowDrawModel,
    ui: UiModel,
    sinks: Seq<SinkOptionModel>,
    p: Palette,
) -> Seq<MarkView> {
    marks_if(
        col.id is AppMember,
        seq![MarkView::Fill { rect: col.rect, color: p.wash_4 }],
    ) + (if row.is_app {
        app_header(col, row, p)
    } else {
        device_header(col, row, p)
    }) + meter_marks(col.meter, meter::bars(ui.meters, col.id), p) + slider_marks(
        col.slider,
        row.warning,
        ui.halo.strength(col.id),
        p,
    ) + seq![readout_mark(col, row, p)] + buttons_marks(col, row, ui, sinks, p) + seq![
        MarkView::Fill { rect: col.separator, color: p.wash_6 },
    ]
}

/// A column that can be drawn.
pub open spec fn column_near(col: ColumnModel, ui: UiModel) -> bool {
    &&& near(col.meter) && col.meter.h <= 0x100_0000 && col.meter.w <= 0x1_0000
    &&& near(col.slider.track)
    &&& near(col.slider.thumb)
    &&& near(col.expand)
    &&& meter::bars(ui.meters, col.id).len() <= 0x1000
}

fn paint_buttons(
    out: &mut Vec<Mark>,
    col: &ColumnGeom,
    row: &RowDraw,
    ui: &UiState,
    sinks: &Vec<SinkOption>,
    p: &Palette,
)
    requires
        near(col.expand),
    ensures
        marks(final(out)@) == marks(old(out)@) + buttons_marks(
            col@,
            row@,
            ui@,
            snapshot::options(sinks@),
            *p,
        ),
{
    let ghost before = marks(out@);
    let ghost opts = snapshot::options(sinks@);
    if row.is_app && row.can_expand {
        paint_expand(out, col, row, ui, p);
    }
    let ghost first = marks_if(
        row.is_app && row.can_expand,
        expand_marks(col@, row@, ui@, *p),
    );
    assert(marks(out@) =~= before + first);
    if row.is_app {
        paint_pins(out, col, row, ui, sinks, p);
    }
    let ghost second = marks_if(
        row.is_app,
        pins_marks(col@, row@, ui@, opts, *p, col.targets@.len() as int),
    );
    assert(marks(out@) =~= before + first + second);
    paint_mute(out, col, row, ui, p);
    assert(marks(out@) =~= before + buttons_marks(col@, row@, ui@, opts, *p));
}

/// Draw one column.
#[verifier::rlimit(50)]
fn paint_column(
    out: &mut Vec<Mark>,
    col: &ColumnGeom,
    row: &RowDraw,
    ui: &UiState,
    sinks: &Vec<SinkOption>,
    p: &Palette,
)
    requires
        column_near(col@, ui@),
    ensures
        marks(final(out)@) == marks(old(out)@) + column_marks(
            col@,
            row@,
            ui@,
            snapshot::options(sinks@),
            *p,
        ),
{
    let ghost before = marks(out@);
    let ghost opts = snapshot::options(sinks@);
    if let RowId::AppMember(_) = &col.id {
        put(out, Mark::Fill { rect: col.rect, color: p.wash_4 });
    }
    let ghost wash = marks_if(
        col@.id is AppMember,
        seq![MarkView::Fill { rect: col.rect, color: p.wash_4 }],
    );
    assert(marks(out@) =~= before + wash);
    paint_header(out, col, row, p);
    let ghost a = marks(out@);
    let channels = ui.meters.channels(&col.id);
    paint_meter(out, col.meter, &channels, p);
    paint_slider(out, &col.slider, row.warning, ui.halo.strength(&col.id), p);
    let ghost b = marks(out@);
    let color = if row.warning {
        p.warning
    } else {
        p.text_muted
    };
    let percent = readout_text(row.cubic);
    say(out, col.slider.thumb, percent.as_str(), TextStyle::new(Number { bits: KNOB_VALUE_SIZE }, color).bold());
    paint_buttons(out, col, row, ui, sinks, p);
    put(out, Mark::Fill { rect: col.separator, color: p.wash_6 });
    assert(marks(out@) =~= before + column_marks(col@, row@, ui@, opts, *p));
}

// --- Overlays -----------------------------------------------------------------------------------------

/// A text field: its rounded well and the text inside it.
pub open spec fn field_marks(field: Rect, text: Seq<char>, color: Color, p: Palette) -> Seq<
    MarkView,
> {
    seq![
        MarkView::Rounded { rect: field, radius: 5, color: p.field_bg },
        MarkView::Field { rect: field, text, color },
    ]
}

fn paint_field(out: &mut Vec<Mark>, field: Rect, text: &str, color: Color, p: &Palette)
    ensures
        marks(final(out)@) == marks(old(out)@) + field_marks(field, text@, color, *p),
{
    let ghost before = marks(out@);
    put(out, Mark::Rounded { rect: field, radius: 5, color: p.field_bg });
    put(out, Mark::Field { rect: field, text: text.to_owned(), color });
    assert(marks(out@) =~= before + field_marks(field, text@, color, *p));
}

/// The editor's selection band and caret inside a text field, both measured from
/// where the field's text begins.
pub open spec fn caret_mark(field: Rect, ui: UiModel, p: Palette) -> MarkView {
    MarkView::Caret {
        rect: field,
        text: ui.editor.text,
        selection: ui.editor.selection(),
        caret: if ui.caret_visible {
            Some(ui.editor.cursor)
        } else {
            None
        },
        band: p.wash_20,
        ink: p.text,
    }
}

fn draw_caret(out: &mut Vec<Mark>, field: Rect, ui: &UiState, p: &Palette)
    ensures
        marks(final(out)@) == marks(old(out)@).push(caret_mark(field, ui@, *p)),
{
    let caret: Option<usize> = if ui.caret_visible {
        Some(ui.editor.cursor())
    } else {
        None
    };
    put(
        out,
        Mark::Caret {
            rect: field,
            text: ui.editor.text().to_owned(),
            selection: ui.editor.selection(),
            caret,
            band: p.wash_20,
            ink: p.text,
        },
    );
}

/// The `k`th row of the palette on show: washed while it is selected, less so
/// while it is only hovered, its namespace dimmer than its action.
pub open spec fn command_marks(
    geom: PaletteGeomModel,
    snap: SnapshotModel,
    ui: UiModel,
    p: Palette,
    k: int,
) -> Seq<MarkView> {
    let i = geom.first_visible + k;
    let r = geom.rows[k];
    let label = snap.palette.rows[i];
    (if i == snap.palette.selected {
        seq![MarkView::Rounded { rect: r, radius: 5, color: p.wash_10 }]
    } else {
        marks_if(
            ui.hover == Some(HitTargetView::PaletteRow(i as usize)),
            seq![MarkView::Rounded { rect: r, radius: 5, color: p.wash_6 }],
        )
    }).push(
        MarkView::Command {
            rect: primitives::rect(r.x + 8, r.y as int, r.w - 16, r.h as int),
            namespace: panels::split_command(label).0,
            action: panels::split_command(label).1,
            dim: TextStyle::plain(Number { bits: NAME_SIZE }, p.text_muted),
            full: TextStyle::plain(Number { bits: NAME_SIZE }, p.text),
        },
    )
}

/// The first `n` rows of the palette on show.
pub open spec fn commands_marks(
    geom: PaletteGeomModel,
    snap: SnapshotModel,
    ui: UiModel,
    p: Palette,
    n: int,
) -> Seq<MarkView>
    decreases n,
{
    if n <= 0 {
        Seq::empty()
    } else {
        commands_marks(geom, snap, ui, p, n - 1) + command_marks(geom, snap, ui, p, n - 1)
    }
}

/// The palette's panel and its search field, which share one shade so the field
/// and the list below it read as a single surface. An empty query shows the
/// prompt in the muted color instead.
pub open spec fn search_marks(
    geom: PaletteGeomModel,
    content: Rect,
    snap: SnapshotModel,
    ui: UiModel,
    p: Palette,
) -> Seq<MarkView> {
    seq![
        MarkView::Fill { rect: content, color: p.backdrop },
        MarkView::Rounded { rect: geom.panel, radius: 8, color: p.field_bg },
        MarkView::Outline { rect: geom.panel, radius: 8, color: p.border },
    ] + (if snap.palette.query.len() == 0 {
        field_marks(geom.input, "Search commands"@, p.text_muted, p)
    } else {
        field_marks(geom.input, snap.palette.query, p.text, p)
    }) + marks_if(ui.focus == Focus::Palette, seq![caret_mark(geom.input, ui, p)])
}

pub open spec fn palette_marks(
    geom: PaletteGeomModel,
    content: Rect,
    snap: SnapshotModel,
    ui: UiModel,
    p: Palette,
) -> Seq<MarkView> {
    search_marks(geom, content, snap, ui, p) + commands_marks(
        geom,
        snap,
        ui,
        p,
        geom.rows.len() as int,
    ) + (match geom.scrollbar {
        Some(bar) => seq![
            MarkView::Rounded {
                rect: bar.slider,
                radius: layout::half(bar.slider.w as int) as i32,
                color: p.wash_20,
            },
        ],
        None => Seq::empty(),
    }) + marks_if(
        snap.palette.rows.len() == 0,
        seq![
            said_left(
                geom.empty,
                "No matching commands"@,
                TextStyle::plain(Number { bits: NAME_SIZE }, p.text_muted),
            ),
        ],
    )
}

fn paint_command(
    out: &mut Vec<Mark>,
    geom: &PaletteGeom,
    snap: &ViewSnapshot,
    ui: &UiState,
    p: &Palette,
    k: usize,
)
    requires
        k < geom.rows@.len(),
        near(geom.rows@[k as int]),
        geom.first_visible + geom.rows@.len() <= snap.palette.rows@.len(),
    ensures
        marks(final(out)@) == marks(old(out)@) + command_marks(
            geom@,
            snap@,
            ui@,
            *p,
            k as int,
        ),
{
    let ghost before = marks(out@);
    assert(snap.palette.rows.len() == snap.palette.rows@.len());
    let i: usize = geom.first_visible + k;
    let r = geom.rows[k];
    assert(geom@.rows[k as int] == r);
    assert(snap@.palette.rows[i as int] == snap.palette.rows@[i as int]@);
    if i == snap.palette.selected {
        put(out, Mark::Rounded { rect: r, radius: 5, color: p.wash_10 });
    } else if hovers(ui, HitTarget::PaletteRow(i)) {
        put(out, Mark::Rounded { rect: r, radius: 5, color: p.wash_6 });
    }
    let (namespace, action) = command_parts(snap.palette.rows[i].as_str());
    put(
        out,
        Mark::Command {
            rect: Rect::new(r.x + 8, r.y, r.w - 16, r.h),
            namespace,
            action,
            dim: TextStyle::new(Number { bits: NAME_SIZE }, p.text_muted),
            full: TextStyle::new(Number { bits: NAME_SIZE }, p.text),
        },
    );
    assert(marks(out@) =~= before + command_marks(geom@, snap@, ui@, *p, k as int));
}

fn paint_search(
    out: &mut Vec<Mark>,
    geom: &PaletteGeom,
    content: Rect,
    snap: &ViewSnapshot,
    ui: &UiState,
    p: &Palette,
)
    ensures
        marks(final(out)@) == marks(old(out)@) + search_marks(geom@, content, snap@, ui@, *p),
{
    let ghost before = marks(out@);
    put(out, Mark::Fill { rect: content, color: p.backdrop });
    put(out, Mark::Rounded { rect: geom.panel, radius: 8, color: p.field_bg });
    put(out, Mark::Outline { rect: geom.panel, radius: 8, color: p.border });
    let query = chars_of(snap.palette.query.as_str());
    if query.len() == 0 {
        paint_field(out, geom.input, "Search commands", p.text_muted, p);
    } else {
        paint_field(out, geom.input, snap.palette.query.as_str(), p.text, p);
    }
    if ui.focus == Focus::Palette {
        draw_caret(out, geom.input, ui, p);
    }
    assert(marks(out@) =~= before + search_marks(geom@, content, snap@, ui@, *p));
}

/// A palette that can be drawn: its rows are rows there are.
pub open spec fn palette_near(geom: PaletteGeomModel, snap: SnapshotModel) -> bool {
    &&& forall|k: int| 0 <= k < geom.rows.len() ==> near(#[trigger] geom.rows[k])
    &&& geom.scrollbar matches Some(bar) ==> bar.slider.w > i32::MIN
    &&& geom.first_visible + geom.rows.len() <= snap.palette.rows.len()
}

fn paint_palette(
    out: &mut Vec<Mark>,
    geom: &PaletteGeom,
    content: Rect,
    snap: &ViewSnapshot,
    ui: &UiState,
    p: &Palette,
)
    requires
        palette_near(geom@, snap@),
    ensures
        marks(final(out)@) == marks(old(out)@) + palette_marks(geom@, content, snap@, ui@, *p),
{
    let ghost before = marks(out@);
    assert(snap@.palette.rows.len() == snap.palette.rows@.len());
    paint_search(out, geom, content, snap, ui, p);
    let ghost searched = marks(out@);
    let mut k: usize = 0;
    assert(searched =~= searched + commands_marks(geom@, snap@, ui@, *p, 0));
    while k < geom.rows.len()
        invariant
            k <= geom.rows@.len(),
            palette_near(geom@, snap@),
            snap@.palette.rows.len() == snap.palette.rows@.len(),
            marks(out@) == searched + commands_marks(geom@, snap@, ui@, *p, k as int),
        decreases geom.rows@.len() - k,
    {
        assert(near(geom@.rows[k as int]));
        paint_command(out, geom, snap, ui, p, k);
        k = k + 1;
        assert(marks(out@) =~= searched + commands_marks(geom@, snap@, ui@, *p, k as int));
    }
    if let Some(bar) = &geom.scrollbar {
        put(
            out,
            Mark::Rounded { rect: bar.slider, radius: half_of(bar.slider.w), color: p.wash_20 },
        );
    }
    if snap.palette.rows.len() == 0 {
        say_left(
            out,
            geom.empty,
            "No matching commands",
            TextStyle::new(Number { bits: NAME_SIZE }, p.text_muted),
        );
    }
    assert(marks(out@) =~= before + palette_marks(geom@, content, snap@, ui@, *p));
}

/// What a modal says: its title, its body where it has one, its name field, and
/// why it was refused.
pub open spec fn modal_words(modal: ModalModel, geom: ModalGeom, ui: UiModel, p: Palette) -> Seq<
    MarkView,
> {
    seq![said_left(geom.title, modal.title, TextStyle::plain(Number { bits: NAME_SIZE }, p.text))] + marks_if(
        modal.body.len() > 0,
        seq![said_left(geom.body, modal.body, TextStyle::plain(Number { bits: SUB_SIZE }, p.text_modal_body))],
    ) + (match geom.input {
        Some(input) => field_marks(input, modal.input_value, p.text, p) + marks_if(
            ui.focus == Focus::Modal,
            seq![caret_mark(input, ui, p)],
        ),
        None => Seq::empty(),
    }) + (match modal.error {
        Some(err) => seq![said_left(geom.error, err, TextStyle::plain(Number { bits: SUB_SIZE }, p.warning))],
        None => Seq::empty(),
    })
}

/// A modal: the dimmed window behind it, its panel, its words, and its two
/// buttons, the confirming one red where it destroys something.
pub open spec fn modal_marks(
    modal: ModalModel,
    geom: ModalGeom,
    content: Rect,
    ui: UiModel,
    p: Palette,
) -> Seq<MarkView> {
    seq![
        MarkView::Fill { rect: content, color: p.backdrop },
        MarkView::Rounded { rect: geom.panel, radius: 8, color: p.surface },
        MarkView::Outline { rect: geom.panel, radius: 8, color: p.border },
    ] + modal_words(modal, geom, ui, p) + seq![
        MarkView::Rounded { rect: geom.cancel, radius: 5, color: p.wash_8 },
        said(geom.cancel, "Cancel"@, TextStyle::plain(Number { bits: SUB_SIZE }, p.text_subtle)),
        MarkView::Rounded {
            rect: geom.confirm,
            radius: 5,
            color: if modal.destructive {
                p.danger_bg
            } else {
                p.cta_bg
            },
        },
        said(geom.confirm, modal.confirm_label, TextStyle::plain(Number { bits: SUB_SIZE }, p.on_filled)),
    ]
}

fn paint_words(out: &mut Vec<Mark>, modal: &ModalView, geom: &ModalGeom, ui: &UiState, p: &Palette)
    ensures
        marks(final(out)@) == marks(old(out)@) + modal_words(modal@, *geom, ui@, *p),
{
    let ghost before = marks(out@);
    say_left(out, geom.title, modal.title.as_str(), TextStyle::new(Number { bits: NAME_SIZE }, p.text));
    let body = chars_of(modal.body.as_str());
    if body.len() > 0 {
        say_left(
            out,
            geom.body,
            modal.body.as_str(),
            TextStyle::new(Number { bits: SUB_SIZE }, p.text_modal_body),
        );
    }
    let ghost titled = marks(out@);
    if let Some(input) = geom.input {
        paint_field(out, input, modal.input_value.as_str(), p.text, p);
        if ui.focus == Focus::Modal {
            draw_caret(out, input, ui, p);
        }
    }
    let ghost middle = match geom.input {
        Some(input) => field_marks(input, modal@.input_value, p.text, *p) + marks_if(
            ui@.focus == Focus::Modal,
            seq![caret_mark(input, ui@, *p)],
        ),
        None => Seq::empty(),
    };
    assert(marks(out@) =~= titled + middle);
    if let Some(err) = &modal.error {
        say_left(out, geom.error, err.as_str(), TextStyle::new(Number { bits: SUB_SIZE }, p.warning));
    }
    assert(marks(out@) =~= before + modal_words(modal@, *geom, ui@, *p));
}

fn paint_modal(
    out: &mut Vec<Mark>,
    modal: &ModalView,
    geom: &ModalGeom,
    content: Rect,
    ui: &UiState,
    p: &Palette,
)
    ensures
        marks(final(out)@) == marks(old(out)@) + modal_marks(modal@, *geom, content, ui@, *p),
{
    let ghost before = marks(out@);
    put(out, Mark::Fill { rect: content, color: p.backdrop });
    put(out, Mark::Rounded { rect: geom.panel, radius: 8, color: p.surface });
    put(out, Mark::Outline { rect: geom.panel, radius: 8, color: p.border });
    paint_words(out, modal, geom, ui, p);
    put(out, Mark::Rounded { rect: geom.cancel, radius: 5, color: p.wash_8 });
    say(out, geom.cancel, "Cancel", TextStyle::new(Number { bits: SUB_SIZE }, p.text_subtle));
    let bg = if modal.destructive {
        p.danger_bg
    } else {
        p.cta_bg
    };
    put(out, Mark::Rounded { rect: geom.confirm, radius: 5, color: bg });
    say(
        out,
        geom.confirm,
        modal.confirm_label.as_str(),
        TextStyle::new(Number { bits: SUB_SIZE }, p.on_filled),
    );
    assert(marks(out@) =~= before + modal_marks(modal@, *geom, content, ui@, *p));
}

/// Where a menu row's label goes.
pub open spec fn menu_label(r: Rect) -> Rect {
    primitives::rect(r.x + MENU_PAD_X, r.y as int, r.w - MENU_PAD_X * 2, r.h as int)
}

/// A row of the profile menu. The active profile is named in the accent rather
/// than sat on a highlight, so the row under the pointer is the only lit one.
pub open spec fn profile_marks(row: ProfileRowGeomModel, ui: UiModel, p: Palette) -> Seq<MarkView> {
    marks_if(
        ui.hover == Some(HitTargetView::ProfileApply(row.name)),
        seq![MarkView::Rounded { rect: row.rect, radius: MENU_ROW_RADIUS, color: p.wash_8 }],
    ).push(
        said_left(
            menu_label(row.rect),
            row.name,
            TextStyle::plain(
                Number { bits: MENU_SIZE },
                if row.active {
                    p.accent
                } else {
                    p.text
                },
            ),
        ),
    )
}

/// The first `n` rows of the profile menu.
pub open spec fn profiles_marks(rows: Seq<ProfileRowGeomModel>, ui: UiModel, p: Palette, n: int) -> Seq<
    MarkView,
>
    decreases n,
{
    if n <= 0 {
        Seq::empty()
    } else {
        profiles_marks(rows, ui, p, n - 1) + profile_marks(rows[n - 1], ui, p)
    }
}

/// The dropped-open profile selector: one row per profile, a rule, then the row
/// that creates a new one, dimmer than a name since it is an action.
pub open spec fn menu_marks(menu: MenuGeomModel, ui: UiModel, p: Palette) -> Seq<MarkView> {
    seq![
        MarkView::Rounded { rect: menu.panel, radius: 6, color: p.surface },
        MarkView::Outline { rect: menu.panel, radius: 6, color: p.border },
    ] + profiles_marks(menu.rows, ui, p, menu.rows.len() as int) + seq![
        MarkView::Fill { rect: menu.separator, color: p.border },
    ] + marks_if(
        ui.hover == Some(HitTargetView::ProfileCreate),
        seq![MarkView::Rounded { rect: menu.create, radius: MENU_ROW_RADIUS, color: p.wash_8 }],
    ) + seq![
        said_left(
            menu_label(menu.create),
            "+ New profile"@,
            TextStyle::plain(Number { bits: MENU_SIZE }, p.text_idle),
        ),
    ]
}

/// A profile menu that can be drawn.
pub open spec fn menu_near(menu: MenuGeomModel) -> bool {
    &&& forall|k: int| 0 <= k < menu.rows.len() ==> near((#[trigger] menu.rows[k]).rect)
    &&& near(menu.create)
}

fn label_place(r: Rect) -> (place: Rect)
    requires
        near(r),
    ensures
        place == menu_label(r),
{
    Rect::new(r.x + MENU_PAD_X, r.y, r.w - MENU_PAD_X * 2, r.h)
}

fn paint_profile_menu(out: &mut Vec<Mark>, menu: &ProfileMenuGeom, ui: &UiState, p: &Palette)
    requires
        menu_near(menu@),
    ensures
        marks(final(out)@) == marks(old(out)@) + menu_marks(menu@, ui@, *p),
{
    let ghost before = marks(out@);
    put(out, Mark::Rounded { rect: menu.panel, radius: 6, color: p.surface });
    put(out, Mark::Outline { rect: menu.panel, radius: 6, color: p.border });
    let ghost panel = marks(out@);
    let ghost rows = menu@.rows;
    let mut i: usize = 0;
    assert(panel =~= panel + profiles_marks(rows, ui@, *p, 0));
    while i < menu.rows.len()
        invariant
            i <= menu.rows@.len(),
            rows == menu@.rows,
            menu_near(menu@),
            marks(out@) == panel + profiles_marks(rows, ui@, *p, i as int),
        decreases menu.rows@.len() - i,
    {
        let row = &menu.rows[i];
        assert(rows[i as int] == row@);
        assert(near(menu@.rows[i as int].rect));
        if hovers(ui, HitTarget::ProfileApply(row.name.clone())) {
            put(out, Mark::Rounded { rect: row.rect, radius: MENU_ROW_RADIUS, color: p.wash_8 });
        }
        let color = if row.active {
            p.accent
        } else {
            p.text
        };
        say_left(out, label_place(row.rect), row.name.as_str(), TextStyle::new(Number { bits: MENU_SIZE }, color));
        i = i + 1;
        assert(marks(out@) =~= panel + profiles_marks(rows, ui@, *p, i as int));
    }
    put(out, Mark::Fill { rect: menu.separator, color: p.border });
    if hovers(ui, HitTarget::ProfileCreate) {
        put(out, Mark::Rounded { rect: menu.create, radius: MENU_ROW_RADIUS, color: p.wash_8 });
    }
    say_left(
        out,
        label_place(menu.create),
        "+ New profile",
        TextStyle::new(Number { bits: MENU_SIZE }, p.text_idle),
    );
    assert(marks(out@) =~= before + menu_marks(menu@, ui@, *p));
}

// --- The frame ----------------------------------------------------------------------------------------

/// The first `n` columns.
pub open spec fn columns_marks(
    columns: Seq<ColumnModel>,
    snap: SnapshotModel,
    ui: UiModel,
    p: Palette,
    n: int,
) -> Seq<MarkView>
    decreases n,
{
    if n <= 0 {
        Seq::empty()
    } else {
        columns_marks(columns, snap, ui, p, n - 1) + (match draw_of(snap, columns[n - 1].id) {
            Some(row) => column_marks(columns[n - 1], row, ui, snap.sink_options, p),
            None => Seq::empty(),
        })
    }
}

/// The strip's scrollbar, over the columns in the air they leave along the bottom,
/// brighter while the pointer is on it or dragging it.
pub open spec fn bar_marks(layout: LayoutModel, ui: UiModel, p: Palette) -> Seq<MarkView> {
    match layout.strip_scrollbar {
        Some(bar) => seq![
            MarkView::Rounded {
                rect: bar.slider,
                radius: layout::half(bar.slider.h as int) as i32,
                color: if ui.hover == Some(HitTargetView::StripScrollbar) || (ui.drag is Some
                    && ui.drag->Some_0 is StripScroll) {
                    p.wash_30
                } else {
                    p.wash_20
                },
            },
        ],
        None => Seq::empty(),
    }
}

/// What lies over the columns: the profile menu, the palette, a modal, each while
/// it is open.
pub open spec fn over_marks(layout: LayoutModel, snap: SnapshotModel, ui: UiModel, p: Palette) -> Seq<
    MarkView,
> {
    (match layout.profile_menu {
        Some(menu) => menu_marks(menu, ui, p),
        None => Seq::empty(),
    }) + (match layout.palette {
        Some(geom) => palette_marks(geom, layout.content, snap, ui, p),
        None => Seq::empty(),
    }) + (match (snap.modal, layout.modal) {
        (Some(view), Some(geom)) => modal_marks(view, geom, layout.content, ui, p),
        _ => Seq::empty(),
    })
}

/// The whole frame, bottom up. Columns are clipped to the strip so scrolled
/// content does not spill past it; the border goes on last so nothing draws over
/// it.
pub open spec fn frame_marks(
    bounds: Rect,
    layout: LayoutModel,
    snap: SnapshotModel,
    ui: UiModel,
    p: Palette,
) -> Seq<MarkView> {
    seq![MarkView::Fill { rect: bounds, color: p.bg }] + (match layout.titlebar {
        Some(bar) => titlebar_marks(bar, ui, p),
        None => Seq::empty(),
    }) + chrome_marks(layout, snap, ui, p) + seq![MarkView::Clip(layout.strip)] + columns_marks(
        layout.columns,
        snap,
        ui,
        p,
        layout.columns.len() as int,
    ) + seq![MarkView::Unclip] + bar_marks(layout, ui, p) + over_marks(layout, snap, ui, p)
        + marks_if(
        ui.settings.show_window_border,
        seq![MarkView::Border { rect: layout.window, color: p.border }],
    )
}

/// A frame that can be drawn: every rectangle near enough to be reckoned with.
pub open spec fn paintable(layout: LayoutModel, snap: SnapshotModel, ui: UiModel) -> bool {
    &&& layout.titlebar matches Some(bar) ==> titlebar_near(bar)
    &&& layout.profile_strip matches Some(bar) ==> near(bar)
    &&& forall|i: int|
        0 <= i < layout.hits.len() && (#[trigger] layout.hits[i]).target is ProfileSelector
            ==> near(layout.hits[i].rect)
    &&& forall|i: int|
        0 <= i < layout.columns.len() ==> column_near(#[trigger] layout.columns[i], ui)
    &&& near(layout.strip)
    &&& layout.strip_scrollbar matches Some(bar) ==> bar.slider.h > i32::MIN
    &&& layout.profile_menu matches Some(menu) ==> menu_near(menu)
    &&& layout.palette matches Some(geom) ==> palette_near(geom, snap)
}

fn paint_columns(out: &mut Vec<Mark>, snap: &ViewSnapshot, ui: &UiState, layout: &Layout, p: &Palette)
    requires
        paintable(layout@, snap@, ui@),
    ensures
        marks(final(out)@) == marks(old(out)@) + columns_marks(
            layout@.columns,
            snap@,
            ui@,
            *p,
            layout@.columns.len() as int,
        ),
{
    let ghost before = marks(out@);
    let ghost columns = layout@.columns;
    let mut i: usize = 0;
    assert(before =~= before + columns_marks(columns, snap@, ui@, *p, 0));
    while i < layout.columns.len()
        invariant
            i <= layout.columns@.len(),
            columns == layout@.columns,
            paintable(layout@, snap@, ui@),
            marks(out@) == before + columns_marks(columns, snap@, ui@, *p, i as int),
        decreases layout.columns@.len() - i,
    {
        let col = &layout.columns[i];
        let ghost so_far = columns_marks(columns, snap@, ui@, *p, i as int);
        assert(columns[i as int] == col@);
        assert(column_near(layout@.columns[i as int], ui@));
        if let Some(row) = row_draw(snap, &col.id) {
            paint_column(out, col, &row, ui, &snap.sink_options, p);
        }
        i = i + 1;
        assert(marks(out@) =~= before + columns_marks(columns, snap@, ui@, *p, i as int));
    }
}

fn paint_bar_slider(out: &mut Vec<Mark>, ui: &UiState, layout: &Layout, p: &Palette)
    requires
        layout@.strip_scrollbar matches Some(bar) ==> bar.slider.h > i32::MIN,
    ensures
        marks(final(out)@) == marks(old(out)@) + bar_marks(layout@, ui@, *p),
{
    let ghost before = marks(out@);
    if let Some(bar) = &layout.strip_scrollbar {
        let dragging = match &ui.drag {
            Some(Drag::StripScroll { .. }) => true,
            _ => false,
        };
        let ink = if hovers(ui, HitTarget::StripScrollbar) || dragging {
            p.wash_30
        } else {
            p.wash_20
        };
        put(out, Mark::Rounded { rect: bar.slider, radius: half_of(bar.slider.h), color: ink });
    }
    assert(marks(out@) =~= before + bar_marks(layout@, ui@, *p));
}

fn paint_over(out: &mut Vec<Mark>, snap: &ViewSnapshot, ui: &UiState, layout: &Layout, p: &Palette)
    requires
        paintable(layout@, snap@, ui@),
    ensures
        marks(final(out)@) == marks(old(out)@) + over_marks(layout@, snap@, ui@, *p),
{
    let ghost before = marks(out@);
    if let Some(menu) = &layout.profile_menu {
        assert(layout@.profile_menu == Some(menu@));
        paint_profile_menu(out, menu, ui, p);
    }
    if let Some(geom) = &layout.palette {
        assert(layout@.palette == Some(geom@));
        paint_palette(out, geom, layout.content, snap, ui, p);
    }
    if let Some(view) = &snap.modal {
        if let Some(geom) = &layout.modal {
            paint_modal(out, view, geom, layout.content, ui, p);
        }
    }
    assert(marks(out@) =~= before + over_marks(layout@, snap@, ui@, *p));
}

/// Draw the whole frame.
pub fn paint_frame(
    bounds: Rect,
    snap: &ViewSnapshot,
    ui: &UiState,
    layout: &Layout,
    p: &Palette,
) -> (out: Vec<Mark>)
    requires
        paintable(layout@, snap@, ui@),
    ensures
        marks(out@) == frame_marks(bounds, layout@, snap@, ui@, *p),
{
    let mut out: Vec<Mark> = Vec::new();
    assert(marks(out@) =~= Seq::<MarkView>::empty());
    put(&mut out, Mark::Fill { rect: bounds, color: p.bg });
    if let Some(bar) = &layout.titlebar {
        paint_titlebar(&mut out, bar, ui, p);
    }
    paint_chrome(&mut out, snap, layout, ui, p);
    put(&mut out, Mark::Clip(layout.strip));
    paint_columns(&mut out, snap, ui, layout, p);
    put(&mut out, Mark::Unclip);
    paint_bar_slider(&mut out, ui, layout, p);
    paint_over(&mut out, snap, ui, layout, p);
    if ui.settings.show_window_border {
        put(&mut out, Mark::Border { rect: layout.window, color: p.border });
    }
    assert(marks(out@) =~= frame_marks(bounds, layout@, snap@, ui@, *p));
    out
}

/// The frame once for each of the first `n` rectangles, clipped to it.
pub open spec fn meters_marks(
    bounds: Rect,
    layout: LayoutModel,
    snap: SnapshotModel,
    ui: UiModel,
    p: Palette,
    damage: Seq<Rect>,
    n: int,
) -> Seq<MarkView>
    decreases n,
{
    if n <= 0 {
        Seq::empty()
    } else {
        meters_marks(bounds, layout, snap, ui, p, damage, n - 1) + seq![
            MarkView::Clip(damage[n - 1]),
        ] + frame_marks(bounds, layout, snap, ui, p) + seq![MarkView::Unclip]
    }
}

/// Repaint only what a meter step can have changed.
///
/// Each of the layout's meter rectangles gets the whole frame painted through a
/// clip, so what lands inside one is what a full repaint would have left there,
/// whatever the slider, its ring, or an overlay puts on top included. Pixels
/// outside every rectangle keep what the buffer already held, which makes this
/// correct only on a buffer already holding the rest of that frame.
pub fn paint_meters(
    bounds: Rect,
    snap: &ViewSnapshot,
    ui: &UiState,
    layout: &Layout,
    p: &Palette,
) -> (out: Vec<Mark>)
    requires
        paintable(layout@, snap@, ui@),
    ensures
        ({
            let damage = layout::damage(
                layout@.columns,
                layout@.strip,
                layout@.columns.len() as int,
            );
            marks(out@) == meters_marks(
                bounds,
                layout@,
                snap@,
                ui@,
                *p,
                damage,
                damage.len() as int,
            )
        }),
{
    let mut out: Vec<Mark> = Vec::new();
    assert forall|i: int| 0 <= i < layout@.columns.len() implies (
    #[trigger] layout@.columns[i]).meter.near() by {
        assert(column_near(layout@.columns[i], ui@));
    }
    let rects = layout.meter_damage();
    let ghost damage = rects@;
    let mut i: usize = 0;
    assert(marks(out@) =~= meters_marks(bounds, layout@, snap@, ui@, *p, damage, 0));
    while i < rects.len()
        invariant
            i <= rects@.len(),
            damage == rects@,
            paintable(layout@, snap@, ui@),
            marks(out@) == meters_marks(bounds, layout@, snap@, ui@, *p, damage, i as int),
        decreases rects@.len() - i,
    {
        let ghost so_far = marks(out@);
        put(&mut out, Mark::Clip(rects[i]));
        let mut frame = paint_frame(bounds, snap, ui, layout, p);
        let ghost whole = marks(frame@);
        let ghost (a, b) = (out@, frame@);
        out.append(&mut frame);
        assert(marks(out@) =~= marks(a) + whole);
        put(&mut out, Mark::Unclip);
        i = i + 1;
        assert(marks(out@) =~= meters_marks(bounds, layout@, snap@, ui@, *p, damage, i as int));
    }
    out
}

} // verus!
