//! Layout types: stable row ids, hit targets, and the metric constants the
//! projection lays the mixer out with.
//!
//! The geometry projection (snapshot to rectangles) builds on these. They are
//! kept apart from the drawing so input mapping and hit testing can name every
//! interactive element without touching pixels.

use crate::command_palette;
use crate::command_palette::{scroll_into_view, VISIBLE_ROWS};
use crate::domain::{Gain, Section};
use crate::render::primitives;
use crate::render::primitives::Rect;
use crate::settings::Settings;
use crate::single;
use crate::single::{gain_for, lift_of, share_of};
use crate::text::same_text;
use crate::ui::meter::METER_WIDTH;
use crate::ui::metrics::{
    ACTION_BTN_HEIGHT, ACTION_BTN_WIDTH, ACTION_CLUSTER_GAP, ACTION_GAP, COLUMN_BOTTOM,
    COLUMN_HEADER_HEIGHT, COLUMN_WIDTH, COL_GAP, FADER_BUTTON_GAP, FIELD_H, HEADER_GAP, HEADER_TOP,
    ICON_BOX_HEIGHT, ICON_SIZE, ICON_TOP, KNOB_SIZE, MENU_MIN_W, MENU_PAD, MENU_ROW_H, MENU_SEP_H,
    METER_INSET, MIN_FADER_HEIGHT, MODAL_W, NAME_H, PALETTE_CHROME_H, PALETTE_ROW_H,
    PICKER_MUTE_GAP, PICK_SIZE, PICK_STACK_GAP, PROFILE_CHIP_PAD, PROFILE_CHIP_WIDTH,
    PROFILE_STRIP_HEIGHT, RESIZE_GRAB, SCROLLBAR_INSET, SCROLLBAR_LANE, SCROLLBAR_MIN_LEN,
    SIDEBAR_PAD, SIDEBAR_WIDTH, SLIDER_METER_GAP, SLIDER_TRACK_HEIGHT, SLIDER_WIDTH, STRIP_PAD,
    STRIP_PAD_BOTTOM, TITLEBAR_HEIGHT, WINDOW_BTN,
};
use crate::ui::{Chrome, Focus, UiModel, UiState};
use crate::view::snapshot;
use crate::view::snapshot::{
    AppRowModel, AppRowView, DeviceRowModel, DeviceRowView, ModalModel, ModalView, PaletteModel,
    PaletteView, ProfileMenuView, ProfileRowModel, SinkOption, SinkOptionModel, SnapshotModel,
    ViewSnapshot,
};
use vstd::prelude::*;
use vstd::string::*;

verus! {

/// Stable identity of a mixer row across refreshes. Device rows key on their
/// PipeWire node id; app rows key on the grouping key (collapsed group) or the
/// member stream id (expanded sub-row).
#[derive(PartialEq, Eq, Hash, Debug)]
pub enum RowId {
    Sink(u32),
    Source(u32),
    AppGroup(String),
    AppMember(u32),
}

#[verifier::ext_equal]
pub enum RowIdView {
    Sink(u32),
    Source(u32),
    AppGroup(Seq<char>),
    AppMember(u32),
}

impl View for RowId {
    type V = RowIdView;

    open spec fn view(&self) -> RowIdView {
        match self {
            RowId::Sink(id) => RowIdView::Sink(*id),
            RowId::Source(id) => RowIdView::Source(*id),
            RowId::AppGroup(key) => RowIdView::AppGroup(key@),
            RowId::AppMember(id) => RowIdView::AppMember(*id),
        }
    }
}

impl Clone for RowId {
    fn clone(&self) -> (id: Self)
        ensures
            id@ == self@,
    {
        match self {
            RowId::Sink(id) => RowId::Sink(*id),
            RowId::Source(id) => RowId::Source(*id),
            RowId::AppGroup(key) => RowId::AppGroup(key.clone()),
            RowId::AppMember(id) => RowId::AppMember(*id),
        }
    }
}

/// Whether two ids name the same row.
pub fn same_row(a: &RowId, b: &RowId) -> (same: bool)
    ensures
        same == (a@ == b@),
{
    match (a, b) {
        (RowId::Sink(x), RowId::Sink(y)) => *x == *y,
        (RowId::Source(x), RowId::Source(y)) => *x == *y,
        (RowId::AppGroup(x), RowId::AppGroup(y)) => same_text(x.as_str(), y.as_str()),
        (RowId::AppMember(x), RowId::AppMember(y)) => *x == *y,
        _ => false,
    }
}

/// A row that may be absent.
pub open spec fn row_ref_view(row: Option<&RowId>) -> Option<RowIdView> {
    match row {
        Some(r) => Some(r@),
        None => None,
    }
}

pub open spec fn row_view(row: Option<RowId>) -> Option<RowIdView> {
    match row {
        Some(r) => Some(r@),
        None => None,
    }
}

pub fn clone_row(row: &Option<RowId>) -> (r: Option<RowId>)
    ensures
        row_view(r) == row_view(*row),
{
    match row {
        Some(r) => Some(r.clone()),
        None => None,
    }
}

pub fn same_opt_row(a: &Option<RowId>, b: &Option<RowId>) -> (same: bool)
    ensures
        same == (row_view(*a) == row_view(*b)),
{
    match (a, b) {
        (Some(x), Some(y)) => same_row(x, y),
        (None, None) => true,
        _ => false,
    }
}

/// A window edge or corner, for custom-decoration resize handles.
#[derive(Clone, Copy, PartialEq, Eq, Debug, Structural)]
pub enum ResizeEdge {
    Top,
    Bottom,
    Left,
    Right,
    TopLeft,
    TopRight,
    BottomLeft,
    BottomRight,
}

/// Something the pointer can land on. Layout produces a rectangle for each;
/// input maps a click on one, plus the event, into a state message or a
/// transient UI change.
#[derive(PartialEq, Eq, Debug)]
pub enum HitTarget {
    // Section toolbar.
    SectionFilter(Section),
    MuteAll,
    ResetTargets,
    // Profile selector and its menu.
    ProfileSelector,
    ProfileApply(String),
    ProfileCreate,
    // Device rows (sink or source).
    DeviceDefault(RowId),
    // Rows in general (device or app, collapsed group or member).
    RowMute(RowId),
    RowSlider(RowId),
    // App rows.
    AppExpand(RowId),
    /// A per-app output target button. `sink` None is the autoroute "A" button.
    AppTarget { row: RowId, sink: Option<u32> },
    /// The strip's horizontal scrollbar, present only while the columns run
    /// wider than the window.
    StripScrollbar,
    // Command palette.
    PaletteInput,
    PaletteRow(usize),
    // Modal dialog.
    ModalInput,
    ModalConfirm,
    ModalCancel,
    /// The dimmed area around an open overlay. It swallows presses that would
    /// otherwise reach the mixer behind it, and dismisses the overlay.
    Backdrop,
    // Client-side decorations, present only when the shell draws its own chrome.
    TitlebarDrag,
    WindowMinimize,
    WindowMaximize,
    WindowClose,
    ResizeEdge(ResizeEdge),
}

#[verifier::ext_equal]
pub enum HitTargetView {
    SectionFilter(Section),
    MuteAll,
    ResetTargets,
    ProfileSelector,
    ProfileApply(Seq<char>),
    ProfileCreate,
    DeviceDefault(RowIdView),
    RowMute(RowIdView),
    RowSlider(RowIdView),
    AppExpand(RowIdView),
    AppTarget { row: RowIdView, sink: Option<u32> },
    StripScrollbar,
    PaletteInput,
    PaletteRow(usize),
    ModalInput,
    ModalConfirm,
    ModalCancel,
    Backdrop,
    TitlebarDrag,
    WindowMinimize,
    WindowMaximize,
    WindowClose,
    ResizeEdge(ResizeEdge),
}

impl View for HitTarget {
    type V = HitTargetView;

    open spec fn view(&self) -> HitTargetView {
        match self {
            HitTarget::SectionFilter(s) => HitTargetView::SectionFilter(*s),
            HitTarget::MuteAll => HitTargetView::MuteAll,
            HitTarget::ResetTargets => HitTargetView::ResetTargets,
            HitTarget::ProfileSelector => HitTargetView::ProfileSelector,
            HitTarget::ProfileApply(name) => HitTargetView::ProfileApply(name@),
            HitTarget::ProfileCreate => HitTargetView::ProfileCreate,
            HitTarget::DeviceDefault(row) => HitTargetView::DeviceDefault(row@),
            HitTarget::RowMute(row) => HitTargetView::RowMute(row@),
            HitTarget::RowSlider(row) => HitTargetView::RowSlider(row@),
            HitTarget::AppExpand(row) => HitTargetView::AppExpand(row@),
            HitTarget::AppTarget { row, sink } => HitTargetView::AppTarget {
                row: row@,
                sink: *sink,
            },
            HitTarget::StripScrollbar => HitTargetView::StripScrollbar,
            HitTarget::PaletteInput => HitTargetView::PaletteInput,
            HitTarget::PaletteRow(i) => HitTargetView::PaletteRow(*i),
            HitTarget::ModalInput => HitTargetView::ModalInput,
            HitTarget::ModalConfirm => HitTargetView::ModalConfirm,
            HitTarget::ModalCancel => HitTargetView::ModalCancel,
            HitTarget::Backdrop => HitTargetView::Backdrop,
            HitTarget::TitlebarDrag => HitTargetView::TitlebarDrag,
            HitTarget::WindowMinimize => HitTargetView::WindowMinimize,
            HitTarget::WindowMaximize => HitTargetView::WindowMaximize,
            HitTarget::WindowClose => HitTargetView::WindowClose,
            HitTarget::ResizeEdge(edge) => HitTargetView::ResizeEdge(*edge),
        }
    }
}

impl Clone for HitTarget {
    fn clone(&self) -> (target: Self)
        ensures
            target@ == self@,
    {
        match self {
            HitTarget::SectionFilter(s) => HitTarget::SectionFilter(*s),
            HitTarget::MuteAll => HitTarget::MuteAll,
            HitTarget::ResetTargets => HitTarget::ResetTargets,
            HitTarget::ProfileSelector => HitTarget::ProfileSelector,
            HitTarget::ProfileApply(name) => HitTarget::ProfileApply(name.clone()),
            HitTarget::ProfileCreate => HitTarget::ProfileCreate,
            HitTarget::DeviceDefault(row) => HitTarget::DeviceDefault(row.clone()),
            HitTarget::RowMute(row) => HitTarget::RowMute(row.clone()),
            HitTarget::RowSlider(row) => HitTarget::RowSlider(row.clone()),
            HitTarget::AppExpand(row) => HitTarget::AppExpand(row.clone()),
            HitTarget::AppTarget { row, sink } => HitTarget::AppTarget {
                row: row.clone(),
                sink: *sink,
            },
            HitTarget::StripScrollbar => HitTarget::StripScrollbar,
            HitTarget::PaletteInput => HitTarget::PaletteInput,
            HitTarget::PaletteRow(i) => HitTarget::PaletteRow(*i),
            HitTarget::ModalInput => HitTarget::ModalInput,
            HitTarget::ModalConfirm => HitTarget::ModalConfirm,
            HitTarget::ModalCancel => HitTarget::ModalCancel,
            HitTarget::Backdrop => HitTarget::Backdrop,
            HitTarget::TitlebarDrag => HitTarget::TitlebarDrag,
            HitTarget::WindowMinimize => HitTarget::WindowMinimize,
            HitTarget::WindowMaximize => HitTarget::WindowMaximize,
            HitTarget::WindowClose => HitTarget::WindowClose,
            HitTarget::ResizeEdge(edge) => HitTarget::ResizeEdge(*edge),
        }
    }
}

/// Whether two targets are the same one.
pub fn same_target(a: &HitTarget, b: &HitTarget) -> (same: bool)
    ensures
        same == (a@ == b@),
{
    match (a, b) {
        (HitTarget::SectionFilter(x), HitTarget::SectionFilter(y)) => *x == *y,
        (HitTarget::MuteAll, HitTarget::MuteAll) => true,
        (HitTarget::ResetTargets, HitTarget::ResetTargets) => true,
        (HitTarget::ProfileSelector, HitTarget::ProfileSelector) => true,
        (HitTarget::ProfileApply(x), HitTarget::ProfileApply(y)) => same_text(
            x.as_str(),
            y.as_str(),
        ),
        (HitTarget::ProfileCreate, HitTarget::ProfileCreate) => true,
        (HitTarget::DeviceDefault(x), HitTarget::DeviceDefault(y)) => same_row(x, y),
        (HitTarget::RowMute(x), HitTarget::RowMute(y)) => same_row(x, y),
        (HitTarget::RowSlider(x), HitTarget::RowSlider(y)) => same_row(x, y),
        (HitTarget::AppExpand(x), HitTarget::AppExpand(y)) => same_row(x, y),
        (
            HitTarget::AppTarget { row: x, sink: s },
            HitTarget::AppTarget { row: y, sink: t },
        ) => same_row(x, y) && same_sink(*s, *t),
        (HitTarget::StripScrollbar, HitTarget::StripScrollbar) => true,
        (HitTarget::PaletteInput, HitTarget::PaletteInput) => true,
        (HitTarget::PaletteRow(x), HitTarget::PaletteRow(y)) => *x == *y,
        (HitTarget::ModalInput, HitTarget::ModalInput) => true,
        (HitTarget::ModalConfirm, HitTarget::ModalConfirm) => true,
        (HitTarget::ModalCancel, HitTarget::ModalCancel) => true,
        (HitTarget::Backdrop, HitTarget::Backdrop) => true,
        (HitTarget::TitlebarDrag, HitTarget::TitlebarDrag) => true,
        (HitTarget::WindowMinimize, HitTarget::WindowMinimize) => true,
        (HitTarget::WindowMaximize, HitTarget::WindowMaximize) => true,
        (HitTarget::WindowClose, HitTarget::WindowClose) => true,
        (HitTarget::ResizeEdge(x), HitTarget::ResizeEdge(y)) => *x == *y,
        _ => false,
    }
}

fn same_sink(a: Option<u32>, b: Option<u32>) -> (same: bool)
    ensures
        same == (a == b),
{
    match (a, b) {
        (Some(x), Some(y)) => x == y,
        (None, None) => true,
        _ => false,
    }
}

/// A target that may be absent.
pub open spec fn target_view(target: Option<HitTarget>) -> Option<HitTargetView> {
    match target {
        Some(t) => Some(t@),
        None => None,
    }
}

pub fn clone_target(target: &Option<HitTarget>) -> (t: Option<HitTarget>)
    ensures
        target_view(t) == target_view(*target),
{
    match target {
        Some(t) => Some(t.clone()),
        None => None,
    }
}

pub fn same_opt_target(a: &Option<HitTarget>, b: &Option<HitTarget>) -> (same: bool)
    ensures
        same == (target_view(*a) == target_view(*b)),
{
    match (a, b) {
        (Some(x), Some(y)) => same_target(x, y),
        (None, None) => true,
        _ => false,
    }
}

// --- Geometry ----------------------------------------------------------------------------

/// A hit rectangle and what it targets.
#[derive(Debug)]
pub struct Hit {
    pub rect: Rect,
    pub target: HitTarget,
}

#[verifier::ext_equal]
pub struct HitModel {
    pub rect: Rect,
    pub target: HitTargetView,
}

impl View for Hit {
    type V = HitModel;

    open spec fn view(&self) -> HitModel {
        HitModel { rect: self.rect, target: self.target@ }
    }
}

pub open spec fn hit_models(hits: Seq<Hit>) -> Seq<HitModel> {
    Seq::new(hits.len(), |i: int| hits[i]@)
}

/// The geometry of one column's slider.
#[derive(Clone, Copy, PartialEq, Eq, Debug, Structural)]
pub struct SliderGeom {
    /// The full vertical track the thumb travels.
    pub track: Rect,
    /// The lit portion from the thumb down to the track bottom.
    pub fill: Rect,
    /// The draggable thumb.
    pub thumb: Rect,
    /// Y of the unity-gain (cubic 1.0) reference notch.
    pub unity_y: i32,
}

/// The geometry of one device or app column.
///
/// The meter and the slider run the column's full body height side by side,
/// centered as a pair. The small square buttons ride over that pair's right
/// edge, so resizing them cannot shift the slider off centre.
#[derive(Debug)]
pub struct ColumnGeom {
    pub id: RowId,
    pub rect: Rect,
    /// App icon; empty for device rows.
    pub icon: Rect,
    /// The device form heading, or the app name for app rows.
    pub name: Rect,
    /// The device name under its form heading; empty for app rows.
    pub sub: Rect,
    pub slider: SliderGeom,
    pub meter: Rect,
    pub mute: Rect,
    /// Target buttons as (rect, sink id), stacked bottom-up above the mute
    /// button; None is the autoroute button. Empty for device rows.
    pub targets: Vec<(Rect, Option<u32>)>,
    /// The expand toggle, one slot above the topmost target pin. Empty unless
    /// the row is an app group with more than one member.
    pub expand: Rect,
    /// The hairline rule closing the column on its right.
    pub separator: Rect,
    pub is_app: bool,
}

#[verifier::ext_equal]
pub struct ColumnModel {
    pub id: RowIdView,
    pub rect: Rect,
    pub icon: Rect,
    pub name: Rect,
    pub sub: Rect,
    pub slider: SliderGeom,
    pub meter: Rect,
    pub mute: Rect,
    pub targets: Seq<(Rect, Option<u32>)>,
    pub expand: Rect,
    pub separator: Rect,
    pub is_app: bool,
}

impl View for ColumnGeom {
    type V = ColumnModel;

    open spec fn view(&self) -> ColumnModel {
        ColumnModel {
            id: self.id@,
            rect: self.rect,
            icon: self.icon,
            name: self.name,
            sub: self.sub,
            slider: self.slider,
            meter: self.meter,
            mute: self.mute,
            targets: self.targets@,
            expand: self.expand,
            separator: self.separator,
            is_app: self.is_app,
        }
    }
}

pub open spec fn column_models(columns: Seq<ColumnGeom>) -> Seq<ColumnModel> {
    Seq::new(columns.len(), |i: int| columns[i]@)
}

/// Half of a length, cut toward zero.
pub open spec fn half(v: int) -> int {
    if v < 0 {
        -((-v) / 2)
    } else {
        v / 2
    }
}

pub(crate) fn half_of(v: i32) -> (h: i32)
    requires
        v > i32::MIN,
    ensures
        h == half(v as int),
{
    if v < 0 {
        -((-v) / 2)
    } else {
        v / 2
    }
}

/// All of a rectangle's numbers are within `m` of zero.
pub open spec fn within(r: Rect, m: int) -> bool {
    &&& -m <= r.x <= m
    &&& -m <= r.y <= m
    &&& -m <= r.w <= m
    &&& -m <= r.h <= m
}

/// A number brought between two others.
pub open spec fn between(v: int, low: int, high: int) -> int {
    if v < low {
        low
    } else if v > high {
        high
    } else {
        v
    }
}

/// Where a gain puts the middle of the thumb in a vertical track.
pub open spec fn y_for(track: Rect, g: Gain) -> int {
    track.bottom_edge() - single::lift(track.h as nat, g)
}

/// The gain a pointer y stands for within a vertical track.
pub open spec fn gain_for_y(track: Rect, y: int) -> Gain {
    single::gain_at(
        track.bottom_edge() - y,
        primitives::most(track.h as int, 1) as nat,
    )
}

/// The cubic gain a pointer y maps to within a vertical track, for slider drag
/// handling.
pub fn cubic_for_y(track: Rect, y: i32) -> (g: Gain)
    requires
        -0x1000_0000 <= track.y <= 0x1000_0000,
        track.h <= 0x400_0000,
    ensures
        g == gain_for_y(track, y as int),
{
    let h: u32 = if track.h > 1 {
        track.h as u32
    } else {
        1
    };
    let above: i64 = track.y as i64 + track.h as i64 - y as i64;
    let above: i32 = if above > 0x1000_0000 {
        0x1000_0000
    } else if above < 0 {
        0
    } else {
        above as i32
    };
    gain_for(above, h)
}

/// The trough, its fill, and the round knob riding on the value.
pub open spec fn slider_model(area: Rect, cubic: Gain) -> SliderGeom {
    let center = between(y_for(area, cubic), area.y as int, area.bottom_edge());
    SliderGeom {
        track: area,
        fill: primitives::rect(
            area.x as int,
            center,
            area.w as int,
            area.bottom_edge() - center,
        ),
        thumb: primitives::rect(
            area.x + half(area.w - KNOB_SIZE),
            center - KNOB_SIZE / 2,
            KNOB_SIZE as int,
            KNOB_SIZE as int,
        ),
        unity_y: y_for(area, Gain { bits: 0x3f80_0000 }) as i32,
    }
}

/// The trough, its fill, and the round knob riding on the value.
///
/// The knob is wider than the trough and overhangs it on both sides, which is
/// what makes the fader read as a fader rather than a progress bar.
fn slider_geom(area: Rect, cubic: Gain) -> (s: SliderGeom)
    requires
        within(area, 0x2000_0000),
        1 <= area.h <= 0x200_0000,
    ensures
        s == slider_model(area, cubic),
{
    let bottom: i32 = area.bottom();
    let y: i32 = bottom - lift_of(area.h as u32, cubic);
    let center: i32 = if y < area.y {
        area.y
    } else {
        y
    };
    SliderGeom {
        track: area,
        fill: Rect { x: area.x, y: center, w: area.w, h: bottom - center },
        thumb: Rect {
            x: area.x + half_of(area.w - KNOB_SIZE),
            y: center - KNOB_SIZE / 2,
            w: KNOB_SIZE,
            h: KNOB_SIZE,
        },
        unity_y: bottom - lift_of(area.h as u32, Gain { bits: 0x3f80_0000 }),
    }
}

// --- Columns --------------------------------------------------------------------------------

/// What a column needs laid out.
#[verifier::ext_equal]
pub struct SpecModel {
    pub id: RowIdView,
    pub cubic: Gain,
    pub is_app: bool,
    pub can_expand: bool,
}

/// What a column needs laid out. Bundled so the projection stays readable as
/// the per-row inputs grow.
pub struct ColumnSpec<'a> {
    pub id: &'a RowId,
    pub cubic: Gain,
    pub is_app: bool,
    pub can_expand: bool,
}

impl<'a> View for ColumnSpec<'a> {
    type V = SpecModel;

    open spec fn view(&self) -> SpecModel {
        SpecModel {
            id: self.id@,
            cubic: self.cubic,
            is_app: self.is_app,
            can_expand: self.can_expand,
        }
    }
}

/// Where a column's meter and fader begin.
pub open spec fn body_top(r: Rect) -> int {
    r.y + COLUMN_HEADER_HEIGHT + HEADER_GAP
}

/// Where a column's meter, fader and buttons end.
pub open spec fn body_bottom(r: Rect) -> int {
    r.bottom_edge() - COLUMN_BOTTOM
}

pub open spec fn body_height(r: Rect) -> int {
    primitives::most(body_bottom(r) - body_top(r), 1)
}

pub open spec fn meter_rect(r: Rect) -> Rect {
    primitives::rect(r.x + METER_INSET, body_top(r), METER_WIDTH as int, body_height(r))
}

pub open spec fn track_rect(r: Rect) -> Rect {
    primitives::rect(
        r.x + METER_INSET + METER_WIDTH + SLIDER_METER_GAP,
        body_top(r),
        SLIDER_WIDTH as int,
        body_height(r),
    )
}

/// The button stack rides over the pair's right edge.
pub open spec fn button_x(r: Rect) -> int {
    primitives::most(
        primitives::least(
            track_rect(r).right_edge() + FADER_BUTTON_GAP,
            r.right_edge() - PICK_SIZE,
        ),
        r.x as int,
    )
}

pub open spec fn mute_rect(r: Rect) -> Rect {
    primitives::rect(
        button_x(r),
        body_bottom(r) - PICK_SIZE,
        PICK_SIZE as int,
        PICK_SIZE as int,
    )
}

/// A slot of the button stack, counted upward from the one above the mute
/// button.
pub open spec fn slot_rect(r: Rect, up: int) -> Rect {
    primitives::rect(
        button_x(r),
        body_bottom(r) - PICK_SIZE - PICKER_MUTE_GAP - PICK_SIZE - up * (PICK_SIZE
            + PICK_STACK_GAP),
        PICK_SIZE as int,
        PICK_SIZE as int,
    )
}

/// The sink behind the `i`th pin: the autoroute pin first, then one per sink.
pub open spec fn pin_sink(sinks: Seq<u32>, i: int) -> Option<u32> {
    if i == 0 {
        None
    } else {
        Some(sinks[i - 1])
    }
}

/// The pins of an app column: autoroute topmost, the last sink lowest.
pub open spec fn pins(r: Rect, sinks: Seq<u32>) -> Seq<(Rect, Option<u32>)> {
    Seq::new(
        sinks.len() + 1,
        |i: int| (slot_rect(r, sinks.len() - i), pin_sink(sinks, i)),
    )
}

/// One column.
pub open spec fn column_model(spec: SpecModel, r: Rect, sinks: Seq<u32>) -> ColumnModel {
    let nothing = primitives::rect(r.x as int, r.y as int, 0, 0);
    ColumnModel {
        id: spec.id,
        rect: r,
        icon: if spec.is_app {
            primitives::rect(
                r.x + (COLUMN_WIDTH - ICON_SIZE) / 2,
                r.y + ICON_TOP,
                ICON_SIZE as int,
                ICON_SIZE as int,
            )
        } else {
            nothing
        },
        name: if spec.is_app {
            primitives::rect(
                r.x as int,
                r.y + ICON_BOX_HEIGHT + ICON_TOP,
                COLUMN_WIDTH as int,
                NAME_H as int,
            )
        } else {
            primitives::rect(r.x as int, r.y + HEADER_TOP, COLUMN_WIDTH as int, NAME_H as int)
        },
        sub: if spec.is_app {
            nothing
        } else {
            primitives::rect(
                r.x as int,
                r.y + HEADER_TOP + NAME_H,
                COLUMN_WIDTH as int,
                NAME_H as int,
            )
        },
        slider: slider_model(track_rect(r), spec.cubic),
        meter: meter_rect(r),
        mute: mute_rect(r),
        targets: if spec.is_app {
            pins(r, sinks)
        } else {
            Seq::empty()
        },
        expand: if spec.is_app && spec.can_expand {
            slot_rect(r, sinks.len() as int + 1)
        } else {
            nothing
        },
        separator: primitives::rect(r.right_edge(), r.y as int, COL_GAP as int, r.h as int),
        is_app: spec.is_app,
    }
}

/// The hits of the pins, lowest first.
pub open spec fn pin_hits(id: RowIdView, r: Rect, sinks: Seq<u32>, n: int) -> Seq<HitModel> {
    Seq::new(
        n as nat,
        |k: int|
            HitModel {
                rect: slot_rect(r, k),
                target: HitTargetView::AppTarget {
                    row: id,
                    sink: pin_sink(sinks, sinks.len() - k),
                },
            },
    )
}

/// What can be aimed at in a column, bottom-up: the fader, then the pins and
/// the expand toggle or the device's heading, then the mute button, which wins
/// where it meets a pin.
pub open spec fn column_hits(spec: SpecModel, r: Rect, sinks: Seq<u32>) -> Seq<HitModel> {
    let model = column_model(spec, r, sinks);
    let slider = model.slider;
    let fader = seq![
        HitModel {
            rect: primitives::rect(
                slider.thumb.x as int,
                slider.track.y as int,
                slider.thumb.w as int,
                slider.track.h as int,
            ),
            target: HitTargetView::RowSlider(spec.id),
        },
    ];
    let middle = if spec.is_app {
        pin_hits(spec.id, r, sinks, sinks.len() as int + 1) + if spec.can_expand {
            seq![HitModel { rect: model.expand, target: HitTargetView::AppExpand(spec.id) }]
        } else {
            Seq::empty()
        }
    } else {
        seq![HitModel { rect: model.name, target: HitTargetView::DeviceDefault(spec.id) }]
    };
    (fader + middle).push(HitModel { rect: model.mute, target: HitTargetView::RowMute(spec.id) })
}

/// Push one more hit.
fn push_hit(hits: &mut Vec<Hit>, rect: Rect, target: HitTarget)
    ensures
        hit_models(final(hits)@) == hit_models(old(hits)@).push(
            HitModel { rect, target: target@ },
        ),
{
    let ghost before = hit_models(hits@);
    hits.push(Hit { rect, target });
    assert(hit_models(hits@) =~= before.push(HitModel { rect, target: target@ }));
}

/// A column's rectangle is one its parts can be counted in.
pub open spec fn column_fits(r: Rect, sinks: nat) -> bool {
    &&& -0x1400_0000 <= r.x <= 0x1400_0000
    &&& -0x200_0000 <= r.y <= 0x200_0000
    &&& r.w == COLUMN_WIDTH
    &&& 0 <= r.h <= 0x180_0000
    &&& sinks <= 0x10_0000
}

/// Lay out one column into `rect`, which spans the full height of the strip.
fn column(spec: ColumnSpec, r: Rect, sinks: &Vec<u32>, hits: &mut Vec<Hit>) -> (geom: ColumnGeom)
    requires
        column_fits(r, sinks@.len()),
    ensures
        geom@ == column_model(spec@, r, sinks@),
        hit_models(final(hits)@) == hit_models(old(hits)@) + column_hits(spec@, r, sinks@),
{
    let ghost before = hit_models(hits@);
    let x: i32 = r.x;
    let none = Rect { x, y: r.y, w: 0, h: 0 };
    // Header: an icon over a name for apps, a form heading over the device name
    // for devices. Fixed height either way, so the two kinds line up.
    let icon = if spec.is_app {
        Rect {
            x: x + (COLUMN_WIDTH - ICON_SIZE) / 2,
            y: r.y + ICON_TOP,
            w: ICON_SIZE,
            h: ICON_SIZE,
        }
    } else {
        none
    };
    let name = if spec.is_app {
        Rect { x, y: r.y + ICON_BOX_HEIGHT + ICON_TOP, w: COLUMN_WIDTH, h: NAME_H }
    } else {
        Rect { x, y: r.y + HEADER_TOP, w: COLUMN_WIDTH, h: NAME_H }
    };
    let sub = if spec.is_app {
        none
    } else {
        Rect { x, y: r.y + HEADER_TOP + NAME_H, w: COLUMN_WIDTH, h: NAME_H }
    };

    // Body: the meter and the trough side by side, centered as a pair, running
    // from under the header to the shared bottom margin.
    let top: i32 = r.y + COLUMN_HEADER_HEIGHT + HEADER_GAP;
    let bottom: i32 = r.bottom() - COLUMN_BOTTOM;
    let body_h: i32 = if bottom - top > 1 {
        bottom - top
    } else {
        1
    };
    let meter = Rect { x: x + METER_INSET, y: top, w: METER_WIDTH, h: body_h };
    let track = Rect { x: meter.right() + SLIDER_METER_GAP, y: top, w: SLIDER_WIDTH, h: body_h };
    let slider = slider_geom(track, spec.cubic);

    // The button stack rides over the pair's right edge, bottom-aligned: mute
    // last, target pins above it.
    let beside: i32 = track.right() + FADER_BUTTON_GAP;
    let last: i32 = r.right() - PICK_SIZE;
    let btn: i32 = if beside < last {
        beside
    } else {
        last
    };
    let btn_x: i32 = if btn > x {
        btn
    } else {
        x
    };
    let mute = Rect { x: btn_x, y: bottom - PICK_SIZE, w: PICK_SIZE, h: PICK_SIZE };

    // The slider takes the whole trough; the knob's overhang is part of it.
    push_hit(
        hits,
        Rect { x: slider.thumb.x, y: track.y, w: slider.thumb.w, h: track.h },
        HitTarget::RowSlider(spec.id.clone()),
    );
    let ghost fader = HitModel {
        rect: primitives::rect(
            slider.thumb.x as int,
            track.y as int,
            slider.thumb.w as int,
            track.h as int,
        ),
        target: HitTargetView::RowSlider(spec.id@),
    };

    let mut targets: Vec<(Rect, Option<u32>)> = Vec::new();
    let mut expand = none;
    if spec.is_app {
        // Autoroute first, then one pin per sink, stacked upward from the mute
        // button so the cluster reads bottom-up in the same order every time.
        let by: i32 = mute.y - PICKER_MUTE_GAP - PICK_SIZE;
        let count: usize = sinks.len() + 1;
        let ghost from = hit_models(hits@);
        let mut up: usize = 0;
        while up < count
            invariant
                up <= count == sinks@.len() + 1,
                sinks@.len() <= 0x10_0000,
                -0x400_0000 <= by <= 0x400_0000,
                btn_x == button_x(r),
                by == body_bottom(r) - PICK_SIZE - PICKER_MUTE_GAP - PICK_SIZE,
                hit_models(hits@) == from + pin_hits(spec.id@, r, sinks@, up as int),
            decreases count - up,
        {
            let i: usize = count - 1 - up;
            let sink: Option<u32> = if i == 0 {
                None
            } else {
                Some(sinks[i - 1])
            };
            let pin = Rect {
                x: btn_x,
                y: by - up as i32 * (PICK_SIZE + PICK_STACK_GAP),
                w: PICK_SIZE,
                h: PICK_SIZE,
            };
            let ghost so_far = hit_models(hits@);
            push_hit(hits, pin, HitTarget::AppTarget { row: spec.id.clone(), sink });
            proof {
                let hit = HitModel {
                    rect: pin,
                    target: HitTargetView::AppTarget { row: spec.id@, sink },
                };
                assert(pin_hits(spec.id@, r, sinks@, up + 1) =~= pin_hits(
                    spec.id@,
                    r,
                    sinks@,
                    up as int,
                ).push(hit));
                assert(so_far.push(hit) =~= from + pin_hits(spec.id@, r, sinks@, up + 1));
            }
            up = up + 1;
        }
        let mut i: usize = 0;
        while i < count
            invariant
                i <= count == sinks@.len() + 1,
                sinks@.len() <= 0x10_0000,
                -0x400_0000 <= by <= 0x400_0000,
                btn_x == button_x(r),
                by == body_bottom(r) - PICK_SIZE - PICKER_MUTE_GAP - PICK_SIZE,
                targets@ == pins(r, sinks@).take(i as int),
            decreases count - i,
        {
            let sink: Option<u32> = if i == 0 {
                None
            } else {
                Some(sinks[i - 1])
            };
            let up: i32 = (count - 1 - i) as i32;
            let pin = Rect {
                x: btn_x,
                y: by - up * (PICK_SIZE + PICK_STACK_GAP),
                w: PICK_SIZE,
                h: PICK_SIZE,
            };
            targets.push((pin, sink));
            proof {
                assert(pins(r, sinks@)[i as int] == (pin, sink));
                assert(targets@ =~= pins(r, sinks@).take(i + 1));
            }
            i = i + 1;
        }
        assert(targets@ =~= pins(r, sinks@));
        // The expand toggle goes one slot above the topmost pin so the cluster
        // keeps reading bottom-up.
        if spec.can_expand {
            expand = Rect {
                x: btn_x,
                y: by - count as i32 * (PICK_SIZE + PICK_STACK_GAP),
                w: PICK_SIZE,
                h: PICK_SIZE,
            };
            push_hit(hits, expand, HitTarget::AppExpand(spec.id.clone()));
        }
    } else {
        // A device has no pin. Its caps heading is the make-default button, and
        // the accent it wears while default is that button's state.
        push_hit(hits, name, HitTarget::DeviceDefault(spec.id.clone()));
    }
    let ghost almost = hit_models(hits@);

    // Pushed after the pins so it wins where the two would overlap.
    push_hit(hits, mute, HitTarget::RowMute(spec.id.clone()));
    let geom = ColumnGeom {
        id: spec.id.clone(),
        rect: r,
        icon,
        name,
        sub,
        slider,
        meter,
        mute,
        targets,
        expand,
        separator: Rect { x: r.right(), y: r.y, w: COL_GAP, h: r.h },
        is_app: spec.is_app,
    };
    proof {
        let model = column_model(spec@, r, sinks@);
        assert(track == track_rect(r));
        assert(geom@ =~= model);
        assert(hit_models(hits@) =~= before + column_hits(spec@, r, sinks@));
    }
    geom
}

// --- Chrome ---------------------------------------------------------------------------------

/// The window's own titlebar, laid out only when the shell draws its chrome.
#[derive(Clone, Copy, PartialEq, Eq, Debug, Structural)]
pub struct TitlebarGeom {
    pub bar: Rect,
    pub title: Rect,
    pub minimize: Rect,
    pub maximize: Rect,
    pub close: Rect,
}

/// A window button, counted from the right.
pub open spec fn window_button(window: Rect, from_right: int) -> Rect {
    primitives::rect(
        window.right_edge() - 3 - (from_right + 1) * WINDOW_BTN,
        window.y + 3,
        WINDOW_BTN as int,
        WINDOW_BTN as int,
    )
}

/// A drag strip with window buttons on the right, and the title filling what is
/// left.
pub open spec fn titlebar_model(window: Rect) -> TitlebarGeom {
    TitlebarGeom {
        bar: primitives::rect(
            window.x as int,
            window.y as int,
            window.w as int,
            TITLEBAR_HEIGHT as int,
        ),
        title: primitives::rect(
            window.x + STRIP_PAD,
            window.y as int,
            window.w - 3 - 3 * WINDOW_BTN - STRIP_PAD,
            TITLEBAR_HEIGHT as int,
        ),
        minimize: window_button(window, 2),
        maximize: window_button(window, 1),
        close: window_button(window, 0),
    }
}

/// The drag strip goes down first so the buttons on top of it win.
pub open spec fn titlebar_hits(window: Rect) -> Seq<HitModel> {
    let bar = titlebar_model(window);
    seq![
        HitModel { rect: bar.bar, target: HitTargetView::TitlebarDrag },
        HitModel { rect: bar.minimize, target: HitTargetView::WindowMinimize },
        HitModel { rect: bar.maximize, target: HitTargetView::WindowMaximize },
        HitModel { rect: bar.close, target: HitTargetView::WindowClose },
    ]
}

fn titlebar(window: Rect, hits: &mut Vec<Hit>) -> (bar: TitlebarGeom)
    requires
        within(window, 0x100_0000),
    ensures
        bar == titlebar_model(window),
        hit_models(final(hits)@) == hit_models(old(hits)@) + titlebar_hits(window),
{
    let ghost before = hit_models(hits@);
    let bar = Rect { x: window.x, y: window.y, w: window.w, h: TITLEBAR_HEIGHT };
    let pad: i32 = (TITLEBAR_HEIGHT - WINDOW_BTN) / 2;
    let y: i32 = bar.y + pad;
    // Right to left: close, maximize, minimize.
    let close = Rect { x: bar.right() - pad - WINDOW_BTN, y, w: WINDOW_BTN, h: WINDOW_BTN };
    let maximize = Rect { x: close.x - WINDOW_BTN, y, w: WINDOW_BTN, h: WINDOW_BTN };
    let minimize = Rect { x: maximize.x - WINDOW_BTN, y, w: WINDOW_BTN, h: WINDOW_BTN };
    let title = Rect {
        x: bar.x + STRIP_PAD,
        y: bar.y,
        w: minimize.x - bar.x - STRIP_PAD,
        h: bar.h,
    };
    push_hit(hits, bar, HitTarget::TitlebarDrag);
    push_hit(hits, minimize, HitTarget::WindowMinimize);
    push_hit(hits, maximize, HitTarget::WindowMaximize);
    push_hit(hits, close, HitTarget::WindowClose);
    assert(hit_models(hits@) =~= before + titlebar_hits(window));
    TitlebarGeom { bar, title, minimize, maximize, close }
}

/// The eight resize grabs around a window. Corners go down after edges so they
/// win where the two overlap.
pub open spec fn edge_hits(window: Rect) -> Seq<HitModel> {
    let g = RESIZE_GRAB as int;
    let c = 2 * RESIZE_GRAB;
    let (x, y, w, h) = (window.x as int, window.y as int, window.w as int, window.h as int);
    let (r, b) = (window.right_edge(), window.bottom_edge());
    seq![
        edge_hit(primitives::rect(x, y, w, g), ResizeEdge::Top),
        edge_hit(primitives::rect(x, b - g, w, g), ResizeEdge::Bottom),
        edge_hit(primitives::rect(x, y, g, h), ResizeEdge::Left),
        edge_hit(primitives::rect(r - g, y, g, h), ResizeEdge::Right),
        edge_hit(primitives::rect(x, y, c, c), ResizeEdge::TopLeft),
        edge_hit(primitives::rect(r - c, y, c, c), ResizeEdge::TopRight),
        edge_hit(primitives::rect(x, b - c, c, c), ResizeEdge::BottomLeft),
        edge_hit(primitives::rect(r - c, b - c, c, c), ResizeEdge::BottomRight),
    ]
}

pub open spec fn edge_hit(rect: Rect, edge: ResizeEdge) -> HitModel {
    HitModel { rect, target: HitTargetView::ResizeEdge(edge) }
}

fn resize_edges(window: Rect, hits: &mut Vec<Hit>)
    requires
        within(window, 0x100_0000),
    ensures
        hit_models(final(hits)@) == hit_models(old(hits)@) + edge_hits(window),
{
    let ghost before = hit_models(hits@);
    let g: i32 = RESIZE_GRAB;
    let c: i32 = g * 2;
    let (x, y, w, h): (i32, i32, i32, i32) = (window.x, window.y, window.w, window.h);
    let (r, b): (i32, i32) = (window.right(), window.bottom());
    push_hit(hits, Rect { x, y, w, h: g }, HitTarget::ResizeEdge(ResizeEdge::Top));
    push_hit(hits, Rect { x, y: b - g, w, h: g }, HitTarget::ResizeEdge(ResizeEdge::Bottom));
    push_hit(hits, Rect { x, y, w: g, h }, HitTarget::ResizeEdge(ResizeEdge::Left));
    push_hit(hits, Rect { x: r - g, y, w: g, h }, HitTarget::ResizeEdge(ResizeEdge::Right));
    push_hit(hits, Rect { x, y, w: c, h: c }, HitTarget::ResizeEdge(ResizeEdge::TopLeft));
    push_hit(
        hits,
        Rect { x: r - c, y, w: c, h: c },
        HitTarget::ResizeEdge(ResizeEdge::TopRight),
    );
    push_hit(
        hits,
        Rect { x, y: b - c, w: c, h: c },
        HitTarget::ResizeEdge(ResizeEdge::BottomLeft),
    );
    push_hit(
        hits,
        Rect { x: r - c, y: b - c, w: c, h: c },
        HitTarget::ResizeEdge(ResizeEdge::BottomRight),
    );
    assert(hit_models(hits@) =~= before + edge_hits(window));
}

/// Where the profile chip sits: in the window's own titlebar when there is one,
/// otherwise at the left of its own strip.
pub open spec fn chip_model(host: Rect) -> Rect {
    let h = primitives::most(host.h - 8, 1);
    primitives::rect(
        host.x + PROFILE_CHIP_PAD,
        host.y + half(host.h - h),
        primitives::least(
            PROFILE_CHIP_WIDTH as int,
            primitives::most(host.w - PROFILE_CHIP_PAD, 0),
        ),
        h,
    )
}

fn profile_chip(host: Rect) -> (chip: Rect)
    requires
        within(host, 0x200_0000),
    ensures
        chip == chip_model(host),
{
    let h: i32 = if host.h - 8 > 1 {
        host.h - 8
    } else {
        1
    };
    let room: i32 = if host.w - PROFILE_CHIP_PAD > 0 {
        host.w - PROFILE_CHIP_PAD
    } else {
        0
    };
    let w: i32 = if PROFILE_CHIP_WIDTH < room {
        PROFILE_CHIP_WIDTH
    } else {
        room
    };
    Rect { x: host.x + PROFILE_CHIP_PAD, y: host.y + half_of(host.h - h), w, h }
}

// --- The action bar --------------------------------------------------------------------------

/// A target on show, or none.
pub open spec fn shown_if(shown: bool, target: HitTargetView) -> Seq<HitTargetView> {
    if shown {
        seq![target]
    } else {
        Seq::empty()
    }
}

/// The section filters on show.
pub open spec fn filter_buttons(cfg: Settings) -> Seq<HitTargetView> {
    shown_if(cfg.show_input_button, HitTargetView::SectionFilter(Section::Inputs)) + shown_if(
        cfg.show_output_button,
        HitTargetView::SectionFilter(Section::Outputs),
    ) + shown_if(cfg.show_apps_button, HitTargetView::SectionFilter(Section::Apps))
}

/// The actions on show.
pub open spec fn action_buttons(cfg: Settings) -> Seq<HitTargetView> {
    shown_if(cfg.show_mute_button, HitTargetView::MuteAll) + shown_if(
        cfg.show_reset_button,
        HitTargetView::ResetTargets,
    )
}

/// Buttons stacked from `y` on.
pub open spec fn stacked(bar: Rect, y: int, buttons: Seq<HitTargetView>) -> Seq<HitModel> {
    Seq::new(
        buttons.len(),
        |k: int|
            HitModel {
                rect: primitives::rect(
                    bar.x + half(bar.w - ACTION_BTN_WIDTH),
                    y + k * (ACTION_BTN_HEIGHT + ACTION_GAP),
                    ACTION_BTN_WIDTH as int,
                    ACTION_BTN_HEIGHT as int,
                ),
                target: buttons[k],
            },
    )
}

/// The left action bar's buttons: the section filters, then a gap, then the
/// mute-all and reset actions. Hidden buttons are not laid out at all, so the
/// ones that remain close the gap.
pub open spec fn bar_hits(bar: Rect, cfg: Settings) -> Seq<HitModel> {
    let filters = filter_buttons(cfg);
    let actions = action_buttons(cfg);
    let y = bar.y + SIDEBAR_PAD;
    let below = y + filters.len() * (ACTION_BTN_HEIGHT + ACTION_GAP) + if filters.len() > 0
        && actions.len() > 0 {
        ACTION_CLUSTER_GAP as int
    } else {
        0
    };
    stacked(bar, y, filters) + stacked(bar, below, actions)
}

/// Push a button if it is on show, and say where the next one goes.
fn push_button(
    hits: &mut Vec<Hit>,
    x: i32,
    y: i32,
    shown: bool,
    target: HitTarget,
) -> (next: i32)
    requires
        -0x400_0000 <= y <= 0x400_0000,
    ensures
        next == if shown {
            y + ACTION_BTN_HEIGHT + ACTION_GAP
        } else {
            y as int
        },
        hit_models(final(hits)@) == if shown {
            hit_models(old(hits)@).push(
                HitModel {
                    rect: primitives::rect(
                        x as int,
                        y as int,
                        ACTION_BTN_WIDTH as int,
                        ACTION_BTN_HEIGHT as int,
                    ),
                    target: target@,
                },
            )
        } else {
            hit_models(old(hits)@)
        },
{
    if !shown {
        return y;
    }
    push_hit(hits, Rect { x, y, w: ACTION_BTN_WIDTH, h: ACTION_BTN_HEIGHT }, target);
    y + ACTION_BTN_HEIGHT + ACTION_GAP
}

#[verifier::rlimit(50)]
fn action_bar(bar: Rect, cfg: &Settings, hits: &mut Vec<Hit>)
    requires
        within(bar, 0x200_0000),
    ensures
        hit_models(final(hits)@) == hit_models(old(hits)@) + bar_hits(bar, *cfg),
{
    let ghost before = hit_models(hits@);
    let x: i32 = bar.x + half_of(bar.w - ACTION_BTN_WIDTH);
    let top: i32 = bar.y + SIDEBAR_PAD;
    let y1: i32 = push_button(
        hits,
        x,
        top,
        cfg.show_input_button,
        HitTarget::SectionFilter(Section::Inputs),
    );
    let y2: i32 = push_button(
        hits,
        x,
        y1,
        cfg.show_output_button,
        HitTarget::SectionFilter(Section::Outputs),
    );
    let y3: i32 = push_button(
        hits,
        x,
        y2,
        cfg.show_apps_button,
        HitTarget::SectionFilter(Section::Apps),
    );
    assert(hit_models(hits@) =~= before + stacked(bar, top as int, filter_buttons(*cfg)));
    let ghost filtered = hit_models(hits@);
    let any_filter = cfg.show_input_button || cfg.show_output_button || cfg.show_apps_button;
    let any_action = cfg.show_mute_button || cfg.show_reset_button;
    let below: i32 = if any_filter && any_action {
        y3 + ACTION_CLUSTER_GAP
    } else {
        y3
    };
    let y4: i32 = push_button(hits, x, below, cfg.show_mute_button, HitTarget::MuteAll);
    let _ = push_button(hits, x, y4, cfg.show_reset_button, HitTarget::ResetTargets);
    proof {
        assert(hit_models(hits@) =~= filtered + stacked(
            bar,
            below as int,
            action_buttons(*cfg),
        ));
        assert(hit_models(hits@) =~= before + bar_hits(bar, *cfg));
    }
}

// --- Scrollbars -------------------------------------------------------------------------------

/// A scrollbar: the lane it runs in and the slider riding on it.
#[derive(Clone, Copy, PartialEq, Eq, Debug, Structural)]
pub struct ScrollbarGeom {
    pub track: Rect,
    pub slider: Rect,
}

/// How far along its travel a scroll offset puts a slider.
pub open spec fn slid(travel: int, offset: int, last: int) -> int {
    if offset < 0 {
        -single::saturated(single::share(travel as nat, (-offset) as nat, last as nat) as int)
    } else {
        single::saturated(single::share(travel as nat, offset as nat, last as nat) as int)
    }
}

/// The strip's horizontal scrollbar, in the air the columns leave along the
/// bottom. Slider width is the visible share of the whole run of columns, and
/// its travel maps the scroll offset onto what that leaves.
pub open spec fn strip_bar_model(strip: Rect, scroll_x: int, scroll_max_x: int) -> ScrollbarGeom {
    let track = primitives::rect(
        strip.x + STRIP_PAD,
        strip.bottom_edge() - SCROLLBAR_LANE,
        primitives::most(strip.w - 2 * STRIP_PAD, 1),
        SCROLLBAR_LANE as int,
    );
    let share = if strip.w > 0 {
        (track.w * strip.w) / (strip.w + scroll_max_x)
    } else {
        0
    };
    let slider_w = between(
        share,
        primitives::least(SCROLLBAR_MIN_LEN as int, track.w as int),
        track.w as int,
    );
    ScrollbarGeom {
        track,
        slider: primitives::rect(
            single::saturated(track.x + slid(track.w - slider_w, scroll_x, scroll_max_x)),
            track.y + SCROLLBAR_INSET,
            slider_w,
            SCROLLBAR_LANE - 2 * SCROLLBAR_INSET,
        ),
    }
}

fn slide(travel: i32, offset: i32, last: i32) -> (at: i32)
    requires
        0 <= travel <= 0x1000_0000,
        -0x1000_0000 <= offset <= 0x1000_0000,
        0 < last,
    ensures
        at == slid(travel as int, offset as int, last as int),
{
    if offset < 0 {
        -share_of(travel as u32, (-offset) as u32, last as u32)
    } else {
        share_of(travel as u32, offset as u32, last as u32)
    }
}

fn strip_scrollbar(
    strip: Rect,
    scroll_x: i32,
    scroll_max_x: i32,
    hits: &mut Vec<Hit>,
) -> (bar: ScrollbarGeom)
    requires
        within(strip, 0x200_0000),
        -0x1000_0000 <= scroll_x <= 0x1000_0000,
        0 < scroll_max_x <= 0x1000_0000,
    ensures
        bar == strip_bar_model(strip, scroll_x as int, scroll_max_x as int),
        hit_models(final(hits)@) == hit_models(old(hits)@).push(
            HitModel { rect: bar.track, target: HitTargetView::StripScrollbar },
        ),
{
    let wide: i32 = strip.w - 2 * STRIP_PAD;
    let track = Rect {
        x: strip.x + STRIP_PAD,
        y: strip.bottom() - SCROLLBAR_LANE,
        w: if wide > 1 {
            wide
        } else {
            1
        },
        h: SCROLLBAR_LANE,
    };
    let share: i64 = if strip.w > 0 {
        assert(track.w * strip.w <= 0x200_0000 * 0x200_0000) by (nonlinear_arith)
            requires
                0 <= track.w <= 0x200_0000,
                0 <= strip.w <= 0x200_0000,
        ;
        assert(0 <= track.w * strip.w) by (nonlinear_arith)
            requires
                0 <= track.w,
                0 <= strip.w,
        ;
        (track.w as i64 * strip.w as i64) / (strip.w as i64 + scroll_max_x as i64)
    } else {
        0
    };
    let low: i32 = if SCROLLBAR_MIN_LEN < track.w {
        SCROLLBAR_MIN_LEN
    } else {
        track.w
    };
    let slider_w: i32 = if share < low as i64 {
        low
    } else if share > track.w as i64 {
        track.w
    } else {
        share as i32
    };
    let at: i64 = track.x as i64 + slide(track.w - slider_w, scroll_x, scroll_max_x) as i64;
    let x: i32 = if at > i32::MAX as i64 {
        i32::MAX
    } else if at < i32::MIN as i64 {
        i32::MIN
    } else {
        at as i32
    };
    // The whole lane takes the press, so a click beside the slider still lands
    // on the bar rather than the column behind it.
    push_hit(hits, track, HitTarget::StripScrollbar);
    ScrollbarGeom {
        track,
        slider: Rect {
            x,
            y: track.y + SCROLLBAR_INSET,
            w: slider_w,
            h: SCROLLBAR_LANE - 2 * SCROLLBAR_INSET,
        },
    }
}

// --- The palette ------------------------------------------------------------------------------

/// The command palette while it is open.
#[derive(Debug)]
pub struct PaletteGeom {
    pub panel: Rect,
    pub input: Rect,
    /// One rectangle per row on screen, starting at `first_visible`.
    pub rows: Vec<Rect>,
    /// Index into the filtered list of the first row in `rows`, so a row's
    /// rectangle and its command still find each other.
    pub first_visible: usize,
    /// Track and slider, absent while the whole list fits.
    pub scrollbar: Option<ScrollbarGeom>,
    /// Where "no matching commands" is drawn when there are no rows.
    pub empty: Rect,
}

#[verifier::ext_equal]
pub struct PaletteGeomModel {
    pub panel: Rect,
    pub input: Rect,
    pub rows: Seq<Rect>,
    pub first_visible: usize,
    pub scrollbar: Option<ScrollbarGeom>,
    pub empty: Rect,
}

impl View for PaletteGeom {
    type V = PaletteGeomModel;

    open spec fn view(&self) -> PaletteGeomModel {
        PaletteGeomModel {
            panel: self.panel,
            input: self.input,
            rows: self.rows@,
            first_visible: self.first_visible,
            scrollbar: self.scrollbar,
            empty: self.empty,
        }
    }
}

pub open spec fn palette_width(content: Rect) -> int {
    between(content.w - 80, 120, 520)
}

pub open spec fn palette_x(content: Rect) -> int {
    content.x + half(content.w - palette_width(content))
}

/// Rows on show: a fixed number, so a long match list keeps the panel the same
/// height as a short one; what fits in a window too short for that many.
pub open spec fn palette_capacity(content: Rect, total: int) -> int {
    let room = if content.h - 40 - PALETTE_CHROME_H >= 2 * PALETTE_ROW_H {
        (content.h - 40 - PALETTE_CHROME_H) / (PALETTE_ROW_H as int)
    } else {
        1
    };
    primitives::least(primitives::least(total, VISIBLE_ROWS as int), room)
}

/// The first row on show.
pub open spec fn palette_first(palette: PaletteModel, capacity: int) -> int {
    command_palette::into_view(
        primitives::least(palette.scroll as int, palette.rows.len() - capacity),
        palette.selected as int,
        capacity,
    )
}

/// Where the list begins.
pub open spec fn palette_list_top(content: Rect) -> int {
    content.y + 40 + 8 + FIELD_H + 6
}

/// The rows' rectangles. A scrollbar takes its lane out of them rather than
/// sitting over them, so a long label never runs under the slider.
pub open spec fn palette_row(content: Rect, scrolls: bool, k: int) -> Rect {
    primitives::rect(
        palette_x(content) + 6,
        palette_list_top(content) + k * PALETTE_ROW_H,
        palette_width(content) - 12 - if scrolls {
            SCROLLBAR_LANE as int
        } else {
            0
        },
        PALETTE_ROW_H - 2,
    )
}

pub open spec fn palette_rows(content: Rect, scrolls: bool, capacity: int) -> Seq<Rect> {
    Seq::new(capacity as nat, |k: int| palette_row(content, scrolls, k))
}

/// The palette's scrollbar: slider length is the visible fraction of the list,
/// floored so it stays grabbable, and its travel maps the scroll offset onto
/// whatever room that leaves.
pub open spec fn palette_bar(content: Rect, total: int, capacity: int, first: int) ->
    ScrollbarGeom {
    let track = primitives::rect(
        palette_x(content) + palette_width(content) - 6 - SCROLLBAR_LANE,
        palette_list_top(content),
        SCROLLBAR_LANE as int,
        capacity * PALETTE_ROW_H,
    );
    let slider_h = between(
        slid(track.h as int, capacity, total),
        SCROLLBAR_MIN_LEN as int,
        track.h as int,
    );
    ScrollbarGeom {
        track,
        slider: primitives::rect(
            track.x + SCROLLBAR_INSET,
            single::saturated(track.y + slid(track.h - slider_h, first, total - capacity)),
            SCROLLBAR_LANE - 2 * SCROLLBAR_INSET,
            slider_h,
        ),
    }
}

/// The command palette: a search field over a scrolling window of the matching
/// command rows.
pub open spec fn palette_geom(palette: PaletteModel, content: Rect) -> PaletteGeomModel {
    let w = palette_width(content);
    let x = palette_x(content);
    let total = palette.rows.len() as int;
    let capacity = palette_capacity(content, total);
    let first = palette_first(palette, capacity);
    let scrolls = total > capacity;
    PaletteGeomModel {
        panel: primitives::rect(
            x,
            content.y + 40,
            w,
            PALETTE_CHROME_H + primitives::most(capacity, 1) * PALETTE_ROW_H,
        ),
        input: primitives::rect(x + 10, content.y + 40 + 8, w - 20, FIELD_H as int),
        rows: palette_rows(content, scrolls, capacity),
        first_visible: first as usize,
        scrollbar: if scrolls {
            Some(palette_bar(content, total, capacity, first))
        } else {
            None
        },
        empty: primitives::rect(
            x + 14,
            palette_list_top(content) + capacity * PALETTE_ROW_H,
            w - 28,
            PALETTE_ROW_H as int,
        ),
    }
}

/// The hits of the first `n` rows on show, each under its place in the list.
pub open spec fn row_hits(rows: Seq<Rect>, first: int, n: int) -> Seq<HitModel> {
    Seq::new(
        n as nat,
        |k: int|
            HitModel { rect: rows[k], target: HitTargetView::PaletteRow((first + k) as usize) },
    )
}

/// The backdrop goes down first so a press that misses the panel dismisses
/// instead of reaching the mixer behind it; then the field and the rows.
pub open spec fn palette_hits(geom: PaletteGeomModel, content: Rect) -> Seq<HitModel> {
    seq![
        HitModel { rect: content, target: HitTargetView::Backdrop },
        HitModel { rect: geom.input, target: HitTargetView::PaletteInput },
    ] + row_hits(geom.rows, geom.first_visible as int, geom.rows.len() as int)
}

/// A palette whose selection is one of its rows.
pub open spec fn palette_wf(palette: PaletteModel) -> bool {
    &&& palette.rows.len() <= 0x1000_0000
    &&& palette.selected == 0 || palette.selected < palette.rows.len()
}

/// How many rows are on show, and which is the first.
fn palette_window(view: &PaletteView, content: Rect) -> (window: (usize, usize))
    requires
        within(content, 0x200_0000),
        palette_wf(view@),
    ensures
        window.0 == palette_capacity(content, view@.rows.len() as int),
        window.1 == palette_first(view@, window.0 as int),
        window.0 <= VISIBLE_ROWS,
        window.1 + window.0 <= view@.rows.len(),
        view@.rows.len() > 0 ==> window.0 > 0,
{
    let total: usize = view.rows.len();
    assert(view@.rows.len() == total);
    let free: i32 = content.h - 40 - PALETTE_CHROME_H;
    let room: usize = if free >= 2 * PALETTE_ROW_H {
        (free / PALETTE_ROW_H) as usize
    } else {
        1
    };
    let most: usize = if total < VISIBLE_ROWS {
        total
    } else {
        VISIBLE_ROWS
    };
    let capacity: usize = if most < room {
        most
    } else {
        room
    };
    let scroll: usize = if view.scroll < total - capacity {
        view.scroll
    } else {
        total - capacity
    };
    (capacity, scroll_into_view(scroll, view.selected, capacity))
}

/// Where the palette's panel begins, and how wide it is.
fn palette_span(content: Rect) -> (span: (i32, i32))
    requires
        within(content, 0x200_0000),
    ensures
        span.0 == palette_x(content),
        span.1 == palette_width(content),
        120 <= span.1 <= 520,
        -0x800_0000 <= span.0 <= 0x800_0000,
{
    let w: i32 = if content.w - 80 < 120 {
        120
    } else if content.w - 80 > 520 {
        520
    } else {
        content.w - 80
    };
    (content.x + half_of(content.w - w), w)
}

fn palette_scrollbar(content: Rect, total: usize, capacity: usize, first: usize) -> (bar:
    ScrollbarGeom)
    requires
        within(content, 0x200_0000),
        0 < capacity <= VISIBLE_ROWS,
        capacity < total <= 0x1000_0000,
        first <= total - capacity,
    ensures
        bar == palette_bar(content, total as int, capacity as int, first as int),
{
    let (x, w): (i32, i32) = palette_span(content);
    let track = Rect {
        x: x + w - 6 - SCROLLBAR_LANE,
        y: content.y + 40 + 8 + FIELD_H + 6,
        w: SCROLLBAR_LANE,
        h: capacity as i32 * PALETTE_ROW_H,
    };
    let shown: i32 = slide(track.h, capacity as i32, total as i32);
    let slider_h: i32 = if shown < SCROLLBAR_MIN_LEN {
        SCROLLBAR_MIN_LEN
    } else if shown > track.h {
        track.h
    } else {
        shown
    };
    let at: i64 = track.y as i64 + slide(
        track.h - slider_h,
        first as i32,
        (total - capacity) as i32,
    ) as i64;
    let y: i32 = if at > i32::MAX as i64 {
        i32::MAX
    } else {
        at as i32
    };
    ScrollbarGeom {
        track,
        slider: Rect {
            x: track.x + SCROLLBAR_INSET,
            y,
            w: SCROLLBAR_LANE - 2 * SCROLLBAR_INSET,
            h: slider_h,
        },
    }
}

/// Push the rows on show, and hand back their rectangles.
fn palette_list(
    content: Rect,
    scrolls: bool,
    capacity: usize,
    first: usize,
    hits: &mut Vec<Hit>,
) -> (rows: Vec<Rect>)
    requires
        within(content, 0x200_0000),
        capacity <= VISIBLE_ROWS,
        first + capacity <= usize::MAX,
    ensures
        rows@ == palette_rows(content, scrolls, capacity as int),
        hit_models(final(hits)@) == hit_models(old(hits)@) + row_hits(
            rows@,
            first as int,
            capacity as int,
        ),
{
    let (x, w): (i32, i32) = palette_span(content);
    let row_w: i32 = if scrolls {
        w - 12 - SCROLLBAR_LANE
    } else {
        w - 12
    };
    let list_top: i32 = content.y + 40 + 8 + FIELD_H + 6;
    let ghost from = hit_models(hits@);
    let ghost all = palette_rows(content, scrolls, capacity as int);
    let mut rows: Vec<Rect> = Vec::new();
    let mut k: usize = 0;
    assert(from =~= from + row_hits(all, first as int, 0));
    assert(rows@ =~= all.take(0));
    while k < capacity
        invariant
            k <= capacity <= VISIBLE_ROWS,
            first + capacity <= usize::MAX,
            all == palette_rows(content, scrolls, capacity as int),
            -0x800_0000 <= list_top <= 0x800_0000,
            list_top == palette_list_top(content),
            -0x800_0000 <= x <= 0x800_0000,
            x == palette_x(content),
            row_w == palette_row(content, scrolls, 0).w,
            rows@ == all.take(k as int),
            hit_models(hits@) == from + row_hits(all, first as int, k as int),
        decreases capacity - k,
    {
        let r = Rect {
            x: x + 6,
            y: list_top + k as i32 * PALETTE_ROW_H,
            w: row_w,
            h: PALETTE_ROW_H - 2,
        };
        assert(r == all[k as int]);
        let ghost so_far = hit_models(hits@);
        push_hit(hits, r, HitTarget::PaletteRow(first + k));
        rows.push(r);
        proof {
            let hit = HitModel { rect: r, target: HitTargetView::PaletteRow((first + k) as usize) };
            assert(row_hits(all, first as int, k + 1) =~= row_hits(
                all,
                first as int,
                k as int,
            ).push(hit));
            assert(so_far.push(hit) =~= from + row_hits(all, first as int, k + 1));
            assert(rows@ =~= all.take(k + 1));
        }
        k = k + 1;
    }
    assert(rows@ =~= all);
    rows
}

fn palette(view: &PaletteView, content: Rect, hits: &mut Vec<Hit>) -> (geom: PaletteGeom)
    requires
        within(content, 0x200_0000),
        palette_wf(view@),
    ensures
        geom@ == palette_geom(view@, content),
        hit_models(final(hits)@) == hit_models(old(hits)@) + palette_hits(geom@, content),
        geom@.rows.len() <= view@.rows.len(),
{
    let ghost before = hit_models(hits@);
    push_hit(hits, content, HitTarget::Backdrop);
    let (x, w): (i32, i32) = palette_span(content);
    let (capacity, first): (usize, usize) = palette_window(view, content);
    let total: usize = view.rows.len();
    assert(view@.rows.len() == total);
    let lines: i32 = if capacity > 1 {
        capacity as i32
    } else {
        1
    };
    let panel = Rect { x, y: content.y + 40, w, h: PALETTE_CHROME_H + lines * PALETTE_ROW_H };
    let input = Rect { x: x + 10, y: panel.y + 8, w: w - 20, h: FIELD_H };
    push_hit(hits, input, HitTarget::PaletteInput);
    let scrolls = total > capacity;
    let rows = palette_list(content, scrolls, capacity, first, hits);
    let scrollbar = if scrolls {
        Some(palette_scrollbar(content, total, capacity, first))
    } else {
        None
    };
    let geom = PaletteGeom {
        panel,
        input,
        rows,
        first_visible: first,
        scrollbar,
        empty: Rect {
            x: x + 14,
            y: input.bottom() + 6 + capacity as i32 * PALETTE_ROW_H,
            w: w - 28,
            h: PALETTE_ROW_H,
        },
    };
    proof {
        assert(geom@ =~= palette_geom(view@, content));
        assert(hit_models(hits@) =~= before + palette_hits(geom@, content));
    }
    geom
}

// --- The modal --------------------------------------------------------------------------------

/// An open create / rename / delete dialog.
#[derive(Clone, Copy, PartialEq, Eq, Debug, Structural)]
pub struct ModalGeom {
    pub panel: Rect,
    pub title: Rect,
    pub body: Rect,
    /// The name field, absent on dialogs that only confirm.
    pub input: Option<Rect>,
    pub error: Rect,
    pub cancel: Rect,
    pub confirm: Rect,
}

/// A modal dialog: title, body, optional name field, error line, and the
/// cancel/confirm pair along the bottom.
pub open spec fn modal_geom(view: ModalModel, content: Rect) -> ModalGeom {
    let w = primitives::least(MODAL_W as int, content.w - 40);
    let h: int = if view.input_visible {
        150
    } else {
        130
    };
    let x = content.x + half(content.w - w);
    let y = content.y + half(content.h - h);
    let below_body = y + 40 + if view.body.len() > 0 {
        24int
    } else {
        0
    };
    let below_input = below_body + if view.input_visible {
        38int
    } else {
        0
    };
    let bw = half(w - 40);
    ModalGeom {
        panel: primitives::rect(x, y, w, h),
        title: primitives::rect(x + 16, y + 14, w - 32, 20),
        body: primitives::rect(x + 16, y + 40, w - 32, 20),
        input: if view.input_visible {
            Some(primitives::rect(x + 16, below_body, w - 32, FIELD_H as int))
        } else {
            None
        },
        error: primitives::rect(x + 16, below_input, w - 32, 20),
        cancel: primitives::rect(x + 16, y + h - 42, bw, 30),
        confirm: primitives::rect(x + w - 16 - bw, y + h - 42, bw, 30),
    }
}

pub open spec fn modal_hits(geom: ModalGeom, content: Rect) -> Seq<HitModel> {
    seq![HitModel { rect: content, target: HitTargetView::Backdrop }] + (match geom.input {
        Some(r) => seq![HitModel { rect: r, target: HitTargetView::ModalInput }],
        None => Seq::empty(),
    }) + seq![
        HitModel { rect: geom.cancel, target: HitTargetView::ModalCancel },
        HitModel { rect: geom.confirm, target: HitTargetView::ModalConfirm },
    ]
}

fn modal(view: &ModalView, content: Rect, hits: &mut Vec<Hit>) -> (geom: ModalGeom)
    requires
        within(content, 0x200_0000),
    ensures
        geom == modal_geom(view@, content),
        hit_models(final(hits)@) == hit_models(old(hits)@) + modal_hits(geom, content),
{
    let ghost before = hit_models(hits@);
    push_hit(hits, content, HitTarget::Backdrop);
    let w: i32 = if MODAL_W < content.w - 40 {
        MODAL_W
    } else {
        content.w - 40
    };
    let h: i32 = if view.input_visible {
        150
    } else {
        130
    };
    let x: i32 = content.x + half_of(content.w - w);
    let y: i32 = content.y + half_of(content.h - h);
    let panel = Rect { x, y, w, h };
    let title = Rect { x: x + 16, y: y + 14, w: w - 32, h: 20 };
    let mut cy: i32 = y + 40;
    let body = Rect { x: x + 16, y: cy, w: w - 32, h: 20 };
    if !view.body.as_str().is_empty() {
        cy = cy + 24;
    }
    let input: Option<Rect> = if view.input_visible {
        let r = Rect { x: x + 16, y: cy, w: w - 32, h: FIELD_H };
        push_hit(hits, r, HitTarget::ModalInput);
        cy = cy + 38;
        Some(r)
    } else {
        None
    };
    let error = Rect { x: x + 16, y: cy, w: w - 32, h: 20 };
    let bh: i32 = 30;
    let by: i32 = y + h - bh - 12;
    let bw: i32 = half_of(w - 40);
    let cancel = Rect { x: x + 16, y: by, w: bw, h: bh };
    let confirm = Rect { x: x + w - 16 - bw, y: by, w: bw, h: bh };
    push_hit(hits, cancel, HitTarget::ModalCancel);
    push_hit(hits, confirm, HitTarget::ModalConfirm);
    let geom = ModalGeom { panel, title, body, input, error, cancel, confirm };
    proof {
        assert(geom == modal_geom(view@, content));
        assert(hit_models(hits@) =~= before + modal_hits(geom, content));
    }
    geom
}

// --- The profile menu ----------------------------------------------------------------------------

/// One row of the profile dropdown: the profile a click applies.
#[derive(Debug)]
pub struct ProfileRowGeom {
    pub name: String,
    pub rect: Rect,
    pub active: bool,
}

#[verifier::ext_equal]
pub struct ProfileRowGeomModel {
    pub name: Seq<char>,
    pub rect: Rect,
    pub active: bool,
}

impl View for ProfileRowGeom {
    type V = ProfileRowGeomModel;

    open spec fn view(&self) -> ProfileRowGeomModel {
        ProfileRowGeomModel { name: self.name@, rect: self.rect, active: self.active }
    }
}

/// The dropped-open profile selector.
#[derive(Debug)]
pub struct ProfileMenuGeom {
    pub panel: Rect,
    pub rows: Vec<ProfileRowGeom>,
    /// The rule between the profiles and the row that makes a new one.
    pub separator: Rect,
    pub create: Rect,
}

#[verifier::ext_equal]
pub struct MenuGeomModel {
    pub panel: Rect,
    pub rows: Seq<ProfileRowGeomModel>,
    pub separator: Rect,
    pub create: Rect,
}

pub open spec fn menu_rows(rows: Seq<ProfileRowGeom>) -> Seq<ProfileRowGeomModel> {
    Seq::new(rows.len(), |i: int| rows[i]@)
}

impl View for ProfileMenuGeom {
    type V = MenuGeomModel;

    open spec fn view(&self) -> MenuGeomModel {
        MenuGeomModel {
            panel: self.panel,
            rows: menu_rows(self.rows@),
            separator: self.separator,
            create: self.create,
        }
    }
}

pub open spec fn menu_width(chip: Rect) -> int {
    primitives::most(chip.w as int, MENU_MIN_W as int)
}

/// Where the menu's first row begins.
pub open spec fn menu_top(chip: Rect) -> int {
    chip.bottom_edge() + 2 * MENU_PAD
}

pub open spec fn menu_row(chip: Rect, k: int) -> Rect {
    primitives::rect(
        chip.x as int,
        menu_top(chip) + k * MENU_ROW_H,
        menu_width(chip),
        MENU_ROW_H as int,
    )
}

/// The profile dropdown under its chip: every profile, a rule, then the row
/// that creates a new one.
pub open spec fn menu_geom(rows: Seq<ProfileRowModel>, chip: Rect) -> MenuGeomModel {
    let n = rows.len() as int;
    MenuGeomModel {
        panel: primitives::rect(
            chip.x as int,
            chip.bottom_edge() + MENU_PAD,
            menu_width(chip),
            MENU_PAD * 2 + (n + 1) * MENU_ROW_H + MENU_SEP_H,
        ),
        rows: Seq::new(
            rows.len(),
            |k: int|
                ProfileRowGeomModel {
                    name: rows[k].name,
                    rect: menu_row(chip, k),
                    active: rows[k].active,
                },
        ),
        separator: primitives::rect(
            chip.x as int,
            menu_top(chip) + n * MENU_ROW_H,
            menu_width(chip),
            MENU_SEP_H as int,
        ),
        create: primitives::rect(
            chip.x as int,
            menu_top(chip) + n * MENU_ROW_H + MENU_SEP_H,
            menu_width(chip),
            MENU_ROW_H as int,
        ),
    }
}

/// A whole row applies its profile; the last one makes a new one.
pub open spec fn menu_hits(geom: MenuGeomModel) -> Seq<HitModel> {
    menu_row_hits(geom, geom.rows.len() as int).push(
        HitModel { rect: geom.create, target: HitTargetView::ProfileCreate },
    )
}

pub open spec fn menu_row_hits(geom: MenuGeomModel, n: int) -> Seq<HitModel> {
    Seq::new(
        n as nat,
        |k: int|
            HitModel {
                rect: geom.rows[k].rect,
                target: HitTargetView::ProfileApply(geom.rows[k].name),
            },
    )
}

fn profile_menu(view: &ProfileMenuView, chip: Rect, hits: &mut Vec<Hit>) -> (geom: ProfileMenuGeom)
    requires
        within(chip, 0x400_0000),
        view.rows@.len() <= 0x10_0000,
    ensures
        geom@ == menu_geom(view@.rows, chip),
        hit_models(final(hits)@) == hit_models(old(hits)@) + menu_hits(geom@),
{
    let ghost before = hit_models(hits@);
    let ghost model = menu_geom(view@.rows, chip);
    let width: i32 = if chip.w > MENU_MIN_W {
        chip.w
    } else {
        MENU_MIN_W
    };
    let count: i32 = view.rows.len() as i32;
    // Every profile, a rule, then the row that creates a new one.
    let height: i32 = MENU_PAD * 2 + (count + 1) * MENU_ROW_H + MENU_SEP_H;
    let panel = Rect { x: chip.x, y: chip.bottom() + MENU_PAD, w: width, h: height };
    let mut y: i32 = panel.y + MENU_PAD;
    let mut rows: Vec<ProfileRowGeom> = Vec::new();
    let mut k: usize = 0;
    assert(before =~= before + menu_row_hits(model, 0));
    while k < view.rows.len()
        invariant
            k <= view.rows@.len() == view@.rows.len(),
            view.rows@.len() <= 0x10_0000,
            within(chip, 0x400_0000),
            model == menu_geom(view@.rows, chip),
            width == menu_width(chip),
            panel.x == chip.x,
            y == menu_top(chip) + k * MENU_ROW_H,
            rows@.len() == k,
            forall|j: int| 0 <= j < k ==> (#[trigger] rows@[j])@ == model.rows[j],
            hit_models(hits@) == before + menu_row_hits(model, k as int),
        decreases view.rows@.len() - k,
    {
        let row = &view.rows[k];
        assert(view@.rows[k as int] == row@);
        // A whole row applies its profile. Renaming and deleting live in the
        // command palette, so there is nothing else here to aim at.
        let full = Rect { x: panel.x, y, w: width, h: MENU_ROW_H };
        assert(full == model.rows[k as int].rect);
        let ghost so_far = hit_models(hits@);
        push_hit(hits, full, HitTarget::ProfileApply(row.name.clone()));
        rows.push(ProfileRowGeom { name: row.name.clone(), rect: full, active: row.active });
        proof {
            let hit = HitModel { rect: full, target: HitTargetView::ProfileApply(row.name@) };
            assert(menu_row_hits(model, k + 1) =~= menu_row_hits(model, k as int).push(hit));
            assert(so_far.push(hit) =~= before + menu_row_hits(model, k + 1));
        }
        y = y + MENU_ROW_H;
        k = k + 1;
    }
    // A rule sets making a profile apart from picking one.
    let separator = Rect { x: panel.x, y, w: width, h: MENU_SEP_H };
    let create = Rect { x: panel.x, y: y + MENU_SEP_H, w: width, h: MENU_ROW_H };
    push_hit(hits, create, HitTarget::ProfileCreate);
    let geom = ProfileMenuGeom { panel, rows, separator, create };
    proof {
        assert(geom@.rows =~= model.rows);
        assert(geom@ =~= model);
        assert(hit_models(hits@) =~= before + menu_hits(model));
    }
    geom
}

// --- The frame -------------------------------------------------------------------------------------

/// A window cut into its regions.
#[derive(Clone, Copy, PartialEq, Eq, Debug, Structural)]
pub struct Frame {
    pub titlebar: Option<TitlebarGeom>,
    pub content: Rect,
    pub profile_strip: Option<Rect>,
    pub chip: Option<Rect>,
    pub sidebar: Option<Rect>,
    pub strip: Rect,
}

/// Client-drawn chrome takes the top strip; the mixer body gets the rest.
pub open spec fn content_of(chrome: Chrome, window: Rect) -> Rect {
    if chrome == Chrome::Client {
        primitives::rect(
            window.x as int,
            window.y + TITLEBAR_HEIGHT,
            window.w as int,
            window.h - TITLEBAR_HEIGHT,
        )
    } else {
        window
    }
}

/// The strip the profile selector gets across the top, unless a drawn titlebar
/// carries it or the toolkit hosts it as a widget of its own.
pub open spec fn profile_strip_of(content: Rect) -> Rect {
    primitives::rect(
        content.x as int,
        content.y as int,
        content.w as int,
        PROFILE_STRIP_HEIGHT as int,
    )
}

/// The mixer's body: what the profile strip leaves.
pub open spec fn body_of(chrome: Chrome, content: Rect) -> Rect {
    if chrome == Chrome::Server {
        primitives::rect(
            content.x as int,
            content.y + PROFILE_STRIP_HEIGHT,
            content.w as int,
            content.h - PROFILE_STRIP_HEIGHT,
        )
    } else {
        content
    }
}

/// The action bar's fixed strip down the left.
pub open spec fn sidebar_of(body: Rect) -> Rect {
    primitives::rect(body.x as int, body.y as int, SIDEBAR_WIDTH as int, body.h as int)
}

/// The columns' area: what the action bar leaves of the body.
pub open spec fn strip_of(body: Rect, sidebar: bool) -> Rect {
    if sidebar {
        primitives::rect(
            body.x + SIDEBAR_WIDTH,
            body.y as int,
            body.w - SIDEBAR_WIDTH,
            body.h as int,
        )
    } else {
        body
    }
}

pub open spec fn frame_model(chrome: Chrome, cfg: Settings, window: Rect) -> Frame {
    let content = content_of(chrome, window);
    let body = body_of(chrome, content);
    Frame {
        titlebar: if chrome == Chrome::Client {
            Some(titlebar_model(window))
        } else {
            None
        },
        content,
        profile_strip: if chrome == Chrome::Server {
            Some(profile_strip_of(content))
        } else {
            None
        },
        chip: match chrome {
            Chrome::Server => Some(chip_model(profile_strip_of(content))),
            Chrome::Client => Some(chip_model(titlebar_model(window).title)),
            // With the selector in the toolkit's header there is no chip to
            // place, and nothing here for a pointer to aim at.
            Chrome::Toolkit => None,
        },
        sidebar: if cfg.show_sidebar {
            Some(sidebar_of(body))
        } else {
            None
        },
        strip: strip_of(body, cfg.show_sidebar),
    }
}

pub open spec fn frame_hits(chrome: Chrome, cfg: Settings, window: Rect) -> Seq<HitModel> {
    let frame = frame_model(chrome, cfg, window);
    (if chrome == Chrome::Client {
        titlebar_hits(window)
    } else {
        Seq::empty()
    }) + (match frame.chip {
        Some(chip) => seq![HitModel { rect: chip, target: HitTargetView::ProfileSelector }],
        None => Seq::empty(),
    }) + (match frame.sidebar {
        Some(bar) => bar_hits(bar, cfg),
        None => Seq::empty(),
    })
}

fn frame(chrome: Chrome, cfg: &Settings, window: Rect, hits: &mut Vec<Hit>) -> (frame: Frame)
    requires
        within(window, 0x100_0000),
    ensures
        frame == frame_model(chrome, *cfg, window),
        hit_models(final(hits)@) == hit_models(old(hits)@) + frame_hits(chrome, *cfg, window),
        within(frame.content, 0x110_0000),
        within(frame.strip, 0x120_0000),
        frame.chip matches Some(chip) ==> within(chip, 0x200_0000),
{
    let ghost before = hit_models(hits@);
    let bar: Option<TitlebarGeom> = if chrome == Chrome::Client {
        Some(titlebar(window, hits))
    } else {
        None
    };
    let ghost titled = hit_models(hits@);
    let content = match bar {
        Some(t) => Rect { x: window.x, y: t.bar.bottom(), w: window.w, h: window.h - t.bar.h },
        None => window,
    };
    let profile_strip = match chrome {
        Chrome::Server => Some(
            Rect { x: content.x, y: content.y, w: content.w, h: PROFILE_STRIP_HEIGHT },
        ),
        _ => None,
    };
    let body = match profile_strip {
        Some(p) => Rect { x: content.x, y: p.bottom(), w: content.w, h: content.h - p.h },
        None => content,
    };
    let chip = match chrome {
        Chrome::Toolkit => None,
        _ => {
            let host = match (bar, profile_strip) {
                (Some(t), _) => t.title,
                (None, Some(p)) => p,
                (None, None) => content,
            };
            let chip = profile_chip(host);
            push_hit(hits, chip, HitTarget::ProfileSelector);
            Some(chip)
        },
    };
    let ghost chipped = hit_models(hits@);
    // The action bar takes a fixed strip down the left; the columns take what is
    // left of the body.
    let sidebar = if cfg.show_sidebar {
        let bar = Rect { x: body.x, y: body.y, w: SIDEBAR_WIDTH, h: body.h };
        action_bar(bar, cfg, hits);
        Some(bar)
    } else {
        None
    };
    let strip = match sidebar {
        Some(bar) => Rect { x: bar.right(), y: body.y, w: body.w - bar.w, h: body.h },
        None => body,
    };
    let out = Frame { titlebar: bar, content, profile_strip, chip, sidebar, strip };
    proof {
        assert(out == frame_model(chrome, *cfg, window));
        assert(hit_models(hits@) =~= before + frame_hits(chrome, *cfg, window));
    }
    out
}

// --- The strip of columns ----------------------------------------------------------------------------

pub open spec fn device_specs(rows: Seq<DeviceRowModel>) -> Seq<SpecModel> {
    Seq::new(
        rows.len(),
        |i: int|
            SpecModel { id: rows[i].id, cubic: rows[i].cubic, is_app: false, can_expand: false },
    )
}

pub open spec fn app_specs(rows: Seq<AppRowModel>) -> Seq<SpecModel> {
    Seq::new(
        rows.len(),
        |i: int|
            SpecModel {
                id: rows[i].id,
                cubic: rows[i].cubic,
                is_app: true,
                can_expand: rows[i].can_expand,
            },
    )
}

/// What the strip shows, left to right: the inputs, the outputs, then the apps.
pub open spec fn shown_specs(snap: SnapshotModel) -> Seq<SpecModel> {
    (if snap.show_sources {
        device_specs(snap.sources)
    } else {
        Seq::empty()
    }) + (if snap.show_sinks {
        device_specs(snap.sinks)
    } else {
        Seq::empty()
    }) + (if snap.show_apps {
        app_specs(snap.app_rows)
    } else {
        Seq::empty()
    })
}

/// The ids of the sinks an app can be pinned to.
pub open spec fn sink_ids(options: Seq<SinkOptionModel>) -> Seq<u32> {
    Seq::new(options.len(), |i: int| options[i].id)
}

/// Every column spans the strip's full height, so the meter and slider run its
/// whole depth rather than sitting in a fixed-height block.
pub open spec fn column_height(strip: Rect) -> int {
    primitives::most(strip.h - STRIP_PAD - STRIP_PAD_BOTTOM, SLIDER_TRACK_HEIGHT as int)
}

/// Where the `k`th column stands.
pub open spec fn column_slot(strip: Rect, scroll_x: int, k: int) -> Rect {
    primitives::rect(
        strip.x - scroll_x + k * (COLUMN_WIDTH + COL_GAP),
        strip.y + STRIP_PAD,
        COLUMN_WIDTH as int,
        column_height(strip),
    )
}

pub open spec fn columns_of(
    specs: Seq<SpecModel>,
    strip: Rect,
    scroll_x: int,
    sinks: Seq<u32>,
) -> Seq<ColumnModel> {
    Seq::new(
        specs.len(),
        |k: int| column_model(specs[k], column_slot(strip, scroll_x, k), sinks),
    )
}

/// The hits of the first `n` columns.
pub open spec fn columns_hits(
    specs: Seq<SpecModel>,
    strip: Rect,
    scroll_x: int,
    sinks: Seq<u32>,
    n: int,
) -> Seq<HitModel>
    decreases n,
{
    if n <= 0 {
        Seq::empty()
    } else {
        columns_hits(specs, strip, scroll_x, sinks, n - 1) + column_hits(
            specs[n - 1],
            column_slot(strip, scroll_x, n - 1),
            sinks,
        )
    }
}

/// How far the strip scrolls: what its columns and its padding take beyond it.
pub open spec fn scroll_reach(strip: Rect, columns: int) -> int {
    primitives::most(columns * (COLUMN_WIDTH + COL_GAP) - strip.w + 2 * STRIP_PAD, 0)
}

fn sink_list(options: &Vec<SinkOption>) -> (ids: Vec<u32>)
    ensures
        ids@ == sink_ids(snapshot::options(options@)),
{
    let ghost all = sink_ids(snapshot::options(options@));
    let mut ids: Vec<u32> = Vec::new();
    let mut i: usize = 0;
    while i < options.len()
        invariant
            i <= options@.len() == all.len(),
            all == sink_ids(snapshot::options(options@)),
            ids@ == all.take(i as int),
        decreases options@.len() - i,
    {
        assert(all[i as int] == options@[i as int]@.id);
        ids.push(options[i].id);
        assert(ids@ =~= all.take(i + 1));
        i = i + 1;
    }
    assert(ids@ =~= all);
    ids
}

/// Put the next column in its place.
fn place(
    spec: ColumnSpec,
    strip: Rect,
    scroll_x: i32,
    sinks: &Vec<u32>,
    columns: &mut Vec<ColumnGeom>,
    hits: &mut Vec<Hit>,
    Ghost(specs): Ghost<Seq<SpecModel>>,
    Ghost(base): Ghost<Seq<HitModel>>,
)
    requires
        within(strip, 0x120_0000),
        -0x1000_0000 <= scroll_x <= 0x1000_0000,
        sinks@.len() <= 0x10_0000,
        old(columns)@.len() < 0x4_0000,
        specs.len() == old(columns)@.len(),
        column_models(old(columns)@) == columns_of(specs, strip, scroll_x as int, sinks@),
        hit_models(old(hits)@) == base + columns_hits(
            specs,
            strip,
            scroll_x as int,
            sinks@,
            specs.len() as int,
        ),
    ensures
        final(columns)@.len() == old(columns)@.len() + 1,
        column_models(final(columns)@) == columns_of(
            specs.push(spec@),
            strip,
            scroll_x as int,
            sinks@,
        ),
        hit_models(final(hits)@) == base + columns_hits(
            specs.push(spec@),
            strip,
            scroll_x as int,
            sinks@,
            specs.len() as int + 1,
        ),
{
    let k: i32 = columns.len() as i32;
    let tall: i32 = strip.h - STRIP_PAD - STRIP_PAD_BOTTOM;
    let slot = Rect {
        x: strip.x - scroll_x + k * (COLUMN_WIDTH + COL_GAP),
        y: strip.y + STRIP_PAD,
        w: COLUMN_WIDTH,
        h: if tall > SLIDER_TRACK_HEIGHT {
            tall
        } else {
            SLIDER_TRACK_HEIGHT
        },
    };
    assert(slot == column_slot(strip, scroll_x as int, k as int));
    let ghost before = column_models(columns@);
    let ghost more = specs.push(spec@);
    let ghost so_far = hit_models(hits@);
    let geom = column(spec, slot, sinks, hits);
    let ghost model = geom@;
    columns.push(geom);
    proof {
        assert(column_models(columns@) =~= before.push(model));
        assert(before.push(model) =~= columns_of(more, strip, scroll_x as int, sinks@));
        same_columns(specs, more, strip, scroll_x as int, sinks@, specs.len() as int);
        assert(more[specs.len() as int] == spec@);
        assert(hit_models(hits@) =~= base + columns_hits(
            more,
            strip,
            scroll_x as int,
            sinks@,
            specs.len() as int + 1,
        ));
    }
}

/// The hits of the first columns do not depend on those behind them.
proof fn same_columns(
    a: Seq<SpecModel>,
    b: Seq<SpecModel>,
    strip: Rect,
    scroll_x: int,
    sinks: Seq<u32>,
    n: int,
)
    requires
        0 <= n <= a.len(),
        n <= b.len(),
        forall|k: int| 0 <= k < n ==> a[k] == b[k],
    ensures
        columns_hits(a, strip, scroll_x, sinks, n) == columns_hits(b, strip, scroll_x, sinks, n),
    decreases n,
{
    if n > 0 {
        same_columns(a, b, strip, scroll_x, sinks, n - 1);
    }
}

fn place_devices(
    rows: &Vec<DeviceRowView>,
    strip: Rect,
    scroll_x: i32,
    sinks: &Vec<u32>,
    columns: &mut Vec<ColumnGeom>,
    hits: &mut Vec<Hit>,
    Ghost(specs): Ghost<Seq<SpecModel>>,
    Ghost(base): Ghost<Seq<HitModel>>,
)
    requires
        within(strip, 0x120_0000),
        -0x1000_0000 <= scroll_x <= 0x1000_0000,
        sinks@.len() <= 0x10_0000,
        old(columns)@.len() + rows@.len() <= 0x4_0000,
        specs.len() == old(columns)@.len(),
        column_models(old(columns)@) == columns_of(specs, strip, scroll_x as int, sinks@),
        hit_models(old(hits)@) == base + columns_hits(
            specs,
            strip,
            scroll_x as int,
            sinks@,
            specs.len() as int,
        ),
    ensures
        ({
            let more = specs + device_specs(snapshot::device_rows(rows@));
            &&& final(columns)@.len() == more.len()
            &&& column_models(final(columns)@) == columns_of(
                more,
                strip,
                scroll_x as int,
                sinks@,
            )
            &&& hit_models(final(hits)@) == base + columns_hits(
                more,
                strip,
                scroll_x as int,
                sinks@,
                more.len() as int,
            )
        }),
{
    let ghost all = device_specs(snapshot::device_rows(rows@));
    let mut i: usize = 0;
    assert(specs + all.take(0) =~= specs);
    while i < rows.len()
        invariant
            i <= rows@.len() == all.len(),
            all == device_specs(snapshot::device_rows(rows@)),
            within(strip, 0x120_0000),
            -0x1000_0000 <= scroll_x <= 0x1000_0000,
            sinks@.len() <= 0x10_0000,
            specs.len() + rows@.len() <= 0x4_0000,
            columns@.len() == specs.len() + i,
            column_models(columns@) == columns_of(
                specs + all.take(i as int),
                strip,
                scroll_x as int,
                sinks@,
            ),
            hit_models(hits@) == base + columns_hits(
                specs + all.take(i as int),
                strip,
                scroll_x as int,
                sinks@,
                specs.len() + i,
            ),
        decreases rows@.len() - i,
    {
        let row = &rows[i];
        let spec = ColumnSpec { id: &row.id, cubic: row.cubic, is_app: false, can_expand: false };
        let ghost now = specs + all.take(i as int);
        assert(spec@ == all[i as int]);
        assert(now.push(spec@) =~= specs + all.take(i + 1));
        place(spec, strip, scroll_x, sinks, columns, hits, Ghost(now), Ghost(base));
        i = i + 1;
    }
    assert(all.take(i as int) =~= all);
}

fn place_apps(
    rows: &Vec<AppRowView>,
    strip: Rect,
    scroll_x: i32,
    sinks: &Vec<u32>,
    columns: &mut Vec<ColumnGeom>,
    hits: &mut Vec<Hit>,
    Ghost(specs): Ghost<Seq<SpecModel>>,
    Ghost(base): Ghost<Seq<HitModel>>,
)
    requires
        within(strip, 0x120_0000),
        -0x1000_0000 <= scroll_x <= 0x1000_0000,
        sinks@.len() <= 0x10_0000,
        old(columns)@.len() + rows@.len() <= 0x4_0000,
        specs.len() == old(columns)@.len(),
        column_models(old(columns)@) == columns_of(specs, strip, scroll_x as int, sinks@),
        hit_models(old(hits)@) == base + columns_hits(
            specs,
            strip,
            scroll_x as int,
            sinks@,
            specs.len() as int,
        ),
    ensures
        ({
            let more = specs + app_specs(snapshot::app_rows(rows@));
            &&& final(columns)@.len() == more.len()
            &&& column_models(final(columns)@) == columns_of(
                more,
                strip,
                scroll_x as int,
                sinks@,
            )
            &&& hit_models(final(hits)@) == base + columns_hits(
                more,
                strip,
                scroll_x as int,
                sinks@,
                more.len() as int,
            )
        }),
{
    let ghost all = app_specs(snapshot::app_rows(rows@));
    let mut i: usize = 0;
    assert(specs + all.take(0) =~= specs);
    while i < rows.len()
        invariant
            i <= rows@.len() == all.len(),
            all == app_specs(snapshot::app_rows(rows@)),
            within(strip, 0x120_0000),
            -0x1000_0000 <= scroll_x <= 0x1000_0000,
            sinks@.len() <= 0x10_0000,
            specs.len() + rows@.len() <= 0x4_0000,
            columns@.len() == specs.len() + i,
            column_models(columns@) == columns_of(
                specs + all.take(i as int),
                strip,
                scroll_x as int,
                sinks@,
            ),
            hit_models(hits@) == base + columns_hits(
                specs + all.take(i as int),
                strip,
                scroll_x as int,
                sinks@,
                specs.len() + i,
            ),
        decreases rows@.len() - i,
    {
        let row = &rows[i];
        let spec = ColumnSpec {
            id: &row.id,
            cubic: row.cubic,
            is_app: true,
            can_expand: row.can_expand,
        };
        let ghost now = specs + all.take(i as int);
        assert(spec@ == all[i as int]);
        assert(now.push(spec@) =~= specs + all.take(i + 1));
        place(spec, strip, scroll_x, sinks, columns, hits, Ghost(now), Ghost(base));
        i = i + 1;
    }
    assert(all.take(i as int) =~= all);
}

fn place_columns(
    snap: &ViewSnapshot,
    strip: Rect,
    scroll_x: i32,
    hits: &mut Vec<Hit>,
) -> (columns: Vec<ColumnGeom>)
    requires
        within(strip, 0x120_0000),
        -0x1000_0000 <= scroll_x <= 0x1000_0000,
        snap.sink_options@.len() <= 0x10_0000,
        shown_specs(snap@).len() <= 0x4_0000,
    ensures
        column_models(columns@) == columns_of(
            shown_specs(snap@),
            strip,
            scroll_x as int,
            sink_ids(snap@.sink_options),
        ),
        columns@.len() == shown_specs(snap@).len(),
        hit_models(final(hits)@) == hit_models(old(hits)@) + columns_hits(
            shown_specs(snap@),
            strip,
            scroll_x as int,
            sink_ids(snap@.sink_options),
            shown_specs(snap@).len() as int,
        ),
{
    let ghost base = hit_models(hits@);
    let sinks = sink_list(&snap.sink_options);
    let mut columns: Vec<ColumnGeom> = Vec::new();
    let ghost none = Seq::<SpecModel>::empty();
    assert(column_models(columns@) =~= columns_of(none, strip, scroll_x as int, sinks@));
    assert(base =~= base + columns_hits(none, strip, scroll_x as int, sinks@, 0));
    let ghost sources = if snap.show_sources {
        device_specs(snap@.sources)
    } else {
        Seq::empty()
    };
    let ghost outputs = if snap.show_sinks {
        device_specs(snap@.sinks)
    } else {
        Seq::empty()
    };
    if snap.show_sources {
        place_devices(
            &snap.sources,
            strip,
            scroll_x,
            &sinks,
            &mut columns,
            hits,
            Ghost(none),
            Ghost(base),
        );
    }
    assert(none + sources =~= sources);
    if snap.show_sinks {
        place_devices(
            &snap.sinks,
            strip,
            scroll_x,
            &sinks,
            &mut columns,
            hits,
            Ghost(sources),
            Ghost(base),
        );
    }
    assert(!snap.show_sinks ==> sources + outputs =~= sources);
    if snap.show_apps {
        place_apps(
            &snap.app_rows,
            strip,
            scroll_x,
            &sinks,
            &mut columns,
            hits,
            Ghost(sources + outputs),
            Ghost(base),
        );
    }
    assert(!snap.show_apps ==> sources + outputs + Seq::<SpecModel>::empty() =~= sources
        + outputs);
    columns
}

// --- The whole window --------------------------------------------------------------------------------

/// The projected geometry of a whole frame: the toolbar, the scrollable strip
/// of columns, the overlays, and the flat list of hit rectangles.
#[derive(Debug)]
pub struct Layout {
    /// The whole surface, including any client-drawn titlebar.
    pub window: Rect,
    /// The mixer body: the window minus a client titlebar, if there is one.
    pub content: Rect,
    /// The strip carrying the profile selector, absent when the window's own
    /// titlebar carries it instead.
    pub profile_strip: Option<Rect>,
    /// The left action bar, absent when the user has hidden it.
    pub sidebar: Option<Rect>,
    /// The scrollable column area.
    pub strip: Rect,
    pub columns: Vec<ColumnGeom>,
    pub hits: Vec<Hit>,
    /// The profile dropdown, present only while it is open.
    pub profile_menu: Option<ProfileMenuGeom>,
    /// The client-drawn titlebar, present only when the shell owns its chrome.
    pub titlebar: Option<TitlebarGeom>,
    pub palette: Option<PaletteGeom>,
    pub modal: Option<ModalGeom>,
    /// Largest horizontal scroll offset (0 when everything fits).
    pub scroll_max_x: i32,
    /// The strip's scrollbar, absent when every column fits.
    pub strip_scrollbar: Option<ScrollbarGeom>,
}

#[verifier::ext_equal]
pub struct LayoutModel {
    pub window: Rect,
    pub content: Rect,
    pub profile_strip: Option<Rect>,
    pub sidebar: Option<Rect>,
    pub strip: Rect,
    pub columns: Seq<ColumnModel>,
    pub hits: Seq<HitModel>,
    pub profile_menu: Option<MenuGeomModel>,
    pub titlebar: Option<TitlebarGeom>,
    pub palette: Option<PaletteGeomModel>,
    pub modal: Option<ModalGeom>,
    pub scroll_max_x: i32,
    pub strip_scrollbar: Option<ScrollbarGeom>,
}

pub open spec fn menu_view(menu: Option<ProfileMenuGeom>) -> Option<MenuGeomModel> {
    match menu {
        Some(m) => Some(m@),
        None => None,
    }
}

pub open spec fn palette_view(palette: Option<PaletteGeom>) -> Option<PaletteGeomModel> {
    match palette {
        Some(p) => Some(p@),
        None => None,
    }
}

impl View for Layout {
    type V = LayoutModel;

    open spec fn view(&self) -> LayoutModel {
        LayoutModel {
            window: self.window,
            content: self.content,
            profile_strip: self.profile_strip,
            sidebar: self.sidebar,
            strip: self.strip,
            columns: column_models(self.columns@),
            hits: hit_models(self.hits@),
            profile_menu: menu_view(self.profile_menu),
            titlebar: self.titlebar,
            palette: palette_view(self.palette),
            modal: self.modal,
            scroll_max_x: self.scroll_max_x,
            strip_scrollbar: self.strip_scrollbar,
        }
    }
}

/// The dropped-open profile menu: under the chip, while there is one.
pub open spec fn open_menu(snap: SnapshotModel, ui: UiModel, chip: Option<Rect>) -> Option<
    MenuGeomModel,
> {
    match chip {
        Some(chip) => if ui.profile_menu_open {
            Some(menu_geom(snap.profile.rows, chip))
        } else {
            None
        },
        None => None,
    }
}

pub open spec fn open_palette(snap: SnapshotModel, content: Rect) -> Option<PaletteGeomModel> {
    if snap.palette.open {
        Some(palette_geom(snap.palette, content))
    } else {
        None
    }
}

pub open spec fn open_modal(snap: SnapshotModel, content: Rect) -> Option<ModalGeom> {
    match snap.modal {
        Some(m) => Some(modal_geom(m, content)),
        None => None,
    }
}

pub open spec fn strip_bar(strip: Rect, scroll_x: int, scroll_max_x: int) -> Option<
    ScrollbarGeom,
> {
    if scroll_max_x > 0 {
        Some(strip_bar_model(strip, scroll_x, scroll_max_x))
    } else {
        None
    }
}

/// What the mixer itself can be hit on: the chrome, the action bar, the columns
/// and their scrollbar.
pub open spec fn mixer_hits(snap: SnapshotModel, ui: UiModel, window: Rect) -> Seq<HitModel> {
    let strip = frame_model(ui.chrome, ui.settings, window).strip;
    let specs = shown_specs(snap);
    let n = specs.len() as int;
    frame_hits(ui.chrome, ui.settings, window) + columns_hits(
        specs,
        strip,
        ui.scroll_x as int,
        sink_ids(snap.sink_options),
        n,
    ) + (match strip_bar(strip, ui.scroll_x as int, scroll_reach(strip, n)) {
        Some(bar) => seq![HitModel { rect: bar.track, target: HitTargetView::StripScrollbar }],
        None => Seq::empty(),
    })
}

/// What lies over the mixer: the profile menu, then the overlays, then the
/// resize edges, which a window keeps while it paints its own chrome and is not
/// maximized.
pub open spec fn overlay_hits(snap: SnapshotModel, ui: UiModel, window: Rect) -> Seq<HitModel> {
    let frame = frame_model(ui.chrome, ui.settings, window);
    (match open_menu(snap, ui, frame.chip) {
        Some(menu) => menu_hits(menu),
        None => Seq::empty(),
    }) + (match open_palette(snap, frame.content) {
        Some(palette) => palette_hits(palette, frame.content),
        None => Seq::empty(),
    }) + (match open_modal(snap, frame.content) {
        Some(modal) => modal_hits(modal, frame.content),
        None => Seq::empty(),
    }) + (if ui.chrome == Chrome::Client && !ui.maximized {
        edge_hits(window)
    } else {
        Seq::empty()
    })
}

/// A window laid out.
///
/// Hits are listed bottom-up, because the last one that holds a point wins and
/// the topmost surface has to: chrome and body first, then the profile dropdown,
/// then any overlay, and finally the resize edges, which stay grabbable no
/// matter what is open.
pub open spec fn layout_of(snap: SnapshotModel, ui: UiModel, window: Rect) -> LayoutModel {
    let frame = frame_model(ui.chrome, ui.settings, window);
    let specs = shown_specs(snap);
    let reach = scroll_reach(frame.strip, specs.len() as int);
    LayoutModel {
        window,
        content: frame.content,
        profile_strip: frame.profile_strip,
        sidebar: frame.sidebar,
        strip: frame.strip,
        columns: columns_of(
            specs,
            frame.strip,
            ui.scroll_x as int,
            sink_ids(snap.sink_options),
        ),
        hits: mixer_hits(snap, ui, window) + overlay_hits(snap, ui, window),
        profile_menu: open_menu(snap, ui, frame.chip),
        titlebar: frame.titlebar,
        palette: open_palette(snap, frame.content),
        modal: open_modal(snap, frame.content),
        scroll_max_x: reach as i32,
        strip_scrollbar: strip_bar(frame.strip, ui.scroll_x as int, reach),
    }
}

/// A window, a scroll offset and numbers of rows whose coordinates can be
/// counted in 32 bits wherever a row, a menu or a column comes to stand: a window within sixteen million pixels, a quarter of a million
/// columns, a million sinks and profiles.
pub open spec fn countable(snap: SnapshotModel, ui: UiModel, window: Rect) -> bool {
    &&& within(window, 0x100_0000)
    &&& -0x1000_0000 <= ui.scroll_x <= 0x1000_0000
    &&& shown_specs(snap).len() <= 0x4_0000
    &&& snap.sink_options.len() <= 0x10_0000
    &&& snap.profile.rows.len() <= 0x10_0000
    &&& palette_wf(snap.palette)
}

impl LayoutModel {
    /// Rectangles near enough to the origin to be reckoned with, and a slider that
    /// its track holds.
    pub open spec fn wf(self) -> bool {
        &&& 0 <= self.scroll_max_x <= 0x1000_0000
        &&& self.strip_scrollbar matches Some(bar) ==> {
            &&& within(bar.track, 0x400_0000)
            &&& 0 < bar.slider.w <= bar.track.w
        }
        &&& forall|i: int|
            0 <= i < self.columns.len() ==> {
                &&& -0x1000_0000 <= (#[trigger] self.columns[i]).slider.track.y <= 0x1000_0000
                &&& 0 < self.columns[i].slider.track.h <= 0x400_0000
            }
        &&& self.profile_menu matches Some(menu) ==> forall|i: int|
            0 <= i < menu.rows.len() ==> {
                &&& within((#[trigger] menu.rows[i]).rect, 0x3000_0000)
                &&& 0 <= menu.rows[i].rect.h
            }
    }
}

/// The topmost of the first `n` hits that holds a point.
pub open spec fn topmost(hits: Seq<HitModel>, x: int, y: int, n: int) -> Option<HitTargetView>
    decreases n,
{
    if n <= 0 {
        None
    } else if hits[n - 1].rect.covers(x, y) {
        Some(hits[n - 1].target)
    } else {
        topmost(hits, x, y, n - 1)
    }
}

/// Lay the overlays out over a frame.
#[verifier::rlimit(40)]
fn overlays(
    snap: &ViewSnapshot,
    ui: &UiState,
    window: Rect,
    frame: Frame,
    hits: &mut Vec<Hit>,
) -> (over: (Option<ProfileMenuGeom>, Option<PaletteGeom>, Option<ModalGeom>))
    requires
        countable(snap@, ui@, window),
        frame == frame_model(ui@.chrome, ui@.settings, window),
        within(frame.content, 0x110_0000),
        frame.chip matches Some(chip) ==> within(chip, 0x200_0000),
    ensures
        menu_view(over.0) == open_menu(snap@, ui@, frame.chip),
        palette_view(over.1) == open_palette(snap@, frame.content),
        over.2 == open_modal(snap@, frame.content),
        hit_models(final(hits)@) == hit_models(old(hits)@) + overlay_hits(snap@, ui@, window),
        over.1 matches Some(p) ==> p@.rows.len() <= snap@.palette.rows.len(),
{
    let ghost h0 = hit_models(hits@);
    assert(snap@.profile.rows.len() == snap.profile.rows@.len());
    let menu: Option<ProfileMenuGeom> = match frame.chip {
        Some(chip) => if ui.profile_menu_open {
            Some(profile_menu(&snap.profile, chip, hits))
        } else {
            None
        },
        None => None,
    };
    let ghost h1 = hit_models(hits@);
    let ghost m1 = match open_menu(snap@, ui@, frame.chip) {
        Some(menu) => menu_hits(menu),
        None => Seq::empty(),
    };
    assert(h1 =~= h0 + m1);
    // Overlays cover the body.
    let palette: Option<PaletteGeom> = if snap.palette.open {
        Some(palette(&snap.palette, frame.content, hits))
    } else {
        None
    };
    let ghost h2 = hit_models(hits@);
    let ghost m2 = match open_palette(snap@, frame.content) {
        Some(palette) => palette_hits(palette, frame.content),
        None => Seq::empty(),
    };
    assert(h2 =~= h0 + (m1 + m2));
    let modal: Option<ModalGeom> = match &snap.modal {
        Some(m) => Some(modal(m, frame.content, hits)),
        None => None,
    };
    let ghost h3 = hit_models(hits@);
    let ghost m3 = match open_modal(snap@, frame.content) {
        Some(modal) => modal_hits(modal, frame.content),
        None => Seq::empty(),
    };
    assert(h3 =~= h0 + (m1 + m2 + m3));
    // Resize edges last: a window stays resizable with an overlay open.
    if ui.chrome == Chrome::Client && !ui.maximized {
        resize_edges(window, hits);
    }
    assert(hit_models(hits@) =~= h0 + overlay_hits(snap@, ui@, window));
    (menu, palette, modal)
}

/// Project a snapshot into frame geometry for a window rectangle and the
/// current horizontal scroll offset.
pub fn project(snap: &ViewSnapshot, ui: &UiState, window: Rect) -> (layout: Layout)
    requires
        countable(snap@, ui@, window),
    ensures
        layout@ == layout_of(snap@, ui@, window),
        layout@.wf(),
        layout.palette matches Some(p) ==> p@.rows.len() <= snap@.palette.rows.len(),
{
    let mut hits: Vec<Hit> = Vec::new();
    assert(hit_models(hits@) =~= Seq::<HitModel>::empty());
    let frame = frame(ui.chrome, &ui.settings, window, &mut hits);
    let ghost h1 = hit_models(hits@);
    assert(h1 =~= frame_hits(ui@.chrome, ui@.settings, window));
    let strip = frame.strip;
    assert(snap@.sink_options.len() == snap.sink_options@.len());
    let columns = place_columns(snap, strip, ui.scroll_x, &mut hits);
    let ghost h2 = hit_models(hits@);

    // What the columns and the padding take beyond the strip.
    let used: i32 = columns.len() as i32 * (COLUMN_WIDTH + COL_GAP);
    let over: i32 = used - strip.w + 2 * STRIP_PAD;
    let scroll_max_x: i32 = if over > 0 {
        over
    } else {
        0
    };
    assert(scroll_max_x == scroll_reach(strip, shown_specs(snap@).len() as int));
    let bar: Option<ScrollbarGeom> = if scroll_max_x > 0 {
        Some(strip_scrollbar(strip, ui.scroll_x, scroll_max_x, &mut hits))
    } else {
        None
    };
    let ghost h3 = hit_models(hits@);
    assert(h3 =~= mixer_hits(snap@, ui@, window));
    let (profile_menu, palette, modal) = overlays(snap, ui, window, frame, &mut hits);
    let layout = Layout {
        window,
        content: frame.content,
        profile_strip: frame.profile_strip,
        sidebar: frame.sidebar,
        strip,
        columns,
        hits,
        profile_menu,
        titlebar: frame.titlebar,
        palette,
        modal,
        scroll_max_x,
        strip_scrollbar: bar,
    };
    proof {
        assert(layout@ =~= layout_of(snap@, ui@, window));
        layouts_are_near(snap@, ui@, window);
    }
    layout
}

/// A countable window's layout is near.
proof fn layouts_are_near(snap: SnapshotModel, ui: UiModel, window: Rect)
    requires
        countable(snap, ui, window),
    ensures
        layout_of(snap, ui, window).wf(),
{
    let layout = layout_of(snap, ui, window);
    let strip = layout.strip;
    assert(within(strip, 0x120_0000));
    assert forall|i: int| 0 <= i < layout.columns.len() implies {
        &&& -0x1000_0000 <= (#[trigger] layout.columns[i]).slider.track.y <= 0x1000_0000
        &&& 0 < layout.columns[i].slider.track.h <= 0x400_0000
    } by {
        let slot = column_slot(strip, ui.scroll_x as int, i);
        assert(slot.h == column_height(strip));
    }
    if layout.profile_menu is Some {
        let chip = frame_model(ui.chrome, ui.settings, window).chip->Some_0;
        assert(within(chip, 0x200_0000));
        let menu = layout.profile_menu->Some_0;
        assert forall|i: int| 0 <= i < menu.rows.len() implies {
            &&& within((#[trigger] menu.rows[i]).rect, 0x3000_0000)
            &&& 0 <= menu.rows[i].rect.h
        } by {
            assert(menu.rows[i].rect == menu_row(chip, i));
        }
    }
}

impl Layout {
    /// The hit target at a point, topmost (last-pushed) first.
    pub fn hit(&self, x: i32, y: i32) -> (target: Option<&HitTarget>)
        ensures
            match target {
                Some(t) => topmost(self@.hits, x as int, y as int, self@.hits.len() as int)
                    == Some(t@),
                None => topmost(self@.hits, x as int, y as int, self@.hits.len() as int) is None,
            },
    {
        let mut i: usize = self.hits.len();
        while i > 0
            invariant
                i <= self.hits@.len() == self@.hits.len(),
                topmost(self@.hits, x as int, y as int, self@.hits.len() as int) == topmost(
                    self@.hits,
                    x as int,
                    y as int,
                    i as int,
                ),
            decreases i,
        {
            assert(self@.hits[i - 1] == self.hits@[i - 1]@);
            if self.hits[i - 1].rect.contains(x, y) {
                return Some(&self.hits[i - 1].target);
            }
            i = i - 1;
        }
        None
    }

    /// The text field the focused overlay is editing, if one is open. A drag
    /// keeps mapping to it after the pointer leaves the rectangle.
    pub fn focused_field(&self, focus: Focus) -> (field: Option<Rect>)
        ensures
            field == self@.field(focus),
    {
        match focus {
            Focus::Palette => match &self.palette {
                Some(p) => Some(p.input),
                None => None,
            },
            Focus::Modal => match &self.modal {
                Some(m) => m.input,
                None => None,
            },
            Focus::Body => None,
        }
    }

    /// The rectangles a meter step can change.
    ///
    /// Meter levels reach the frame through one drawing call, a column's meter,
    /// so two frames that differ by a decay step differ only inside these. They
    /// are clipped to the strip because a scrolled column hangs past its edge,
    /// and one scrolled fully out contributes nothing.
    pub fn meter_damage(&self) -> (rects: Vec<Rect>)
        requires
            self@.strip.fits(),
            forall|i: int|
                0 <= i < self@.columns.len() ==> {
                    &&& (#[trigger] self@.columns[i]).meter.fits()
                    &&& self@.columns[i].meter.overlap_fits(self@.strip)
                },
        ensures
            rects@ == damage(self@.columns, self@.strip, self@.columns.len() as int),
    {
        let mut rects: Vec<Rect> = Vec::new();
        let mut i: usize = 0;
        while i < self.columns.len()
            invariant
                i <= self.columns@.len() == self@.columns.len(),
                self@.strip.fits(),
                forall|k: int|
                    0 <= k < self@.columns.len() ==> {
                        &&& (#[trigger] self@.columns[k]).meter.fits()
                        &&& self@.columns[k].meter.overlap_fits(self@.strip)
                    },
                rects@ == damage(self@.columns, self@.strip, i as int),
            decreases self.columns@.len() - i,
        {
            assert(self@.columns[i as int] == self.columns@[i as int]@);
            assert(self@.columns[i as int].meter.fits());
            let r = self.columns[i].meter.intersect(self.strip);
            if !r.is_empty() {
                rects.push(r);
            }
            i = i + 1;
        }
        rects
    }
}

impl LayoutModel {
    /// The text field the focused overlay is editing.
    pub open spec fn field(self, focus: Focus) -> Option<Rect> {
        match focus {
            Focus::Palette => match self.palette {
                Some(p) => Some(p.input),
                None => None,
            },
            Focus::Modal => match self.modal {
                Some(m) => m.input,
                None => None,
            },
            Focus::Body => None,
        }
    }
}

/// What a meter step can change among the first `n` columns.
pub open spec fn damage(columns: Seq<ColumnModel>, strip: Rect, n: int) -> Seq<Rect>
    decreases n,
{
    if n <= 0 {
        Seq::empty()
    } else {
        let r = columns[n - 1].meter.overlap(strip);
        if r.empty() {
            damage(columns, strip, n - 1)
        } else {
            damage(columns, strip, n - 1).push(r)
        }
    }
}

/// The smallest window that still shows a whole column: the top strip, the
/// padding around the columns, and a column's header, fader, and bottom margin.
/// Both shells hand this to the window manager, so both stop at the same place.
///
/// The top strip is the same height whether the window's chrome carries the
/// profile chip or a strip of its own does, so one number covers both.
pub fn minimum_size() -> (size: (i32, i32))
    ensures
        size == least_size(),
{
    let column: i32 = COLUMN_HEADER_HEIGHT + HEADER_GAP + MIN_FADER_HEIGHT + COLUMN_BOTTOM;
    (COLUMN_WIDTH + 40, TITLEBAR_HEIGHT + STRIP_PAD + column + STRIP_PAD_BOTTOM)
}

pub open spec fn least_size() -> (i32, i32) {
    (
        (COLUMN_WIDTH + 40) as i32,
        (TITLEBAR_HEIGHT + STRIP_PAD + COLUMN_HEADER_HEIGHT + HEADER_GAP + MIN_FADER_HEIGHT
            + COLUMN_BOTTOM + STRIP_PAD_BOTTOM) as i32,
    )
}

/// A size grown to the smallest one.
pub open spec fn grown(w: i32, h: i32) -> (i32, i32) {
    (
        primitives::most(w as int, least_size().0 as int) as i32,
        primitives::most(h as int, least_size().1 as int) as i32,
    )
}

/// A window size grown to the minimum. The minimum a toplevel declares is a
/// hint a compositor may configure straight past, so every size handed to the
/// window goes through here rather than being taken at its word.
pub fn at_least_minimum(w: i32, h: i32) -> (size: (i32, i32))
    ensures
        size == grown(w, h),
{
    let (min_w, min_h) = minimum_size();
    (
        if w > min_w {
            w
        } else {
            min_w
        },
        if h > min_h {
            h
        } else {
            min_h
        },
    )
}

} // verus!
