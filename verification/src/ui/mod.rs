//! Shared mixer body: theme, layout, input, editor, and meter state.
//!
//! This is the retained UI the software renderer draws and both shells drive.
//! Everything the mixer looks like and everything a click means is decided here,
//! so the native and GTK shells differ only in where their events come from.

pub mod editor;
pub mod halo;
pub mod input;
pub mod input_laws;
pub mod keysym;
pub mod layout;
pub mod layout_laws;
pub mod meter;
pub mod metrics;
pub mod panels;
pub mod press_laws;
pub mod row;
pub mod theme;

use crate::settings::Settings;
use crate::ui::editor::{Editor, EditorView};
use crate::ui::halo::{HaloModel, HaloState};
use crate::ui::layout::{clone_row, HitTarget, HitTargetView, RowId, RowIdView};
use crate::ui::meter::{MeterRowView, MeterState};
use vstd::prelude::*;

verus! {

/// Milliseconds the caret stays visible, then hidden, while a field has focus.
/// Both shells run their own timer against it so the blink matches.
pub const CARET_BLINK_MS: u64 = 530;

/// Which overlay is holding keyboard focus. When one is open, typing goes to its
/// editor and shortcuts do not leak into the mixer body behind it.
#[derive(Clone, Copy, PartialEq, Eq, Debug, Structural)]
pub enum Focus {
    /// The mixer body: hover shortcuts and Ctrl+K are live.
    Body,
    /// The command palette is open and typing filters it.
    Palette,
    /// A create/rename modal is open and typing edits its name.
    Modal,
}

impl Default for Focus {
    fn default() -> (focus: Self)
        ensures
            focus == Focus::Body,
    {
        Focus::Body
    }
}

/// An in-progress pointer drag. A drag is bound to what it started on and
/// continues even when the pointer leaves that rectangle, until release.
#[derive(PartialEq, Eq, Debug)]
pub enum Drag {
    /// A volume slider, holding the press-time row so a stream refresh mid-drag
    /// cannot retarget it.
    Slider(RowId),
    /// Extending a selection in the focused text field.
    TextSelect,
    /// Reordering a profile, holding the dragged profile's name. Where it lands
    /// is read off the pointer at release, so there is no second copy to keep
    /// in step.
    ProfileReorder(String),
    /// Dragging the strip's scrollbar, holding where in the slider it was
    /// grabbed so the slider does not jump under the pointer.
    StripScroll { grab: i32 },
}

#[verifier::ext_equal]
pub enum DragView {
    Slider(RowIdView),
    TextSelect,
    ProfileReorder(Seq<char>),
    StripScroll { grab: i32 },
}

impl View for Drag {
    type V = DragView;

    open spec fn view(&self) -> DragView {
        match self {
            Drag::Slider(row) => DragView::Slider(row@),
            Drag::TextSelect => DragView::TextSelect,
            Drag::ProfileReorder(name) => DragView::ProfileReorder(name@),
            Drag::StripScroll { grab } => DragView::StripScroll { grab: *grab },
        }
    }
}

pub open spec fn drag_view(drag: Option<Drag>) -> Option<DragView> {
    match drag {
        Some(d) => Some(d@),
        None => None,
    }
}

/// What the next frame must repaint. Meter ticks set only `meters`; anything
/// that changes geometry sets `layout` (and thus `full`).
#[derive(Clone, Copy, PartialEq, Eq, Debug, Structural)]
pub struct Dirty {
    /// The layout must be reprojected before painting (size, scale, or content
    /// count changed).
    pub layout: bool,
    /// The whole frame must be repainted.
    pub full: bool,
    /// Only the meter rectangles changed.
    pub meters: bool,
}

impl Default for Dirty {
    fn default() -> (d: Self)
        ensures
            d == Dirty::clean(),
    {
        Dirty { layout: false, full: false, meters: false }
    }
}

impl Dirty {
    /// Nothing to repaint.
    pub open spec fn clean() -> Dirty {
        Dirty { layout: false, full: false, meters: false }
    }

    /// Something needs drawing.
    pub open spec fn pending(self) -> bool {
        self.full || self.meters
    }

    /// Request a full repaint next frame.
    pub fn mark_full(&mut self)
        ensures
            *final(self) == (Dirty { full: true, ..*old(self) }),
    {
        self.full = true;
    }

    /// Request a reprojection and a full repaint.
    pub fn mark_layout(&mut self)
        ensures
            *final(self) == (Dirty { layout: true, full: true, ..*old(self) }),
    {
        self.layout = true;
        self.full = true;
    }

    /// Request a meter-only repaint.
    pub fn mark_meters(&mut self)
        ensures
            *final(self) == (Dirty { meters: true, ..*old(self) }),
    {
        self.meters = true;
    }

    /// Whether anything needs drawing this frame.
    pub fn needs_paint(&self) -> (yes: bool)
        ensures
            yes == self.pending(),
    {
        self.full || self.meters
    }

    /// Clear every flag after a frame is painted.
    pub fn clear(&mut self)
        ensures
            *final(self) == Dirty::clean(),
    {
        *self = Dirty { layout: false, full: false, meters: false };
    }
}

/// Positions and scroll deltas count in this many parts of a logical pixel, as
/// fine as a compositor reports them.
pub const SUBPIXELS: i32 = 256;

/// How many whole steps of a size lie between zero and a value, signed like the
/// value.
pub open spec fn steps(v: int, size: int) -> int {
    if v >= 0 {
        v / size
    } else {
        -((-v) / size)
    }
}

/// The whole steps in a value.
pub fn steps_in(v: i64, size: i64) -> (n: i64)
    requires
        0 < size,
        i64::MIN < v,
    ensures
        n == steps(v as int, size as int),
{
    if v >= 0 {
        v / size
    } else {
        -((-v) / size)
    }
}

/// Multi-click tracking for the text editors. The shell stamps each press with
/// a millisecond time; a near press within the window increments the count
/// (single, double, triple).
#[derive(Clone, Copy, PartialEq, Eq, Debug, Structural)]
pub struct ClickTracker {
    pub count: u32,
    pub last_ms: u64,
    pub last_x: i32,
    pub last_y: i32,
}

/// Presses within this many milliseconds of the previous one chain.
pub const CLICK_INTERVAL_MS: u64 = 400;

/// Presses within this many pixels of the previous one, in each direction,
/// chain.
pub const CLICK_RADIUS: i32 = 4;

impl Default for ClickTracker {
    fn default() -> (c: Self)
        ensures
            c == Self::idle(),
    {
        ClickTracker { count: 0, last_ms: 0, last_x: 0, last_y: 0 }
    }
}

impl ClickTracker {
    /// Nothing pressed yet.
    pub open spec fn idle() -> ClickTracker {
        ClickTracker { count: 0, last_ms: 0, last_x: 0, last_y: 0 }
    }

    /// Whether a press falls near the last one.
    pub open spec fn near(self, x: i32, y: i32) -> bool {
        &&& -CLICK_RADIUS * SUBPIXELS <= x - self.last_x <= CLICK_RADIUS * SUBPIXELS
        &&& -CLICK_RADIUS * SUBPIXELS <= y - self.last_y <= CLICK_RADIUS * SUBPIXELS
    }

    /// The chain count of a press: one more than the last where it was near and
    /// soon after it, else one.
    pub open spec fn chained(self, ms: u64, x: i32, y: i32) -> u32 {
        if self.near(x, y) && ms - self.last_ms <= CLICK_INTERVAL_MS {
            if self.count < u32::MAX {
                (self.count + 1) as u32
            } else {
                u32::MAX
            }
        } else {
            1
        }
    }

    /// A press recorded.
    pub open spec fn pressed(self, ms: u64, x: i32, y: i32) -> ClickTracker {
        ClickTracker { count: self.chained(ms, x, y), last_ms: ms, last_x: x, last_y: y }
    }

    /// Record a press and return its chain count (1, 2, 3, ...).
    pub fn press(&mut self, ms: u64, x: i32, y: i32) -> (count: u32)
        ensures
            count == old(self).chained(ms, x, y),
            *final(self) == old(self).pressed(ms, x, y),
    {
        let radius: i64 = CLICK_RADIUS as i64 * SUBPIXELS as i64;
        let dx: i64 = x as i64 - self.last_x as i64;
        let dy: i64 = y as i64 - self.last_y as i64;
        let near = -radius <= dx && dx <= radius && -radius <= dy && dy <= radius;
        let soon = ms <= self.last_ms || ms - self.last_ms <= CLICK_INTERVAL_MS;
        self.count = if near && soon {
            self.count.saturating_add(1)
        } else {
            1
        };
        self.last_ms = ms;
        self.last_x = x;
        self.last_y = y;
        self.count
    }
}

/// Who paints the window's chrome. The mixer body is the same either way; what
/// changes is whether the surface owes the frame a titlebar, and where the
/// profile selector ends up.
#[derive(Clone, Copy, PartialEq, Eq, Debug, Structural)]
pub enum Chrome {
    /// The compositor paints the titlebar, so the profile chip takes a strip of
    /// its own across the top.
    Server,
    /// The surface paints the titlebar, window buttons and resize edges
    /// included, and the profile chip rides in it.
    Client,
    /// The toolkit paints the titlebar and hosts the profile selector as a
    /// widget, so the surface paints neither.
    Toolkit,
}

/// Transient interaction state, owned by each shell. The persistent, domain, and
/// on-disk state lives in the app state; this holds only what interaction needs
/// and nothing that is persisted: pointer position, hover and press, drags,
/// scroll offsets, overlay focus and its editor, the meter animation, and the
/// dirty flags that decide what to repaint.
pub struct UiState {
    /// Where the pointer is, in parts of a pixel.
    pub pointer: (i32, i32),
    pub hover: Option<HitTarget>,
    /// The row whose knob the pointer is actually over, which is a smaller
    /// target than the slider's own: the whole track takes a click, but only
    /// the knob wears the ring.
    pub knob_hover: Option<RowId>,
    pub pressed: Option<HitTarget>,
    pub drag: Option<Drag>,
    pub scroll_x: i32,
    pub scroll_y: i32,
    /// Scroll left over from the last event, under a whole pixel. A touchpad
    /// reports fractions of one, and dropping them would leave a slow drag
    /// moving nothing at all.
    pub scroll_residual: i32,
    /// The same for the palette's list, which counts in rows: what is short of
    /// one waits here for the rest of the gesture.
    pub palette_wheel: i32,
    pub profile_menu_open: bool,
    pub focus: Focus,
    pub editor: Editor,
    pub click: ClickTracker,
    pub meters: MeterState,
    pub halo: HaloState,
    pub caret_visible: bool,
    /// The user's visual toggles, loaded once at startup. Layout reads them to
    /// decide which toolbar buttons exist.
    pub settings: Settings,
    /// Who paints the window's chrome, which decides where the profile selector
    /// lives and whether the surface owns its resize edges.
    pub chrome: Chrome,
    /// Whether the window is maximized, for the maximize button's glyph and the
    /// resize edges (a maximized window has none).
    pub maximized: bool,
    pub dirty: Dirty,
}

#[verifier::ext_equal]
pub struct UiModel {
    pub pointer: (i32, i32),
    pub hover: Option<HitTargetView>,
    pub knob_hover: Option<RowIdView>,
    pub pressed: Option<HitTargetView>,
    pub drag: Option<DragView>,
    pub scroll_x: i32,
    pub scroll_y: i32,
    pub scroll_residual: i32,
    pub palette_wheel: i32,
    pub profile_menu_open: bool,
    pub focus: Focus,
    pub editor: EditorView,
    pub click: ClickTracker,
    pub meters: Seq<MeterRowView>,
    pub halo: HaloModel,
    pub caret_visible: bool,
    pub settings: Settings,
    pub chrome: Chrome,
    pub maximized: bool,
    pub dirty: Dirty,
}

impl View for UiState {
    type V = UiModel;

    open spec fn view(&self) -> UiModel {
        UiModel {
            pointer: self.pointer,
            hover: layout::target_view(self.hover),
            knob_hover: layout::row_view(self.knob_hover),
            pressed: layout::target_view(self.pressed),
            drag: drag_view(self.drag),
            scroll_x: self.scroll_x,
            scroll_y: self.scroll_y,
            scroll_residual: self.scroll_residual,
            palette_wheel: self.palette_wheel,
            profile_menu_open: self.profile_menu_open,
            focus: self.focus,
            editor: self.editor@,
            click: self.click,
            meters: self.meters@,
            halo: self.halo@,
            caret_visible: self.caret_visible,
            settings: self.settings,
            chrome: self.chrome,
            maximized: self.maximized,
            dirty: self.dirty,
        }
    }
}

impl UiModel {
    /// A caret in its text, and a scrollbar held within sixty-four million
    /// pixels of its slider's left edge.
    pub open spec fn wf(self) -> bool {
        &&& self.editor.wf()
        &&& self.drag matches Some(DragView::StripScroll { grab }) ==> -0x400_0000 <= grab
            <= 0x400_0000
    }

    /// A window nothing has happened in yet, its first frame still to paint.
    pub open spec fn fresh() -> UiModel {
        UiModel {
            pointer: (0, 0),
            hover: None,
            knob_hover: None,
            pressed: None,
            drag: None,
            scroll_x: 0,
            scroll_y: 0,
            scroll_residual: 0,
            palette_wheel: 0,
            profile_menu_open: false,
            focus: Focus::Body,
            editor: EditorView::blank(),
            click: ClickTracker::idle(),
            meters: Seq::empty(),
            halo: HaloModel::blank(),
            caret_visible: true,
            settings: Settings::initial(),
            chrome: Chrome::Server,
            maximized: false,
            dirty: Dirty { layout: true, full: true, meters: false },
        }
    }

    /// A full repaint asked for.
    pub open spec fn repaint(self) -> UiModel {
        UiModel { dirty: Dirty { full: true, ..self.dirty }, ..self }
    }

    /// The knob wearing the hover ring: the one being dragged, or failing that
    /// the one under the pointer.
    pub open spec fn lit(self) -> Option<RowIdView> {
        match self.drag {
            Some(DragView::Slider(row)) => Some(row),
            _ => self.knob_hover,
        }
    }
}

impl Default for UiState {
    fn default() -> (ui: Self)
        ensures
            ui@ == UiModel::fresh(),
    {
        UiState {
            pointer: (0, 0),
            hover: None,
            knob_hover: None,
            pressed: None,
            drag: None,
            scroll_x: 0,
            scroll_y: 0,
            scroll_residual: 0,
            palette_wheel: 0,
            profile_menu_open: false,
            focus: Focus::Body,
            editor: Editor::new(),
            click: ClickTracker::default(),
            meters: MeterState::new(),
            halo: HaloState::new(),
            caret_visible: true,
            settings: Settings::default(),
            chrome: Chrome::Server,
            maximized: false,
            // The first frame always paints.
            dirty: Dirty { layout: true, full: true, meters: false },
        }
    }
}

impl UiState {
    pub fn new() -> (ui: Self)
        ensures
            ui@ == UiModel::fresh(),
    {
        Self::default()
    }

    /// Whether an overlay (palette or modal) is holding focus.
    pub fn overlay_focused(&self) -> (yes: bool)
        ensures
            yes == (self@.focus != Focus::Body),
    {
        self.focus != Focus::Body
    }

    /// The knob wearing the hover ring: the one being dragged, or failing that
    /// the one under the pointer. A drag outranks the pointer so the ring stays
    /// on the knob being moved even once the pointer has slid off it.
    pub fn lit_knob(&self) -> (row: Option<RowId>)
        ensures
            layout::row_view(row) == self@.lit(),
    {
        if let Some(Drag::Slider(row)) = &self.drag {
            return Some(row.clone());
        }
        clone_row(&self.knob_hover)
    }

    /// Advance the caret blink one step. Off-focus it settles visible, so the
    /// next field to take focus starts with a caret rather than a gap. Returns
    /// whether anything changed and the frame needs repainting.
    pub fn blink_caret(&mut self) -> (changed: bool)
        ensures
            final(self)@ == (UiModel {
                caret_visible: old(self)@.focus == Focus::Body || !old(self)@.caret_visible,
                ..old(self)@
            }),
            changed == (final(self)@.caret_visible != old(self)@.caret_visible),
    {
        let next = if self.overlay_focused() {
            !self.caret_visible
        } else {
            true
        };
        let changed = next != self.caret_visible;
        self.caret_visible = next;
        changed
    }
}

/// A request for a repaint stands until the frame is painted, asking for a
/// reprojection asks for a repaint too, and once the frame is painted nothing
/// is left to draw.
pub proof fn repaints_are_never_lost(d: Dirty)
    ensures
        (Dirty { full: true, ..d }).pending(),
        (Dirty { layout: true, full: true, ..d }).pending(),
        (Dirty { meters: true, ..d }).pending(),
        d.pending() ==> (Dirty { layout: true, full: true, ..d }).pending(),
        !Dirty::clean().pending(),
{
}

} // verus!
