//! Normalized input values and the mapping from an event to state.
//!
//! Wayland and GTK each translate their native events into these values, so the
//! mapping from an event and the hovered hit target to a state message or a
//! transient UI change is written once and shared. Nothing here is toolkit- or
//! protocol-specific; it is the vocabulary both shells speak.

use crate::domain::Gain;
use crate::render::primitives;
use crate::render::primitives::Rect;
use crate::single;
use crate::single::share_of;
use crate::state::{Message, MessageView};
use crate::text::same_text;
use crate::ui;
use crate::ui::editor::{Editor, EditorView};
use crate::ui::keysym;
use crate::ui::layout;
use crate::ui::layout::{
    cubic_for_y, same_opt_row, same_opt_target, same_row, ColumnModel, HitTarget, HitTargetView,
    Layout, LayoutModel, ProfileMenuGeom, ProfileRowGeomModel, ResizeEdge, RowId, RowIdView,
};
use crate::ui::metrics::PALETTE_ROW_H;
use crate::ui::{steps_in, Drag, DragView, Focus, UiModel, UiState, SUBPIXELS};
use crate::view::snapshot::{SnapshotModel, ViewSnapshot};
use vstd::prelude::*;
use vstd::string::*;

verus! {

/// The modifier keys held during an event.
#[derive(Clone, Copy, PartialEq, Eq, Debug, Structural)]
pub struct Modifiers {
    pub ctrl: bool,
    pub shift: bool,
    pub alt: bool,
}

impl Default for Modifiers {
    fn default() -> (m: Self)
        ensures
            m == (Modifiers { ctrl: false, shift: false, alt: false }),
    {
        Modifiers { ctrl: false, shift: false, alt: false }
    }
}

impl Modifiers {
    pub open spec fn bare(self) -> bool {
        !self.ctrl && !self.shift && !self.alt
    }

    pub open spec fn only_ctrl(self) -> bool {
        self.ctrl && !self.shift && !self.alt
    }

    /// No modifier held (a bare key press).
    pub fn is_none(self) -> (b: bool)
        ensures
            b == self.bare(),
    {
        !self.ctrl && !self.shift && !self.alt
    }

    /// Exactly Ctrl (no Shift or Alt), the common shortcut form.
    pub fn is_ctrl(self) -> (b: bool)
        ensures
            b == self.only_ctrl(),
    {
        self.ctrl && !self.shift && !self.alt
    }
}

/// A key, normalized. Text-producing keys arrive as Char; the rest are named
/// so the mapping can act on them without decoding keysyms.
#[derive(Clone, Copy, PartialEq, Eq, Debug, Structural)]
pub enum Key {
    Char(char),
    Enter,
    Escape,
    Backspace,
    Delete,
    Tab,
    Left,
    Right,
    Up,
    Down,
    Home,
    End,
}

impl Key {
    /// The named key a keysym stands for.
    pub open spec fn named(sym: u32) -> Option<Key> {
        if sym == keysym::RETURN || sym == keysym::KP_ENTER || sym == keysym::ISO_ENTER {
            Some(Key::Enter)
        } else if sym == keysym::ESCAPE {
            Some(Key::Escape)
        } else if sym == keysym::BACKSPACE {
            Some(Key::Backspace)
        } else if sym == keysym::DELETE || sym == keysym::KP_DELETE {
            Some(Key::Delete)
        } else if sym == keysym::TAB || sym == keysym::ISO_LEFT_TAB {
            Some(Key::Tab)
        } else if sym == keysym::LEFT || sym == keysym::KP_LEFT {
            Some(Key::Left)
        } else if sym == keysym::RIGHT || sym == keysym::KP_RIGHT {
            Some(Key::Right)
        } else if sym == keysym::UP || sym == keysym::KP_UP {
            Some(Key::Up)
        } else if sym == keysym::DOWN || sym == keysym::KP_DOWN {
            Some(Key::Down)
        } else if sym == keysym::HOME || sym == keysym::KP_HOME {
            Some(Key::Home)
        } else if sym == keysym::END || sym == keysym::KP_END {
            Some(Key::End)
        } else {
            None
        }
    }

    /// The named key an X11 keysym stands for, or None when the keysym is a
    /// character or something the UI does not act on.
    ///
    /// Both shells need this table. Wayland delivers keysyms through xkb and
    /// GDK's keyvals are the same numbers, so the naming is written once here
    /// and each shell brings its own way of turning the rest into characters.
    pub fn from_keysym(sym: u32) -> (key: Option<Self>)
        ensures
            key == Self::named(sym),
    {
        if sym == keysym::RETURN || sym == keysym::KP_ENTER || sym == keysym::ISO_ENTER {
            Some(Key::Enter)
        } else if sym == keysym::ESCAPE {
            Some(Key::Escape)
        } else if sym == keysym::BACKSPACE {
            Some(Key::Backspace)
        } else if sym == keysym::DELETE || sym == keysym::KP_DELETE {
            Some(Key::Delete)
        } else if sym == keysym::TAB || sym == keysym::ISO_LEFT_TAB {
            Some(Key::Tab)
        } else if sym == keysym::LEFT || sym == keysym::KP_LEFT {
            Some(Key::Left)
        } else if sym == keysym::RIGHT || sym == keysym::KP_RIGHT {
            Some(Key::Right)
        } else if sym == keysym::UP || sym == keysym::KP_UP {
            Some(Key::Up)
        } else if sym == keysym::DOWN || sym == keysym::KP_DOWN {
            Some(Key::Down)
        } else if sym == keysym::HOME || sym == keysym::KP_HOME {
            Some(Key::Home)
        } else if sym == keysym::END || sym == keysym::KP_END {
            Some(Key::End)
        } else {
            None
        }
    }
}

/// A key press with its modifiers.
#[derive(Clone, Copy, PartialEq, Eq, Debug, Structural)]
pub struct KeyEvent {
    pub key: Key,
    pub mods: Modifiers,
}

/// A pointer button.
#[derive(Clone, Copy, PartialEq, Eq, Debug, Structural)]
pub enum MouseButton {
    Left,
    Right,
    Middle,
}

/// What a pointer event did.
#[derive(Clone, Copy, PartialEq, Eq, Debug, Structural)]
pub enum PointerAction {
    Motion,
    Press(MouseButton),
    Release(MouseButton),
    /// Wheel or touchpad scroll, in parts of a logical pixel along each axis.
    /// Positive scrolls down and right.
    Scroll { dx: i32, dy: i32 },
}

/// A pointer event at a position within the content, in parts of a logical
/// pixel.
#[derive(Clone, Copy, PartialEq, Eq, Debug, Structural)]
pub struct PointerEvent {
    pub x: i32,
    pub y: i32,
    /// The char offset the pointer is over in the text of the field that
    /// [`caret_field`] names.
    pub caret: usize,
    pub action: PointerAction,
}

impl PointerEvent {
    /// The pixel it falls on, across.
    pub open spec fn across(self) -> int {
        ui::steps(self.x as int, SUBPIXELS as int)
    }

    /// The pixel it falls on, down.
    pub open spec fn down(self) -> int {
        ui::steps(self.y as int, SUBPIXELS as int)
    }

    /// The pixel it falls on.
    fn pixel(self) -> (at: (i32, i32))
        ensures
            at.0 == self.across(),
            at.1 == self.down(),
            -0x80_0000 <= at.0 <= 0x80_0000,
            -0x80_0000 <= at.1 <= 0x80_0000,
    {
        let x: i64 = steps_in(self.x as i64, SUBPIXELS as i64);
        let y: i64 = steps_in(self.y as i64, SUBPIXELS as i64);
        (x as i32, y as i32)
    }

    pub fn position(self) -> (at: (i32, i32))
        ensures
            at == (self.x, self.y),
    {
        (self.x, self.y)
    }
}

/// A clipboard operation a key press asked for. The shells perform the actual
/// transfer, which is platform-specific, but agree on what the keys mean.
#[derive(Clone, Copy, PartialEq, Eq, Debug, Structural)]
pub enum ClipboardAction {
    Copy,
    Cut,
    Paste,
}

/// A window-management request. Moving, resizing, and closing a window are the
/// shell's business, not the mixer's, so these never become state messages; the
/// shared code only names what the press asked for.
#[derive(Clone, Copy, PartialEq, Eq, Debug, Structural)]
pub enum WindowAction {
    Move,
    Resize(ResizeEdge),
    Minimize,
    ToggleMaximize,
    Close,
}

/// What a press on a target asks of the window.
pub open spec fn asked_of_window(target: HitTargetView) -> Option<WindowAction> {
    match target {
        HitTargetView::TitlebarDrag => Some(WindowAction::Move),
        HitTargetView::ResizeEdge(edge) => Some(WindowAction::Resize(edge)),
        HitTargetView::WindowMinimize => Some(WindowAction::Minimize),
        HitTargetView::WindowMaximize => Some(WindowAction::ToggleMaximize),
        HitTargetView::WindowClose => Some(WindowAction::Close),
        _ => None,
    }
}

/// The window action a left press on `target` asks for, or None. Only reachable
/// when the shell draws its own chrome; layout emits no such targets otherwise.
pub fn window_action(target: &HitTarget) -> (action: Option<WindowAction>)
    ensures
        action == asked_of_window(target@),
{
    match target {
        HitTarget::TitlebarDrag => Some(WindowAction::Move),
        HitTarget::ResizeEdge(edge) => Some(WindowAction::Resize(*edge)),
        HitTarget::WindowMinimize => Some(WindowAction::Minimize),
        HitTarget::WindowMaximize => Some(WindowAction::ToggleMaximize),
        HitTarget::WindowClose => Some(WindowAction::Close),
        _ => None,
    }
}

/// Whether a key press asks for a screenshot (Ctrl+Shift+S).
pub fn is_screenshot_key(event: KeyEvent) -> (yes: bool)
    ensures
        yes == (event.mods.ctrl && event.mods.shift && !event.mods.alt && (event.key == Key::Char(
            's',
        ) || event.key == Key::Char('S'))),
{
    event.mods.ctrl && event.mods.shift && !event.mods.alt && (event.key == Key::Char('s')
        || event.key == Key::Char('S'))
}

/// The clipboard action a key press means.
pub open spec fn asked_of_clipboard(focus: Focus, event: KeyEvent) -> Option<ClipboardAction> {
    if focus == Focus::Body || !event.mods.only_ctrl() {
        None
    } else if event.key == Key::Char('c') || event.key == Key::Char('C') {
        Some(ClipboardAction::Copy)
    } else if event.key == Key::Char('x') || event.key == Key::Char('X') {
        Some(ClipboardAction::Cut)
    } else if event.key == Key::Char('v') || event.key == Key::Char('V') {
        Some(ClipboardAction::Paste)
    } else {
        None
    }
}

/// The clipboard action a key press means, or None. Only an overlay editor
/// takes these; the mixer body has no text to copy.
pub fn clipboard_action(ui: &UiState, event: KeyEvent) -> (action: Option<ClipboardAction>)
    ensures
        action == asked_of_clipboard(ui@.focus, event),
{
    if !ui.overlay_focused() || !event.mods.is_ctrl() {
        return None;
    }
    if event.key == Key::Char('c') || event.key == Key::Char('C') {
        Some(ClipboardAction::Copy)
    } else if event.key == Key::Char('x') || event.key == Key::Char('X') {
        Some(ClipboardAction::Cut)
    } else if event.key == Key::Char('v') || event.key == Key::Char('V') {
        Some(ClipboardAction::Paste)
    } else {
        None
    }
}

/// The message that mirrors the focused field's text into state.
pub open spec fn text_message(ui: UiModel) -> Option<MessageView> {
    match ui.focus {
        Focus::Palette => Some(MessageView::PaletteQueryChanged(ui.editor.text)),
        Focus::Modal => Some(MessageView::ModalNameChanged(ui.editor.text)),
        Focus::Body => None,
    }
}

pub open spec fn message_view(message: Option<Message>) -> Option<MessageView> {
    match message {
        Some(m) => Some(m@),
        None => None,
    }
}

/// Mirror the focused editor's text into state after a clipboard edit.
pub fn editor_text_message(ui: &UiState) -> (message: Option<Message>)
    ensures
        message_view(message) == text_message(ui@),
{
    match ui.focus {
        Focus::Palette => Some(Message::PaletteQueryChanged(ui.editor.text().to_owned())),
        Focus::Modal => Some(Message::ModalNameChanged(ui.editor.text().to_owned())),
        Focus::Body => None,
    }
}

// --- What an event asks for -----------------------------------------------------------------

/// Something an event asks the shell to do.
#[derive(Debug, PartialEq, Eq)]
pub enum Request {
    /// Reduce a message.
    Send(Message),
    /// Give a row the gain a fader position stands for: a stream its own, a
    /// group's members each their share.
    Volume { row: RowId, cubic: Gain },
    /// Run the palette command in this place of the list.
    Command(usize),
}

#[verifier::ext_equal]
pub enum RequestView {
    Send(MessageView),
    Volume { row: RowIdView, cubic: Gain },
    Command(usize),
}

impl View for Request {
    type V = RequestView;

    open spec fn view(&self) -> RequestView {
        match self {
            Request::Send(m) => RequestView::Send(m@),
            Request::Volume { row, cubic } => RequestView::Volume { row: row@, cubic: *cubic },
            Request::Command(i) => RequestView::Command(*i),
        }
    }
}

pub open spec fn requests(list: Seq<Request>) -> Seq<RequestView> {
    Seq::new(list.len(), |i: int| list[i]@)
}

fn one(request: Request) -> (list: Vec<Request>)
    ensures
        requests(list@) == seq![request@],
{
    let mut list: Vec<Request> = Vec::new();
    list.push(request);
    assert(requests(list@) =~= seq![request@]);
    list
}

fn two(first: Request, second: Request) -> (list: Vec<Request>)
    ensures
        requests(list@) == seq![first@, second@],
{
    let mut list: Vec<Request> = Vec::new();
    list.push(first);
    list.push(second);
    assert(requests(list@) =~= seq![first@, second@]);
    list
}

fn none() -> (list: Vec<Request>)
    ensures
        requests(list@) == Seq::<RequestView>::empty(),
{
    let list: Vec<Request> = Vec::new();
    assert(requests(list@) =~= Seq::<RequestView>::empty());
    list
}

/// The state message a button hit target produces. None for targets handled by
/// the caller (sliders, the profile selector, overlay inputs).
pub open spec fn pressed_button(target: HitTargetView) -> Option<MessageView> {
    match target {
        HitTargetView::SectionFilter(section) => Some(MessageView::ToggleSection(section)),
        HitTargetView::MuteAll => Some(MessageView::MuteAllToggled),
        HitTargetView::ResetTargets => Some(MessageView::ResetAllStreamTargets),
        HitTargetView::DeviceDefault(RowIdView::Sink(id)) => Some(MessageView::MakeDefault(id)),
        HitTargetView::DeviceDefault(RowIdView::Source(id)) => Some(
            MessageView::MakeDefaultSource(id),
        ),
        HitTargetView::RowMute(row) => Some(mute_message(row)),
        HitTargetView::AppExpand(RowIdView::AppGroup(key)) => Some(
            MessageView::GroupToggleExpanded(key),
        ),
        HitTargetView::AppTarget { row: RowIdView::AppGroup(key), sink: Some(sink_id) } => Some(
            MessageView::GroupSetStreamTarget { key, sink_id },
        ),
        HitTargetView::AppTarget { row: RowIdView::AppGroup(key), sink: None } => Some(
            MessageView::GroupClearStreamTarget(key),
        ),
        HitTargetView::AppTarget { row: RowIdView::AppMember(app_id), sink: Some(sink_id) } => Some(
            MessageView::SetStreamTarget { app_id, sink_id },
        ),
        HitTargetView::AppTarget { row: RowIdView::AppMember(id), sink: None } => Some(
            MessageView::ClearStreamTarget(id),
        ),
        HitTargetView::ProfileCreate => Some(MessageView::OpenCreateProfileModal),
        _ => None,
    }
}

/// The message that mutes or unmutes a row.
pub open spec fn mute_message(row: RowIdView) -> MessageView {
    match row {
        RowIdView::AppGroup(key) => MessageView::GroupMuteToggled(key),
        RowIdView::Sink(id) => MessageView::MuteToggled(id),
        RowIdView::Source(id) => MessageView::MuteToggled(id),
        RowIdView::AppMember(id) => MessageView::MuteToggled(id),
    }
}

fn mute_for(row: &RowId) -> (message: Message)
    ensures
        message@ == mute_message(row@),
{
    match row {
        RowId::AppGroup(key) => Message::GroupMuteToggled(key.clone()),
        RowId::Sink(id) => Message::MuteToggled(*id),
        RowId::Source(id) => Message::MuteToggled(*id),
        RowId::AppMember(id) => Message::MuteToggled(*id),
    }
}

fn button_message(target: &HitTarget) -> (message: Option<Message>)
    ensures
        message_view(message) == pressed_button(target@),
{
    match target {
        HitTarget::SectionFilter(section) => Some(Message::ToggleSection(*section)),
        HitTarget::MuteAll => Some(Message::MuteAllToggled),
        HitTarget::ResetTargets => Some(Message::ResetAllStreamTargets),
        HitTarget::DeviceDefault(row) => match row {
            RowId::Sink(id) => Some(Message::MakeDefault(*id)),
            RowId::Source(id) => Some(Message::MakeDefaultSource(*id)),
            _ => None,
        },
        HitTarget::RowMute(row) => Some(mute_for(row)),
        HitTarget::AppExpand(row) => match row {
            RowId::AppGroup(key) => Some(Message::GroupToggleExpanded(key.clone())),
            _ => None,
        },
        HitTarget::AppTarget { row, sink } => match (row, *sink) {
            (RowId::AppGroup(key), Some(sink_id)) => Some(
                Message::GroupSetStreamTarget { key: key.clone(), sink_id },
            ),
            (RowId::AppGroup(key), None) => Some(Message::GroupClearStreamTarget(key.clone())),
            (RowId::AppMember(id), Some(sink_id)) => Some(
                Message::SetStreamTarget { app_id: *id, sink_id },
            ),
            (RowId::AppMember(id), None) => Some(Message::ClearStreamTarget(*id)),
            _ => None,
        },
        HitTarget::ProfileCreate => Some(Message::OpenCreateProfileModal),
        _ => None,
    }
}

// --- Looking things up in a layout ------------------------------------------------------------

/// Where a row's column is, the first of the first `n`.
pub open spec fn column_of(columns: Seq<ColumnModel>, row: RowIdView, n: int) -> Option<int>
    decreases n,
{
    if n <= 0 {
        None
    } else {
        match column_of(columns, row, n - 1) {
            Some(i) => Some(i),
            None => if columns[n - 1].id == row {
                Some(n - 1)
            } else {
                None
            },
        }
    }
}

proof fn first_column_stands(columns: Seq<ColumnModel>, row: RowIdView, m: int, n: int)
    requires
        m <= n,
        column_of(columns, row, m) is Some,
    ensures
        column_of(columns, row, n) == column_of(columns, row, m),
    decreases n - m,
{
    if m < n {
        first_column_stands(columns, row, m, n - 1);
    }
}

fn find_column(layout: &Layout, row: &RowId) -> (at: Option<usize>)
    ensures
        match at {
            Some(i) => {
                &&& i < layout.columns@.len()
                &&& column_of(layout@.columns, row@, layout@.columns.len() as int) == Some(
                    i as int,
                )
            },
            None => column_of(layout@.columns, row@, layout@.columns.len() as int) is None,
        },
{
    let mut i: usize = 0;
    while i < layout.columns.len()
        invariant
            i <= layout.columns@.len() == layout@.columns.len(),
            column_of(layout@.columns, row@, i as int) is None,
        decreases layout.columns@.len() - i,
    {
        assert(layout@.columns[i as int] == layout.columns@[i as int]@);
        if same_row(&layout.columns[i].id, row) {
            proof {
                first_column_stands(
                    layout@.columns,
                    row@,
                    i + 1,
                    layout@.columns.len() as int,
                );
            }
            return Some(i);
        }
        i = i + 1;
    }
    None
}

/// The volume a pointer y asks of a row, if its column is there.
#[verifier::opaque]
pub open spec fn volume_at(layout: LayoutModel, row: RowIdView, y: int) -> Seq<RequestView> {
    match column_of(layout.columns, row, layout.columns.len() as int) {
        Some(i) => seq![
            RequestView::Volume {
                row,
                cubic: layout::gain_for_y(layout.columns[i].slider.track, y),
            },
        ],
        None => Seq::empty(),
    }
}

/// The knob a point is on: that of the row whose fader it hits, if it is inside
/// its thumb.
pub open spec fn knob_at(layout: LayoutModel, hover: Option<HitTargetView>, x: int, y: int) ->
    Option<RowIdView> {
    match hover {
        Some(HitTargetView::RowSlider(row)) => match column_of(
            layout.columns,
            row,
            layout.columns.len() as int,
        ) {
            Some(i) => if layout.columns[i].slider.thumb.covers(x, y) {
                Some(row)
            } else {
                None
            },
            None => None,
        },
        _ => None,
    }
}

/// The scroll offset that puts the strip's scrollbar slider at `slider_x`,
/// brought into the run it can travel. `None` when nothing is scrollable.
#[verifier::opaque]
pub open spec fn scroll_at(layout: LayoutModel, slider_x: int) -> Option<int> {
    match layout.strip_scrollbar {
        None => None,
        Some(bar) => {
            let travel = bar.track.w - bar.slider.w;
            let along = slider_x - bar.track.x;
            if travel <= 0 || along <= 0 {
                Some(0)
            } else {
                Some(
                    primitives::least(
                        single::share(
                            layout.scroll_max_x as nat,
                            along as nat,
                            travel as nat,
                        ) as int,
                        layout.scroll_max_x as int,
                    ),
                )
            }
        },
    }
}

/// The topmost target at a point.
pub open spec fn target_at(layout: LayoutModel, x: int, y: int) -> Option<HitTargetView> {
    layout::topmost(layout.hits, x, y, layout.hits.len() as int)
}

fn hit_at(layout: &Layout, x: i32, y: i32) -> (target: Option<HitTarget>)
    ensures
        layout::target_view(target) == target_at(layout@, x as int, y as int),
{
    match layout.hit(x, y) {
        Some(t) => Some(t.clone()),
        None => None,
    }
}

fn volume_for(layout: &Layout, row: &RowId, y: i32) -> (list: Vec<Request>)
    requires
        layout@.wf(),
    ensures
        requests(list@) == volume_at(layout@, row@, y as int),
{
    reveal(volume_at);
    match find_column(layout, row) {
        Some(i) => {
            assert(layout@.columns[i as int] == layout.columns@[i as int]@);
            let track = layout.columns[i].slider.track;
            assert(layout@.columns[i as int].slider.track == track);
            one(Request::Volume { row: row.clone(), cubic: cubic_for_y(track, y) })
        },
        None => none(),
    }
}

fn knob_for(layout: &Layout, hover: &Option<HitTarget>, x: i32, y: i32) -> (row: Option<RowId>)
    ensures
        layout::row_view(row) == knob_at(
            layout@,
            layout::target_view(*hover),
            x as int,
            y as int,
        ),
{
    match hover {
        Some(HitTarget::RowSlider(row)) => match find_column(layout, row) {
            Some(i) => {
                assert(layout@.columns[i as int] == layout.columns@[i as int]@);
                if layout.columns[i].slider.thumb.contains(x, y) {
                    Some(row.clone())
                } else {
                    None
                }
            },
            None => None,
        },
        _ => None,
    }
}

fn scroll_for_slider(layout: &Layout, slider_x: i32) -> (at: Option<i32>)
    requires
        layout@.wf(),
        -0x800_0000 <= slider_x <= 0x800_0000,
    ensures
        match at {
            Some(v) => scroll_at(layout@, slider_x as int) == Some(v as int),
            None => scroll_at(layout@, slider_x as int) is None,
        },
{
    reveal(scroll_at);
    match &layout.strip_scrollbar {
        None => None,
        Some(bar) => {
            let travel: i32 = bar.track.w - bar.slider.w;
            let along: i32 = slider_x - bar.track.x;
            if travel <= 0 || along <= 0 {
                return Some(0);
            }
            let at: i32 = share_of(layout.scroll_max_x as u32, along as u32, travel as u32);
            Some(
                if at < layout.scroll_max_x {
                    at
                } else {
                    layout.scroll_max_x
                },
            )
        },
    }
}

// --- The pointer --------------------------------------------------------------------------------

/// What an event leaves: the transient state, and what it asks for.
pub struct Outcome {
    pub ui: UiModel,
    pub asks: Seq<RequestView>,
}

pub open spec fn outcome(ui: UiModel) -> Outcome {
    Outcome { ui, asks: Seq::empty() }
}

/// A layout of this snapshot's palette: it shows no more rows than there are.
pub open spec fn palette_agrees(layout: LayoutModel, snap: SnapshotModel) -> bool {
    layout.palette matches Some(p) ==> {
        &&& p.rows.len() <= snap.palette.rows.len() <= 0x1000_0000
        &&& p.first_visible <= 0x1000_0000
    }
}

/// The hover and the ring brought to what the pointer is over. The ring belongs
/// to the knob alone, while the click belongs to the whole track.
pub open spec fn hovered(ui: UiModel, layout: LayoutModel, x: int, y: int) -> UiModel {
    let hover = target_at(layout, x, y);
    let knob = knob_at(layout, hover, x, y);
    let a = if hover != ui.hover {
        UiModel { hover, ..ui }.repaint()
    } else {
        ui
    };
    if knob != a.knob_hover {
        UiModel { knob_hover: knob, ..a }.repaint()
    } else {
        a
    }
}

/// A selection drag keeps tracking the field it began in, even once the pointer
/// has left it.
pub open spec fn selected_to(ui: UiModel, layout: LayoutModel, caret: usize) -> UiModel {
    match layout.field(ui.focus) {
        Some(_) => UiModel {
            editor: ui.editor.gone_to(ui.editor.within(caret), true),
            ..ui
        }.repaint(),
        None => ui,
    }
}

/// The strip scrolled so that its scrollbar's slider comes to `slider_x`.
pub open spec fn slid_to(ui: UiModel, layout: LayoutModel, slider_x: int) -> UiModel {
    match scroll_at(layout, slider_x) {
        Some(next) => if next != ui.scroll_x {
            UiModel { scroll_x: next as i32, ..ui }.repaint()
        } else {
            ui
        },
        None => ui,
    }
}

/// A drag carried on.
pub open spec fn dragged(ui: UiModel, layout: LayoutModel, event: PointerEvent) -> Outcome {
    match ui.drag {
        Some(DragView::Slider(row)) => Outcome {
            ui,
            asks: volume_at(layout, row, event.down()),
        },
        Some(DragView::TextSelect) => outcome(selected_to(ui, layout, event.caret)),
        Some(DragView::StripScroll { grab }) => outcome(slid_to(ui, layout, event.across() - grab)),
        _ => outcome(ui),
    }
}

/// A click in a text field: it takes focus, the caret goes under the pointer,
/// and a selection may be dragged from there.
pub open spec fn clicked_field(
    ui: UiModel,
    layout: LayoutModel,
    focus: Focus,
    caret: usize,
    clicks: u32,
) -> UiModel {
    let a = UiModel { focus, ..ui };
    match layout.field(focus) {
        Some(_) => UiModel {
            editor: a.editor.clicked(caret, clicks),
            drag: Some(DragView::TextSelect),
            ..a
        },
        None => a,
    }
}

/// Where a press on the strip's scrollbar grabs its slider: on the slider, where
/// it was pressed; beside it, in its middle.
pub open spec fn grabbed(slider: Rect, x: int, y: int) -> int {
    if slider.covers(x, y) {
        x - slider.x
    } else {
        slider.w / 2
    }
}

/// A press on the strip's scrollbar. On the slider, drag from where it was
/// grabbed. Beside it, the slider jumps to the pointer and the drag carries on
/// from its middle, so one press both pages and grabs.
pub open spec fn pressed_bar(ui: UiModel, layout: LayoutModel, x: int, y: int) -> UiModel {
    match layout.strip_scrollbar {
        None => ui,
        Some(bar) => {
            let grab = grabbed(bar.slider, x, y);
            UiModel {
                scroll_x: if bar.slider.covers(x, y) {
                    ui.scroll_x
                } else {
                    scroll_or(layout, x - grab, ui.scroll_x)
                },
                drag: Some(DragView::StripScroll { grab: grab as i32 }),
                ..ui
            }
        },
    }
}

/// The scroll offset of a slider position, or the one there is.
pub open spec fn scroll_or(layout: LayoutModel, slider_x: int, now: i32) -> i32 {
    match scroll_at(layout, slider_x) {
        Some(next) => next as i32,
        None => now,
    }
}

/// A press on a target, once the press itself has been recorded.
pub open spec fn pressed_on(
    ui: UiModel,
    layout: LayoutModel,
    snap: SnapshotModel,
    event: PointerEvent,
    target: Option<HitTargetView>,
    clicks: u32,
) -> Outcome {
    match target {
        None => outcome(UiModel { profile_menu_open: false, ..ui }),
        Some(HitTargetView::RowSlider(row)) => Outcome {
            ui: UiModel { drag: Some(DragView::Slider(row)), ..ui },
            asks: volume_at(layout, row, event.down()),
        },
        Some(HitTargetView::ProfileSelector) => outcome(
            UiModel { profile_menu_open: !ui.profile_menu_open, ..ui },
        ),
        Some(HitTargetView::StripScrollbar) => outcome(
            pressed_bar(ui, layout, event.across(), event.down()),
        ),
        // A press on a profile may turn into a reorder, so nothing is applied
        // until release tells the two apart.
        Some(HitTargetView::ProfileApply(name)) => outcome(
            UiModel { drag: Some(DragView::ProfileReorder(name)), ..ui },
        ),
        Some(HitTargetView::PaletteInput) => outcome(
            clicked_field(ui, layout, Focus::Palette, event.caret, clicks),
        ),
        Some(HitTargetView::ModalInput) => outcome(
            clicked_field(ui, layout, Focus::Modal, event.caret, clicks),
        ),
        Some(HitTargetView::PaletteRow(i)) => if i < snap.palette.rows.len() {
            Outcome {
                ui: UiModel { focus: Focus::Body, ..ui },
                asks: seq![RequestView::Command(i), RequestView::Send(MessageView::TogglePalette)],
            }
        } else {
            outcome(ui)
        },
        Some(HitTargetView::ModalConfirm) => Outcome {
            ui,
            asks: seq![RequestView::Send(MessageView::ModalConfirm)],
        },
        Some(HitTargetView::ModalCancel) => Outcome {
            ui,
            asks: seq![RequestView::Send(MessageView::ModalDismiss)],
        },
        // Pressing the dimmed area around an overlay dismisses it.
        Some(HitTargetView::Backdrop) => Outcome {
            ui: UiModel { focus: Focus::Body, ..ui },
            asks: if snap.modal is Some {
                seq![RequestView::Send(MessageView::ModalDismiss)]
            } else if snap.palette.open {
                seq![RequestView::Send(MessageView::TogglePalette)]
            } else {
                Seq::empty()
            },
        },
        Some(t) => Outcome {
            ui,
            asks: match pressed_button(t) {
                Some(m) => seq![RequestView::Send(m)],
                None => Seq::empty(),
            },
        },
    }
}

/// A left press.
pub open spec fn pressed(
    ui: UiModel,
    layout: LayoutModel,
    snap: SnapshotModel,
    event: PointerEvent,
    now_ms: u64,
) -> Outcome {
    let target = target_at(layout, event.across(), event.down());
    let clicks = ui.click.chained(now_ms, event.x, event.y);
    let a = UiModel {
        pressed: target,
        click: ui.click.pressed(now_ms, event.x, event.y),
        ..ui
    };
    let out = pressed_on(a, layout, snap, event, target, clicks);
    Outcome { ui: out.ui.repaint(), asks: out.asks }
}

/// The menu row a point is in, the first of the first `n`.
pub open spec fn menu_row_at(rows: Seq<ProfileRowGeomModel>, x: int, y: int, n: int) -> Option<int>
    decreases n,
{
    if n <= 0 {
        None
    } else {
        match menu_row_at(rows, x, y, n - 1) {
            Some(i) => Some(i),
            None => if rows[n - 1].rect.covers(x, y) {
                Some(n - 1)
            } else {
                None
            },
        }
    }
}

/// What releasing a profile drag means: a reorder when it landed on a different
/// row, an apply when it never left the row it started on. Releasing off the
/// menu cancels. Which half of the row it was dropped on decides the side.
#[verifier::opaque]
pub open spec fn dropped(layout: LayoutModel, name: Seq<char>, x: int, y: int) -> Option<
    MessageView,
> {
    match layout.profile_menu {
        None => None,
        Some(menu) => match menu_row_at(menu.rows, x, y, menu.rows.len() as int) {
            None => None,
            Some(i) => {
                let row = menu.rows[i];
                if row.name == name {
                    Some(MessageView::ApplyProfile(name))
                } else {
                    Some(
                        MessageView::ReorderProfile {
                            name,
                            target: row.name,
                            before: y < row.rect.y + row.rect.h / 2,
                        },
                    )
                }
            },
        },
    }
}

/// A button let go.
pub open spec fn released(ui: UiModel, layout: LayoutModel, x: int, y: int) -> Outcome {
    let_go_of(
        ui,
        match ui.drag {
            Some(DragView::ProfileReorder(name)) => dropped(layout, name, x, y),
            _ => None,
        },
    )
}

/// A scroll by some parts of a pixel. An open palette takes it: it is what the
/// pointer is over, and the mixer behind it is not going anywhere. It moves by
/// whole rows, from the window on screen to where the list ends. The columns
/// are one row, so both axes push it sideways, by whole pixels. What is short
/// of a step is kept for the next event.
pub open spec fn scrolled(
    ui: UiModel,
    layout: LayoutModel,
    snap: SnapshotModel,
    delta: int,
) -> Outcome {
    match layout.palette {
        Some(palette) => {
            let row = PALETTE_ROW_H * SUBPIXELS;
            let total = ui.palette_wheel + delta;
            let rows = ui::steps(total, row);
            let kept = UiModel { palette_wheel: (total - rows * row) as i32, ..ui };
            let last = snap.palette.rows.len() - palette.rows.len();
            let next = layout::between(palette.first_visible + rows, 0, last);
            if next != palette.first_visible {
                Outcome {
                    ui: kept,
                    asks: seq![RequestView::Send(MessageView::PaletteScrollTo(next as usize))],
                }
            } else {
                outcome(kept)
            }
        },
        None => {
            let total = ui.scroll_residual + delta;
            let pixels = ui::steps(total, SUBPIXELS as int);
            let kept = UiModel { scroll_residual: (total - pixels * SUBPIXELS) as i32, ..ui };
            let next = layout::between(ui.scroll_x + pixels, 0, layout.scroll_max_x as int);
            if next != ui.scroll_x {
                outcome(UiModel { scroll_x: next as i32, ..kept }.repaint())
            } else {
                outcome(kept)
            }
        },
    }
}

/// What a pointer event leaves and asks for.
pub open spec fn pointed(
    ui: UiModel,
    layout: LayoutModel,
    snap: SnapshotModel,
    event: PointerEvent,
    now_ms: u64,
) -> Outcome {
    let a = UiModel { pointer: (event.x, event.y), ..ui };
    match event.action {
        PointerAction::Motion => dragged(
            hovered(a, layout, event.across(), event.down()),
            layout,
            event,
        ),
        PointerAction::Press(MouseButton::Left) => pressed(a, layout, snap, event, now_ms),
        PointerAction::Press(_) => outcome(a),
        PointerAction::Release(_) => released(a, layout, event.across(), event.down()),
        PointerAction::Scroll { dx, dy } => scrolled(a, layout, snap, dx + dy),
    }
}

/// The field whose text a pointer event's caret offset is measured in: the one a
/// selection is being dragged in, or the one a press lands on.
pub open spec fn caret_target(ui: UiModel, layout: LayoutModel, event: PointerEvent) -> Option<
    Rect,
> {
    match event.action {
        PointerAction::Motion => if ui.drag == Some(DragView::TextSelect) {
            layout.field(ui.focus)
        } else {
            None
        },
        PointerAction::Press(MouseButton::Left) => match target_at(
            layout,
            event.across(),
            event.down(),
        ) {
            Some(HitTargetView::PaletteInput) => layout.field(Focus::Palette),
            Some(HitTargetView::ModalInput) => layout.field(Focus::Modal),
            _ => None,
        },
        _ => None,
    }
}

/// The field a shell measures a pointer event's caret offset in, if the event
/// needs one.
pub fn caret_field(ui: &UiState, layout: &Layout, event: PointerEvent) -> (field: Option<Rect>)
    ensures
        field == caret_target(ui@, layout@, event),
{
    let at = event.pixel();
    match event.action {
        PointerAction::Motion => match &ui.drag {
            Some(Drag::TextSelect) => layout.focused_field(ui.focus),
            _ => None,
        },
        PointerAction::Press(MouseButton::Left) => match layout.hit(at.0, at.1) {
            Some(HitTarget::PaletteInput) => layout.focused_field(Focus::Palette),
            Some(HitTarget::ModalInput) => layout.focused_field(Focus::Modal),
            _ => None,
        },
        _ => None,
    }
}

fn hover_over(ui: &mut UiState, layout: &Layout, x: i32, y: i32)
    requires
        old(ui)@.wf(),
    ensures
        final(ui)@ == hovered(old(ui)@, layout@, x as int, y as int),
        final(ui)@.wf(),
{
    let hover = hit_at(layout, x, y);
    let knob_hover = knob_for(layout, &hover, x, y);
    if !same_opt_target(&hover, &ui.hover) {
        ui.hover = hover;
        ui.dirty.mark_full();
    }
    if !same_opt_row(&knob_hover, &ui.knob_hover) {
        ui.knob_hover = knob_hover;
        ui.dirty.mark_full();
    }
}

fn select_to(ui: &mut UiState, layout: &Layout, caret: usize)
    requires
        old(ui)@.wf(),
    ensures
        final(ui)@ == selected_to(old(ui)@, layout@, caret),
        final(ui)@.wf(),
{
    if layout.focused_field(ui.focus).is_some() {
        ui.editor.drag(caret);
        ui.dirty.mark_full();
    }
}

fn slide_to(ui: &mut UiState, layout: &Layout, slider_x: i32)
    requires
        old(ui)@.wf(),
        layout@.wf(),
        -0x800_0000 <= slider_x <= 0x800_0000,
    ensures
        final(ui)@ == slid_to(old(ui)@, layout@, slider_x as int),
        final(ui)@.wf(),
{
    if let Some(next) = scroll_for_slider(layout, slider_x) {
        if next != ui.scroll_x {
            ui.scroll_x = next;
            ui.dirty.mark_full();
        }
    }
}

fn drag_on(ui: &mut UiState, layout: &Layout, event: PointerEvent) -> (asks: Vec<Request>)
    requires
        old(ui)@.wf(),
        layout@.wf(),
    ensures
        final(ui)@ == dragged(old(ui)@, layout@, event).ui,
        requests(asks@) == dragged(old(ui)@, layout@, event).asks,
        final(ui)@.wf(),
{
    let at = event.pixel();
    match &ui.drag {
        Some(Drag::Slider(row)) => volume_for(layout, row, at.1),
        Some(Drag::TextSelect) => {
            select_to(ui, layout, event.caret);
            none()
        },
        Some(Drag::StripScroll { grab }) => {
            let grab: i32 = *grab;
            slide_to(ui, layout, at.0 - grab);
            none()
        },
        _ => none(),
    }
}

fn click_field(ui: &mut UiState, layout: &Layout, focus: Focus, caret: usize, clicks: u32)
    requires
        old(ui)@.wf(),
    ensures
        final(ui)@ == clicked_field(old(ui)@, layout@, focus, caret, clicks),
        final(ui)@.wf(),
{
    ui.focus = focus;
    if layout.focused_field(focus).is_some() {
        ui.editor.click(caret, clicks);
        ui.drag = Some(Drag::TextSelect);
    }
}

fn grab_bar(slider: Rect, x: i32, y: i32) -> (grab: i32)
    requires
        0 < slider.w,
    ensures
        grab == grabbed(slider, x as int, y as int),
        0 <= grab <= slider.w,
{
    if slider.contains(x, y) {
        x - slider.x
    } else {
        slider.w / 2
    }
}

fn page_bar(layout: &Layout, slider_x: i32, now: i32) -> (at: i32)
    requires
        layout@.wf(),
        -0x800_0000 <= slider_x <= 0x800_0000,
    ensures
        at == scroll_or(layout@, slider_x as int, now),
{
    match scroll_for_slider(layout, slider_x) {
        Some(next) => next,
        None => now,
    }
}

fn press_bar(ui: &mut UiState, layout: &Layout, x: i32, y: i32)
    requires
        old(ui)@.wf(),
        layout@.wf(),
        -0x400_0000 <= x <= 0x400_0000,
    ensures
        final(ui)@ == pressed_bar(old(ui)@, layout@, x as int, y as int),
        final(ui)@.wf(),
{
    let slider: Rect = match &layout.strip_scrollbar {
        Some(bar) => bar.slider,
        None => {
            return ;
        },
    };
    let grab: i32 = grab_bar(slider, x, y);
    let at: i32 = if slider.contains(x, y) {
        ui.scroll_x
    } else {
        page_bar(layout, x - grab, ui.scroll_x)
    };
    ui.scroll_x = at;
    ui.drag = Some(Drag::StripScroll { grab });
}

fn press_on(
    ui: &mut UiState,
    layout: &Layout,
    snap: &ViewSnapshot,
    event: PointerEvent,
    target: Option<HitTarget>,
    clicks: u32,
) -> (asks: Vec<Request>)
    requires
        old(ui)@.wf(),
        layout@.wf(),
    ensures
        final(ui)@ == pressed_on(
            old(ui)@,
            layout@,
            snap@,
            event,
            layout::target_view(target),
            clicks,
        ).ui,
        requests(asks@) == pressed_on(
            old(ui)@,
            layout@,
            snap@,
            event,
            layout::target_view(target),
            clicks,
        ).asks,
        final(ui)@.wf(),
{
    let at = event.pixel();
    let t: HitTarget = match target {
        Some(t) => t,
        None => {
            ui.profile_menu_open = false;
            return none();
        },
    };
    match t {
        HitTarget::RowSlider(row) => {
            let asks = volume_for(layout, &row, at.1);
            ui.drag = Some(Drag::Slider(row));
            asks
        },
        HitTarget::ProfileSelector => {
            ui.profile_menu_open = !ui.profile_menu_open;
            none()
        },
        HitTarget::StripScrollbar => {
            press_bar(ui, layout, at.0, at.1);
            none()
        },
        HitTarget::ProfileApply(name) => {
            ui.drag = Some(Drag::ProfileReorder(name));
            none()
        },
        HitTarget::PaletteInput => {
            click_field(ui, layout, Focus::Palette, event.caret, clicks);
            none()
        },
        HitTarget::ModalInput => {
            click_field(ui, layout, Focus::Modal, event.caret, clicks);
            none()
        },
        HitTarget::PaletteRow(i) => {
            assert(snap@.palette.rows.len() == snap.palette.rows@.len());
            if i < snap.palette.rows.len() {
                ui.focus = Focus::Body;
                two(Request::Command(i), Request::Send(Message::TogglePalette))
            } else {
                none()
            }
        },
        HitTarget::ModalConfirm => one(Request::Send(Message::ModalConfirm)),
        HitTarget::ModalCancel => one(Request::Send(Message::ModalDismiss)),
        HitTarget::Backdrop => {
            ui.focus = Focus::Body;
            if snap.modal.is_some() {
                one(Request::Send(Message::ModalDismiss))
            } else if snap.palette.open {
                one(Request::Send(Message::TogglePalette))
            } else {
                none()
            }
        },
        other => match button_message(&other) {
            Some(m) => one(Request::Send(m)),
            None => none(),
        },
    }
}

fn press(
    ui: &mut UiState,
    layout: &Layout,
    snap: &ViewSnapshot,
    event: PointerEvent,
    now_ms: u64,
) -> (asks: Vec<Request>)
    requires
        old(ui)@.wf(),
        layout@.wf(),
    ensures
        final(ui)@ == pressed(old(ui)@, layout@, snap@, event, now_ms).ui,
        requests(asks@) == pressed(old(ui)@, layout@, snap@, event, now_ms).asks,
        final(ui)@.wf(),
{
    let at = event.pixel();
    let target = hit_at(layout, at.0, at.1);
    ui.pressed = layout::clone_target(&target);
    let clicks: u32 = ui.click.press(now_ms, event.x, event.y);
    let asks = press_on(ui, layout, snap, event, target, clicks);
    ui.dirty.mark_full();
    asks
}

proof fn first_row_stands(rows: Seq<ProfileRowGeomModel>, x: int, y: int, m: int, n: int)
    requires
        m <= n,
        menu_row_at(rows, x, y, m) is Some,
    ensures
        menu_row_at(rows, x, y, n) == menu_row_at(rows, x, y, m),
    decreases n - m,
{
    if m < n {
        first_row_stands(rows, x, y, m, n - 1);
    }
}

fn find_menu_row(menu: &ProfileMenuGeom, x: i32, y: i32) -> (at: Option<usize>)
    ensures
        match at {
            Some(i) => i < menu.rows@.len() && menu_row_at(
                menu@.rows,
                x as int,
                y as int,
                menu@.rows.len() as int,
            ) == Some(i as int),
            None => menu_row_at(menu@.rows, x as int, y as int, menu@.rows.len() as int) is None,
        },
{
    let ghost rows = menu@.rows;
    let mut i: usize = 0;
    while i < menu.rows.len()
        invariant
            i <= menu.rows@.len() == rows.len(),
            rows == menu@.rows,
            menu_row_at(rows, x as int, y as int, i as int) is None,
        decreases menu.rows@.len() - i,
    {
        assert(rows[i as int] == menu.rows@[i as int]@);
        if menu.rows[i].rect.contains(x, y) {
            proof {
                first_row_stands(rows, x as int, y as int, i + 1, rows.len() as int);
            }
            return Some(i);
        }
        i = i + 1;
    }
    None
}

fn profile_drop(layout: &Layout, name: &str, x: i32, y: i32) -> (message: Option<Message>)
    requires
        layout@.wf(),
    ensures
        message_view(message) == dropped(layout@, name@, x as int, y as int),
{
    reveal(dropped);
    let menu = match &layout.profile_menu {
        Some(menu) => menu,
        None => {
            return None;
        },
    };
    assert(layout@.profile_menu == Some(menu@));
    let i: usize = match find_menu_row(menu, x, y) {
        Some(i) => i,
        None => {
            return None;
        },
    };
    let row = &menu.rows[i];
    assert(menu@.rows[i as int] == row@);
    assert(layout::within(menu@.rows[i as int].rect, 0x3000_0000));
    if same_text(row.name.as_str(), name) {
        return Some(Message::ApplyProfile(name.to_owned()));
    }
    Some(
        Message::ReorderProfile {
            name: name.to_owned(),
            target: row.name.clone(),
            before: y < row.rect.y + row.rect.h / 2,
        },
    )
}

/// The drag and the press over, and the menu closed where a profile was
/// dropped.
pub open spec fn let_go_of(ui: UiModel, message: Option<MessageView>) -> Outcome {
    let a = UiModel { drag: None, pressed: None, ..ui }.repaint();
    match message {
        Some(m) => Outcome {
            ui: UiModel { profile_menu_open: false, ..a },
            asks: seq![RequestView::Send(m)],
        },
        None => outcome(a),
    }
}

fn let_go(ui: &mut UiState, message: Option<Message>) -> (asks: Vec<Request>)
    ensures
        final(ui)@ == let_go_of(old(ui)@, message_view(message)).ui,
        requests(asks@) == let_go_of(old(ui)@, message_view(message)).asks,
{
    ui.drag = None;
    ui.pressed = None;
    ui.dirty.mark_full();
    match message {
        Some(m) => {
            ui.profile_menu_open = false;
            one(Request::Send(m))
        },
        None => none(),
    }
}

/// The message a profile drag that ends here sends.
fn drop_message(ui: &UiState, layout: &Layout, x: i32, y: i32) -> (message: Option<Message>)
    requires
        layout@.wf(),
    ensures
        message_view(message) == match ui@.drag {
            Some(DragView::ProfileReorder(name)) => dropped(layout@, name, x as int, y as int),
            _ => None,
        },
{
    match &ui.drag {
        Some(Drag::ProfileReorder(name)) => profile_drop(layout, name.as_str(), x, y),
        _ => None,
    }
}

fn release(ui: &mut UiState, layout: &Layout, x: i32, y: i32) -> (asks: Vec<Request>)
    requires
        old(ui)@.wf(),
        layout@.wf(),
    ensures
        final(ui)@ == released(old(ui)@, layout@, x as int, y as int).ui,
        requests(asks@) == released(old(ui)@, layout@, x as int, y as int).asks,
        final(ui)@.wf(),
{
    let message = drop_message(ui, layout, x, y);
    let_go(ui, message)
}

/// The whole steps in what is left over and what came, and what stays over.
fn stepped(kept: i32, dx: i32, dy: i32, size: i64) -> (out: (i64, i32))
    requires
        0 < size <= 0x1_0000,
    ensures
        out.0 == ui::steps(kept + dx + dy, size as int),
        out.1 == kept + dx + dy - out.0 * size,
        -0x2_0000_0000 <= out.0 <= 0x2_0000_0000,
{
    let total: i64 = kept as i64 + dx as i64 + dy as i64;
    let n: i64 = steps_in(total, size);
    proof {
        let v = if total < 0 {
            -(total as int)
        } else {
            total as int
        };
        vstd::arithmetic::div_mod::lemma_fundamental_div_mod(v, size as int);
        vstd::arithmetic::div_mod::lemma_div_is_ordered_by_denominator(v, 1, size as int);
        assert(v / 1 == v);
        let q = v / (size as int);
        assert(size * q == q * size) by (nonlinear_arith);
        assert(size * (-q) == -(q * size)) by (nonlinear_arith);
        assert((-q) * size == -(q * size)) by (nonlinear_arith);
    }
    let rest: i64 = total - n * size;
    (n, rest as i32)
}

fn scroll(ui: &mut UiState, layout: &Layout, snap: &ViewSnapshot, dx: i32, dy: i32) -> (asks: Vec<
    Request,
>)
    requires
        old(ui)@.wf(),
        layout@.wf(),
        palette_agrees(layout@, snap@),
    ensures
        final(ui)@ == scrolled(old(ui)@, layout@, snap@, dx + dy).ui,
        requests(asks@) == scrolled(old(ui)@, layout@, snap@, dx + dy).asks,
        final(ui)@.wf(),
{
    match &layout.palette {
        Some(palette) => {
            assert(layout@.palette == Some(palette@));
            assert(snap@.palette.rows.len() == snap.palette.rows@.len());
            let (rows, rest): (i64, i32) = stepped(
                ui.palette_wheel,
                dx,
                dy,
                PALETTE_ROW_H as i64 * SUBPIXELS as i64,
            );
            ui.palette_wheel = rest;
            let last: i64 = (snap.palette.rows.len() - palette.rows.len()) as i64;
            let at: i64 = palette.first_visible as i64 + rows;
            let next: i64 = if at < 0 {
                0
            } else if at > last {
                last
            } else {
                at
            };
            if next as usize != palette.first_visible {
                return one(Request::Send(Message::PaletteScrollTo(next as usize)));
            }
        },
        None => {
            let (pixels, rest): (i64, i32) = stepped(ui.scroll_residual, dx, dy, SUBPIXELS as i64);
            ui.scroll_residual = rest;
            let at: i64 = ui.scroll_x as i64 + pixels;
            let next: i32 = if at < 0 {
                0
            } else if at > layout.scroll_max_x as i64 {
                layout.scroll_max_x
            } else {
                at as i32
            };
            if next != ui.scroll_x {
                ui.scroll_x = next;
                ui.dirty.mark_full();
            }
        },
    }
    none()
}

/// Handle a pointer event: update transient state and say what it asks for.
/// `now_ms` stamps clicks for multi-click detection.
pub fn on_pointer(
    ui: &mut UiState,
    layout: &Layout,
    snap: &ViewSnapshot,
    event: PointerEvent,
    now_ms: u64,
) -> (asks: Vec<Request>)
    requires
        old(ui)@.wf(),
        layout@.wf(),
        palette_agrees(layout@, snap@),
    ensures
        final(ui)@ == pointed(old(ui)@, layout@, snap@, event, now_ms).ui,
        requests(asks@) == pointed(old(ui)@, layout@, snap@, event, now_ms).asks,
        final(ui)@.wf(),
{
    ui.pointer = (event.x, event.y);
    let at = event.pixel();
    match event.action {
        PointerAction::Motion => {
            hover_over(ui, layout, at.0, at.1);
            drag_on(ui, layout, event)
        },
        PointerAction::Press(button) => match button {
            MouseButton::Left => press(ui, layout, snap, event, now_ms),
            _ => none(),
        },
        PointerAction::Release(_) => release(ui, layout, at.0, at.1),
        PointerAction::Scroll { dx, dy } => scroll(ui, layout, snap, dx, dy),
    }
}

// --- The keyboard -----------------------------------------------------------------------------------

/// The row the pointer is over (for the bare-m mute shortcut).
pub open spec fn row_under(hover: Option<HitTargetView>) -> Option<RowIdView> {
    match hover {
        Some(HitTargetView::RowSlider(row)) => Some(row),
        Some(HitTargetView::RowMute(row)) => Some(row),
        Some(HitTargetView::AppExpand(row)) => Some(row),
        _ => None,
    }
}

/// A key with the mixer body focused: Ctrl+K opens the palette, a bare m mutes
/// the row under the pointer.
pub open spec fn body_keyed(ui: UiModel, event: KeyEvent) -> Outcome {
    if (event.key == Key::Char('k') || event.key == Key::Char('K')) && event.mods.only_ctrl() {
        Outcome {
            ui: UiModel { focus: Focus::Palette, editor: EditorView::blank(), ..ui },
            asks: seq![RequestView::Send(MessageView::TogglePalette)],
        }
    } else if (event.key == Key::Char('m') || event.key == Key::Char('M'))
        && event.mods.bare() {
        match row_under(ui.hover) {
            Some(row) => Outcome { ui, asks: seq![RequestView::Send(mute_message(row))] },
            None => outcome(ui),
        }
    } else {
        outcome(ui)
    }
}

/// An editing key applied to a field.
pub open spec fn edit(e: EditorView, event: KeyEvent) -> EditorView {
    let shift = event.mods.shift;
    match event.key {
        Key::Char(c) => if (c == 'a' || c == 'A') && event.mods.only_ctrl() {
            e.all_selected()
        } else if !event.mods.ctrl && !event.mods.alt {
            e.typed(c)
        } else {
            e
        },
        Key::Backspace => e.backspaced(),
        Key::Delete => e.deleted(),
        Key::Left => e.gone_left(shift),
        Key::Right => e.gone_right(shift),
        Key::Home => e.gone_to(0, shift),
        Key::End => e.gone_to(e.text.len() as int, shift),
        _ => e,
    }
}

/// An editing key applied to a field, and whether its text changed.
pub open spec fn edited(e: EditorView, event: KeyEvent) -> (EditorView, bool) {
    (edit(e, event), edit(e, event).text != e.text)
}

/// A key with a field focused that neither closes nor moves its overlay.
pub open spec fn typed_in(ui: UiModel, event: KeyEvent) -> Outcome {
    let (editor, changed) = edited(ui.editor, event);
    let a = UiModel { editor, ..ui };
    Outcome {
        ui: a,
        asks: match text_message(a) {
            Some(m) => if changed {
                seq![RequestView::Send(m)]
            } else {
                Seq::empty()
            },
            None => Seq::empty(),
        },
    }
}

/// A key with the palette focused.
pub open spec fn palette_keyed(ui: UiModel, snap: SnapshotModel, event: KeyEvent) -> Outcome {
    let rows = snap.palette.rows.len() as usize;
    match event.key {
        Key::Escape => Outcome {
            ui: UiModel { focus: Focus::Body, ..ui },
            asks: seq![RequestView::Send(MessageView::TogglePalette)],
        },
        Key::Enter => Outcome {
            ui: UiModel { focus: Focus::Body, ..ui },
            asks: if snap.palette.selected < rows {
                seq![
                    RequestView::Command(snap.palette.selected),
                    RequestView::Send(MessageView::TogglePalette),
                ]
            } else {
                seq![RequestView::Send(MessageView::TogglePalette)]
            },
        },
        Key::Up => Outcome {
            ui,
            asks: seq![RequestView::Send(MessageView::PaletteSelectPrev { rows })],
        },
        Key::Down => Outcome {
            ui,
            asks: seq![RequestView::Send(MessageView::PaletteSelectNext { rows })],
        },
        _ => typed_in(ui, event),
    }
}

/// A key with a modal focused.
pub open spec fn modal_keyed(ui: UiModel, event: KeyEvent) -> Outcome {
    match event.key {
        Key::Escape => Outcome {
            ui: UiModel { focus: Focus::Body, ..ui },
            asks: seq![RequestView::Send(MessageView::ModalDismiss)],
        },
        Key::Enter => Outcome { ui, asks: seq![RequestView::Send(MessageView::ModalConfirm)] },
        _ => typed_in(ui, event),
    }
}

/// What a key event leaves and asks for.
pub open spec fn keyed(ui: UiModel, snap: SnapshotModel, event: KeyEvent) -> Outcome {
    let out = match ui.focus {
        Focus::Palette => palette_keyed(ui, snap, event),
        Focus::Modal => modal_keyed(ui, event),
        Focus::Body => body_keyed(ui, event),
    };
    Outcome { ui: out.ui.repaint(), asks: out.asks }
}

fn hovered_row(ui: &UiState) -> (row: Option<RowId>)
    ensures
        layout::row_view(row) == row_under(ui@.hover),
{
    match &ui.hover {
        Some(HitTarget::RowSlider(row)) => Some(row.clone()),
        Some(HitTarget::RowMute(row)) => Some(row.clone()),
        Some(HitTarget::AppExpand(row)) => Some(row.clone()),
        _ => None,
    }
}

fn body_key(ui: &mut UiState, event: KeyEvent) -> (asks: Vec<Request>)
    requires
        old(ui)@.wf(),
    ensures
        final(ui)@ == body_keyed(old(ui)@, event).ui,
        requests(asks@) == body_keyed(old(ui)@, event).asks,
        final(ui)@.wf(),
{
    if (event.key == Key::Char('k') || event.key == Key::Char('K')) && event.mods.is_ctrl() {
        ui.focus = Focus::Palette;
        ui.editor.clear();
        return one(Request::Send(Message::TogglePalette));
    }
    if (event.key == Key::Char('m') || event.key == Key::Char('M')) && event.mods.is_none() {
        if let Some(row) = hovered_row(ui) {
            return one(Request::Send(mute_for(&row)));
        }
    }
    none()
}

/// Apply an editing key to the editor. Returns whether the text changed, so the
/// caller mirrors it into state; cursor-only moves return false.
pub fn edit_key(editor: &mut Editor, event: KeyEvent) -> (changed: bool)
    requires
        old(editor)@.wf(),
    ensures
        final(editor)@ == edited(old(editor)@, event).0,
        changed == (final(editor)@.text != old(editor)@.text),
        final(editor)@.wf(),
{
    let before: String = editor.text().to_owned();
    let shift = event.mods.shift;
    match event.key {
        Key::Char(c) => {
            if (c == 'a' || c == 'A') && event.mods.is_ctrl() {
                editor.select_all();
            } else if !event.mods.ctrl && !event.mods.alt {
                editor.insert(c);
            }
        },
        Key::Backspace => editor.backspace(),
        Key::Delete => editor.delete(),
        Key::Left => editor.left(shift),
        Key::Right => editor.right(shift),
        Key::Home => editor.home(shift),
        Key::End => editor.end(shift),
        _ => {},
    }
    !same_text(before.as_str(), editor.text())
}

fn type_in(ui: &mut UiState, event: KeyEvent) -> (asks: Vec<Request>)
    requires
        old(ui)@.wf(),
    ensures
        final(ui)@ == typed_in(old(ui)@, event).ui,
        requests(asks@) == typed_in(old(ui)@, event).asks,
        final(ui)@.wf(),
{
    if edit_key(&mut ui.editor, event) {
        match editor_text_message(ui) {
            Some(m) => one(Request::Send(m)),
            None => none(),
        }
    } else {
        none()
    }
}

fn palette_key(ui: &mut UiState, snap: &ViewSnapshot, event: KeyEvent) -> (asks: Vec<Request>)
    requires
        old(ui)@.wf(),
    ensures
        final(ui)@ == palette_keyed(old(ui)@, snap@, event).ui,
        requests(asks@) == palette_keyed(old(ui)@, snap@, event).asks,
        final(ui)@.wf(),
{
    assert(snap@.palette.rows.len() == snap.palette.rows@.len());
    let rows: usize = snap.palette.rows.len();
    match event.key {
        Key::Escape => {
            ui.focus = Focus::Body;
            one(Request::Send(Message::TogglePalette))
        },
        Key::Enter => {
            ui.focus = Focus::Body;
            if snap.palette.selected < rows {
                two(
                    Request::Command(snap.palette.selected),
                    Request::Send(Message::TogglePalette),
                )
            } else {
                one(Request::Send(Message::TogglePalette))
            }
        },
        Key::Up => one(Request::Send(Message::PaletteSelectPrev { rows })),
        Key::Down => one(Request::Send(Message::PaletteSelectNext { rows })),
        _ => type_in(ui, event),
    }
}

fn modal_key(ui: &mut UiState, event: KeyEvent) -> (asks: Vec<Request>)
    requires
        old(ui)@.wf(),
    ensures
        final(ui)@ == modal_keyed(old(ui)@, event).ui,
        requests(asks@) == modal_keyed(old(ui)@, event).asks,
        final(ui)@.wf(),
{
    match event.key {
        Key::Escape => {
            ui.focus = Focus::Body;
            one(Request::Send(Message::ModalDismiss))
        },
        Key::Enter => one(Request::Send(Message::ModalConfirm)),
        _ => type_in(ui, event),
    }
}

/// Handle a key event: route to the focused overlay's editor or the body
/// shortcuts, and say what it asks for.
pub fn on_key(ui: &mut UiState, snap: &ViewSnapshot, event: KeyEvent) -> (asks: Vec<Request>)
    requires
        old(ui)@.wf(),
    ensures
        final(ui)@ == keyed(old(ui)@, snap@, event).ui,
        requests(asks@) == keyed(old(ui)@, snap@, event).asks,
        final(ui)@.wf(),
{
    let asks = match ui.focus {
        Focus::Palette => palette_key(ui, snap, event),
        Focus::Modal => modal_key(ui, event),
        Focus::Body => body_key(ui, event),
    };
    ui.dirty.mark_full();
    asks
}

} // verus!
