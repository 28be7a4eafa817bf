//! What pressing a button comes to, from the pointer to the streams.

use crate::domain::{Section, StreamKind, StreamView, MAX_VOLUME};
use crate::gesture_laws;
use crate::ordered;
use crate::profile_laws;
use crate::render::primitives::Rect;
use crate::server_laws;
use crate::state;
use crate::state::{Message, MessageView, ModalState, Work};
use crate::state_laws;
use crate::ui::input;
use crate::ui::input::{
    Key, KeyEvent, MouseButton, Outcome, PointerAction, PointerEvent, RequestView, WindowAction,
};
use crate::ui::layout;
use crate::ui::layout::{ColumnModel, HitTargetView, LayoutModel, RowIdView};
use crate::ui::{DragView, Focus, UiModel};
use crate::view::snapshot::SnapshotModel;
use vstd::prelude::*;

verus! {

/// Whether a press of the left button lands on a target: a rectangle of the target's
/// is under the pointer, and none laid over it is.
pub open spec fn lands_on(layout: LayoutModel, event: PointerEvent, target: HitTargetView, k: int) -> bool {
    &&& event.action == PointerAction::Press(MouseButton::Left)
    &&& 0 <= k < layout.hits.len()
    &&& layout.hits[k].target == target
    &&& layout.hits[k].rect.covers(event.across(), event.down())
    &&& forall|j: int|
        k < j < layout.hits.len() ==> !(#[trigger] layout.hits[j]).rect.covers(
            event.across(),
            event.down(),
        )
}

proof fn landing_is_found(layout: LayoutModel, event: PointerEvent, target: HitTargetView, k: int, n: int)
    requires
        lands_on(layout, event, target, k),
        k < n <= layout.hits.len(),
    ensures
        layout::topmost(layout.hits, event.across(), event.down(), n) == Some(target),
    decreases n,
{
    if n - 1 > k {
        assert(!layout.hits[n - 1].rect.covers(event.across(), event.down()));
        landing_is_found(layout, event, target, k, n - 1);
    }
}

/// Whether an event asks for one message and no more, and `message` is it.
pub open spec fn asks_for(out: Outcome, message: Message) -> bool {
    out.asks == seq![RequestView::Send(message@)]
}

/// Whether an event asks for one message and no more.
pub open spec fn asks_once(out: Outcome) -> bool {
    out.asks.len() == 1 && out.asks[0] is Send
}

/// Whether a stream is one a row stands for.
pub open spec fn stands_for(w: Work, row: RowIdView, id: u32) -> bool {
    match row {
        RowIdView::Sink(own) => id == own,
        RowIdView::Source(own) => id == own,
        RowIdView::AppMember(own) => id == own,
        RowIdView::AppGroup(key) => gesture_laws::in_row(
            ordered::lookup(w.state.streams, id),
            key,
        ),
    }
}

/// Picking an output in a row's column asks for one message, and that leaves every
/// stream the row stands for pinned to that output, and no other stream changed.
pub proof fn picking_an_output_sends_the_row_there(
    ui: UiModel,
    layout: LayoutModel,
    snap: SnapshotModel,
    event: PointerEvent,
    now_ms: u64,
    k: int,
    row: RowIdView,
    sink: u32,
    message: Message,
    w: Work,
    id: u32,
)
    requires
        lands_on(layout, event, HitTargetView::AppTarget { row, sink: Some(sink) }, k),
        row is AppGroup || row is AppMember,
        w.state.wf(),
        ordered::lookup(w.state.streams, sink) matches Some(s) && s.kind == StreamKind::Sink
            && s.node_name is Some,
    ensures
        asks_once(input::pointed(ui, layout, snap, event, now_ms)),
        asks_for(input::pointed(ui, layout, snap, event, now_ms), message) ==> ordered::lookup(
            state::step(w, message).state.streams,
            id,
        ) == gesture_laws::set_where(
            ordered::lookup(w.state.streams, id),
            stands_for(w, row, id),
            |s: StreamView|
                StreamView {
                    target_sink_name: ordered::lookup(w.state.streams, sink)->Some_0.node_name,
                    ..s
                },
        ),
{
    let target = HitTargetView::AppTarget { row, sink: Some(sink) };
    landing_is_found(layout, event, target, k, layout.hits.len() as int);
    let out = input::pointed(ui, layout, snap, event, now_ms);
    if asks_for(out, message) {
        assert(out.asks[0] == RequestView::Send(message@));
        match message {
            Message::GroupSetStreamTarget { key, sink_id } => {
                gesture_laws::a_row_goes_where_it_is_sent(w, key, sink_id, id);
            },
            Message::SetStreamTarget { app_id, sink_id } => {
                gesture_laws::a_stream_goes_where_it_is_sent(w, app_id, sink_id, id);
            },
            _ => {
                assert(false);
            },
        }
    }
}

/// Picking the button without an output leaves every stream the row stands for
/// unpinned, and no other stream changed.
pub proof fn picking_no_output_lets_the_row_go(
    ui: UiModel,
    layout: LayoutModel,
    snap: SnapshotModel,
    event: PointerEvent,
    now_ms: u64,
    k: int,
    row: RowIdView,
    message: Message,
    w: Work,
    id: u32,
)
    requires
        lands_on(layout, event, HitTargetView::AppTarget { row, sink: None }, k),
        row is AppGroup || row is AppMember,
        w.state.wf(),
    ensures
        asks_once(input::pointed(ui, layout, snap, event, now_ms)),
        asks_for(input::pointed(ui, layout, snap, event, now_ms), message) ==> ordered::lookup(
            state::step(w, message).state.streams,
            id,
        ) == gesture_laws::set_where(
            ordered::lookup(w.state.streams, id),
            stands_for(w, row, id),
            |s: StreamView| StreamView { target_sink_name: None, ..s },
        ),
{
    let target = HitTargetView::AppTarget { row, sink: None };
    landing_is_found(layout, event, target, k, layout.hits.len() as int);
    let out = input::pointed(ui, layout, snap, event, now_ms);
    if asks_for(out, message) {
        assert(out.asks[0] == RequestView::Send(message@));
        match message {
            Message::GroupClearStreamTarget(key) => {
                gesture_laws::a_row_let_go_follows_the_default(w, key, id);
            },
            Message::ClearStreamTarget(app_id) => {
                gesture_laws::a_stream_let_go_follows_the_default(w, app_id, id);
            },
            _ => {
                assert(false);
            },
        }
    }
}

/// What a row's mute does: a stream's own is turned over; a row of several ends up
/// muted as one where one of them was not muted, and unmuted as one otherwise. No
/// other stream changes.
pub open spec fn mutes_the_row(w: Work, after: Work, row: RowIdView, id: u32) -> bool {
    let before = ordered::lookup(w.state.streams, id);
    let now = ordered::lookup(after.state.streams, id);
    if !stands_for(w, row, id) || before is None {
        now == before
    } else {
        let muted = if row is AppGroup {
            exists|other: u32|
                stands_for(w, row, other) && !(#[trigger] ordered::lookup(
                    w.state.streams,
                    other,
                )->Some_0.muted)
        } else {
            !before->Some_0.muted
        };
        now == Some(StreamView { muted, ..before->Some_0 })
    }
}

proof fn row_mute_mutes_the_row(row: RowIdView, message: Message, w: Work, id: u32)
    requires
        w.state.wf(),
        message@ == input::mute_message(row),
    ensures
        mutes_the_row(w, state::step(w, message), row, id),
{
    match message {
        Message::GroupMuteToggled(key) => {
            let before = ordered::lookup(w.state.streams, id);
            if stands_for(w, row, id) {
                gesture_laws::a_row_mutes_as_one(w, key, id, id);
                if exists|other: u32|
                    stands_for(w, row, other) && !(#[trigger] ordered::lookup(
                        w.state.streams,
                        other,
                    )->Some_0.muted) {
                    let other = choose|other: u32|
                        stands_for(w, row, other) && !(#[trigger] ordered::lookup(
                            w.state.streams,
                            other,
                        )->Some_0.muted);
                    gesture_laws::a_row_mutes_as_one(w, key, id, other);
                } else {
                    assert forall|k: u32|
                        gesture_laws::in_row(
                            #[trigger] ordered::lookup(w.state.streams, k),
                            key@,
                        ) implies ordered::lookup(w.state.streams, k)->Some_0.muted by {
                        assert(stands_for(w, row, k));
                    }
                }
            } else {
                gesture_laws::a_row_mute_touches_no_other(w, key, id);
            }
        },
        Message::MuteToggled(at) => {
            gesture_laws::a_mute_turns_its_stream_over(w, at, id);
        },
        _ => {
            assert(false);
        },
    }
}

/// Pressing a row's mute button asks for one message, and that mutes the row.
pub proof fn a_mute_button_mutes_its_row(
    ui: UiModel,
    layout: LayoutModel,
    snap: SnapshotModel,
    event: PointerEvent,
    now_ms: u64,
    k: int,
    row: RowIdView,
    message: Message,
    w: Work,
    id: u32,
)
    requires
        lands_on(layout, event, HitTargetView::RowMute(row), k),
        w.state.wf(),
    ensures
        asks_once(input::pointed(ui, layout, snap, event, now_ms)),
        asks_for(input::pointed(ui, layout, snap, event, now_ms), message) ==> mutes_the_row(
            w,
            state::step(w, message),
            row,
            id,
        ),
{
    landing_is_found(layout, event, HitTargetView::RowMute(row), k, layout.hits.len() as int);
    let out = input::pointed(ui, layout, snap, event, now_ms);
    if asks_for(out, message) {
        assert(out.asks[0] == RequestView::Send(message@));
        row_mute_mutes_the_row(row, message, w, id);
    }
}

/// A bare m mutes the row the pointer is over, wherever in the row that is.
pub proof fn a_bare_m_mutes_the_row_pointed_at(
    ui: UiModel,
    snap: SnapshotModel,
    event: KeyEvent,
    row: RowIdView,
    message: Message,
    w: Work,
    id: u32,
)
    requires
        ui.focus == Focus::Body,
        event.key == Key::Char('m') || event.key == Key::Char('M'),
        event.mods.bare(),
        ui.hover == Some(HitTargetView::RowSlider(row)) || ui.hover == Some(
            HitTargetView::RowMute(row),
        ) || ui.hover == Some(HitTargetView::AppExpand(row)),
        w.state.wf(),
    ensures
        asks_once(input::keyed(ui, snap, event)),
        asks_for(input::keyed(ui, snap, event), message) ==> mutes_the_row(
            w,
            state::step(w, message),
            row,
            id,
        ),
{
    let out = input::keyed(ui, snap, event);
    if asks_for(out, message) {
        assert(out.asks[0] == RequestView::Send(message@));
        row_mute_mutes_the_row(row, message, w, id);
    }
}

/// Pressing a device's default button asks for one message, and that asks the server
/// to make that device the default of its direction, and for nothing else, unless it
/// is the default already.
pub proof fn a_default_button_makes_its_device_the_default(
    ui: UiModel,
    layout: LayoutModel,
    snap: SnapshotModel,
    event: PointerEvent,
    now_ms: u64,
    k: int,
    row: RowIdView,
    own: u32,
    message: Message,
    w: Work,
)
    requires
        lands_on(layout, event, HitTargetView::DeviceDefault(row), k),
        row == RowIdView::Sink(own) || row == RowIdView::Source(own),
        w.state.wf(),
        w.connected,
        w.commands.len() == 0,
        ordered::lookup(w.state.streams, own) matches Some(s) && s.node_name is Some && s.kind
            == if row is Sink {
            StreamKind::Sink
        } else {
            StreamKind::Source
        },
    ensures
        asks_once(input::pointed(ui, layout, snap, event, now_ms)),
        asks_for(input::pointed(ui, layout, snap, event, now_ms), message) ==> ({
            let s = ordered::lookup(w.state.streams, own)->Some_0;
            let after = state::step(w, message);
            &&& after.state.streams == w.state.streams
            &&& s.is_default ==> after == w
            &&& !s.is_default ==> after.commands.len() == 1
            &&& !s.is_default && row is Sink ==> server_laws::asked_output(after.commands)
                == s.node_name
            &&& !s.is_default && row is Source ==> server_laws::asked_input(after.commands)
                == s.node_name
        }),
{
    let target = HitTargetView::DeviceDefault(row);
    landing_is_found(layout, event, target, k, layout.hits.len() as int);
    let out = input::pointed(ui, layout, snap, event, now_ms);
    if asks_for(out, message) {
        assert(out.asks[0] == RequestView::Send(message@));
        assert(message@ == if row is Sink {
            MessageView::MakeDefault(own)
        } else {
            MessageView::MakeDefaultSource(own)
        });
    }
}

proof fn first_column(columns: Seq<ColumnModel>, row: RowIdView, c: int, n: int)
    requires
        0 <= c < n <= columns.len(),
        columns[c].id == row,
        forall|j: int| 0 <= j < c ==> (#[trigger] columns[j]).id != row,
    ensures
        input::column_of(columns, row, n) == Some(c),
    decreases n,
{
    if c < n - 1 {
        first_column(columns, row, c, n - 1);
    } else {
        no_column(columns, row, n - 1);
    }
}

proof fn no_column(columns: Seq<ColumnModel>, row: RowIdView, n: int)
    requires
        0 <= n <= columns.len(),
        forall|j: int| 0 <= j < n ==> (#[trigger] columns[j]).id != row,
    ensures
        input::column_of(columns, row, n) is None,
    decreases n,
{
    if n > 0 {
        no_column(columns, row, n - 1);
    }
}

/// Pressing a fader, and dragging it on, asks for its own row's gain at the height of
/// the pointer on its own track: the loudest from the top of the track up, nothing from
/// its bottom down.
pub proof fn a_fader_goes_where_it_is_dragged(
    ui: UiModel,
    layout: LayoutModel,
    snap: SnapshotModel,
    press: PointerEvent,
    drag: PointerEvent,
    now_ms: u64,
    k: int,
    row: RowIdView,
    c: int,
)
    requires
        lands_on(layout, press, HitTargetView::RowSlider(row), k),
        drag.action is Motion,
        0 <= c < layout.columns.len(),
        layout.columns[c].id == row,
        forall|j: int| 0 <= j < c ==> (#[trigger] layout.columns[j]).id != row,
        layout.columns[c].slider.track.h >= 1,
    ensures
        ({
            let track = layout.columns[c].slider.track;
            let first = input::pointed(ui, layout, snap, press, now_ms);
            let second = input::pointed(first.ui, layout, snap, drag, now_ms);
            &&& first.ui.drag == Some(DragView::Slider(row))
            &&& asks_volume(first, row, track, press.down())
            &&& second.ui.drag == Some(DragView::Slider(row))
            &&& asks_volume(second, row, track, drag.down())
        }),
{
    reveal(input::volume_at);
    landing_is_found(layout, press, HitTargetView::RowSlider(row), k, layout.hits.len() as int);
    first_column(layout.columns, row, c, layout.columns.len() as int);
}

/// Whether an event asks for a row's gain and no more: the loudest where the pointer is
/// at the top of the track or over it, nothing where it is at its bottom or under it.
pub open spec fn asks_volume(out: Outcome, row: RowIdView, track: Rect, y: int) -> bool {
    &&& out.asks.len() == 1
    &&& out.asks[0] matches RequestView::Volume { row: of, cubic }
    &&& of == row
    &&& cubic == layout::gain_for_y(track, y)
    &&& y <= track.y ==> cubic.bits == MAX_VOLUME
    &&& y >= track.y + track.h ==> cubic.bits == 0
}

/// Pressing the cross closes the window, the other two buttons do what they stand for,
/// and the bar under them moves it.
pub proof fn the_titlebar_moves_and_closes(window: Rect)
    ensures
        ({
            let bar = layout::titlebar_model(window);
            let hits = layout::titlebar_hits(window);
            &&& hits.len() == 4
            &&& hits[0].rect == bar.bar && input::asked_of_window(hits[0].target) == Some(
                WindowAction::Move,
            )
            &&& hits[1].rect == bar.minimize && input::asked_of_window(hits[1].target) == Some(
                WindowAction::Minimize,
            )
            &&& hits[2].rect == bar.maximize && input::asked_of_window(hits[2].target) == Some(
                WindowAction::ToggleMaximize,
            )
            &&& hits[3].rect == bar.close && input::asked_of_window(hits[3].target) == Some(
                WindowAction::Close,
            )
        }),
{
}

/// The rim of a window resizes it by the edge that is grabbed: whatever grabs a corner
/// lies at that corner.
pub proof fn the_rim_resizes_by_the_edge_grabbed(window: Rect, i: int)
    requires
        layout::within(window, 0x100_0000),
        0 <= i < layout::edge_hits(window).len(),
    ensures
        ({
            let hit = layout::edge_hits(window)[i];
            let r = hit.rect;
            &&& input::asked_of_window(hit.target) matches Some(WindowAction::Resize(edge))
            &&& edge is Left || edge is TopLeft || edge is BottomLeft ==> r.x == window.x
            &&& edge is Top || edge is TopLeft || edge is TopRight ==> r.y == window.y
            &&& edge is Right || edge is TopRight || edge is BottomRight ==> r.x + r.w == window.x
                + window.w
            &&& edge is Bottom || edge is BottomLeft || edge is BottomRight ==> r.y + r.h
                == window.y + window.h
            &&& edge is Left || edge is Right ==> r.h == window.h
            &&& edge is Top || edge is Bottom ==> r.w == window.w
        }),
{
}

/// The toolbar's buttons: a section's turns that section over and no other, the mute
/// one sets every output alike, and the reset one leaves no application pinned.
pub proof fn the_toolbar_does_what_it_says(
    ui: UiModel,
    layout: LayoutModel,
    snap: SnapshotModel,
    event: PointerEvent,
    now_ms: u64,
    k: int,
    target: HitTargetView,
    message: Message,
    w: Work,
    i: int,
    other: Section,
)
    requires
        lands_on(layout, event, target, k),
        target is SectionFilter || target is MuteAll || target is ResetTargets,
        w.state.wf(),
        0 <= i < w.state.streams.len(),
    ensures
        asks_once(input::pointed(ui, layout, snap, event, now_ms)),
        asks_for(input::pointed(ui, layout, snap, event, now_ms), message) ==> ({
            let after = state::step(w, message);
            let (id, s) = w.state.streams[i];
            let now = ordered::lookup(after.state.streams, id);
            &&& target matches HitTargetView::SectionFilter(section) ==> {
                &&& after.state.streams == w.state.streams
                &&& after.state.section_filter.showing(other)
                    == if other == section {
                    !w.state.section_filter.showing(other)
                } else {
                    w.state.section_filter.showing(other)
                }
            }
            &&& target is MuteAll ==> now == Some(
                if s.kind == StreamKind::Sink {
                    StreamView {
                        muted: exists|j: int|
                            0 <= j < w.state.streams.len() && (
                            #[trigger] w.state.streams[j]).1.kind == StreamKind::Sink
                                && !w.state.streams[j].1.muted,
                        ..s
                    }
                } else {
                    s
                },
            )
            &&& target is ResetTargets ==> now == Some(
                if s.kind == StreamKind::Application {
                    StreamView { target_sink_name: None, ..s }
                } else {
                    s
                },
            )
        }),
{
    landing_is_found(layout, event, target, k, layout.hits.len() as int);
    let out = input::pointed(ui, layout, snap, event, now_ms);
    if asks_for(out, message) {
        assert(out.asks[0] == RequestView::Send(message@));
        match message {
            Message::ToggleSection(section) => {
                crate::domain::section_toggle_undoes_itself(
                    w.state.section_filter,
                    section,
                    other,
                );
            },
            Message::MuteAllToggled => {
                state_laws::global_mute_reaches_every_output(w, i);
            },
            Message::ResetAllStreamTargets => {
                gesture_laws::a_reset_unpins_every_app(w, i);
            },
            _ => {
                assert(false);
            },
        }
    }
}

/// The expander of a row of several turns the row's expansion over, and the button for
/// a new profile asks for its name.
pub proof fn expanders_expand_and_create_asks_for_a_name(
    ui: UiModel,
    layout: LayoutModel,
    snap: SnapshotModel,
    event: PointerEvent,
    now_ms: u64,
    k: int,
    target: HitTargetView,
    message: Message,
    w: Work,
)
    requires
        lands_on(layout, event, target, k),
        target is ProfileCreate || (target matches HitTargetView::AppExpand(row) && row is AppGroup),
    ensures
        asks_once(input::pointed(ui, layout, snap, event, now_ms)),
        asks_for(input::pointed(ui, layout, snap, event, now_ms), message) ==> ({
            let after = state::step(w, message).state;
            &&& target is ProfileCreate ==> after.modal == Some(
                ModalState::CreateProfile { name: Seq::empty(), error: None },
            )
            &&& target matches HitTargetView::AppExpand(RowIdView::AppGroup(key)) ==> {
                &&& state::members(w.state.streams, key).len() > 1 ==> (
                after.expanded_groups.contains(key) != w.state.expanded_groups.contains(key))
                &&& state::members(w.state.streams, key).len() <= 1
                    ==> !after.expanded_groups.contains(key)
                &&& forall|other: Seq<char>|
                    other != key ==> (#[trigger] after.expanded_groups.contains(other)
                        == w.state.expanded_groups.contains(other))
            }
        }),
{
    landing_is_found(layout, event, target, k, layout.hits.len() as int);
    let out = input::pointed(ui, layout, snap, event, now_ms);
    if asks_for(out, message) {
        assert(out.asks[0] == RequestView::Send(message@));
    }
}

// --- Overlays -----------------------------------------------------------------------------

/// Clicking is as good as a key: the palette's selected row as Enter, a modal's buttons
/// as Enter and Escape, and the dimmed window around either as Escape.
pub proof fn a_click_is_as_good_as_a_key(
    ui: UiModel,
    layout: LayoutModel,
    snap: SnapshotModel,
    event: PointerEvent,
    key: KeyEvent,
    now_ms: u64,
    k: int,
    target: HitTargetView,
)
    requires
        lands_on(layout, event, target, k),
    ensures
        ({
            let clicked = input::pointed(ui, layout, snap, event, now_ms).asks;
            let keyed = input::keyed(ui, snap, key).asks;
            &&& target == HitTargetView::PaletteRow(snap.palette.selected) && ui.focus
                == Focus::Palette && key.key == Key::Enter && snap.palette.selected
                < snap.palette.rows.len() <= usize::MAX ==> clicked == keyed
            &&& target is ModalConfirm && ui.focus == Focus::Modal && key.key == Key::Enter
                ==> clicked == keyed
            &&& target is ModalCancel && ui.focus == Focus::Modal && key.key == Key::Escape
                ==> clicked == keyed
            &&& target is Backdrop && snap.modal is Some && ui.focus == Focus::Modal && key.key
                == Key::Escape ==> clicked == keyed
            &&& target is Backdrop && snap.modal is None && snap.palette.open && ui.focus
                == Focus::Palette && key.key == Key::Escape ==> clicked == keyed
        }),
{
    landing_is_found(layout, event, target, k, layout.hits.len() as int);
}

/// Enter in the palette runs the command that is lit and closes the palette; Escape
/// closes it and runs nothing.
pub proof fn enter_runs_what_is_lit(
    ui: UiModel,
    snap: SnapshotModel,
    key: KeyEvent,
    message: Message,
    w: Work,
)
    requires
        ui.focus == Focus::Palette,
        snap.palette.selected < snap.palette.rows.len() <= usize::MAX,
        key.key == Key::Enter || key.key == Key::Escape,
        w.state.palette_open,
    ensures
        ({
            let asks = input::keyed(ui, snap, key).asks;
            &&& asks.len() > 0 && asks.last() is Send
            &&& asks.last() == RequestView::Send(message@) ==> !state::step(
                w,
                message,
            ).state.palette_open
            &&& key.key == Key::Enter ==> asks.len() == 2 && asks[0] == RequestView::Command(
                snap.palette.selected,
            )
            &&& key.key == Key::Escape ==> asks.len() == 1
        }),
{
}

/// Up and down in the palette light the row above and the row below, without running it.
pub proof fn arrows_move_the_light(
    ui: UiModel,
    snap: SnapshotModel,
    key: KeyEvent,
    message: Message,
    w: Work,
)
    requires
        ui.focus == Focus::Palette,
        key.key == Key::Up || key.key == Key::Down,
        0 < w.state.palette_selected,
        w.state.palette_selected + 1 < crate::command_palette::listed(
            snap.palette.rows.len() as int,
        ),
        snap.palette.rows.len() <= usize::MAX,
    ensures
        asks_once(input::keyed(ui, snap, key)),
        asks_for(input::keyed(ui, snap, key), message) ==> ({
            let after = state::step(w, message).state;
            &&& key.key == Key::Up ==> after.palette_selected == w.state.palette_selected - 1
            &&& key.key == Key::Down ==> after.palette_selected == w.state.palette_selected + 1
            &&& after.palette_open == w.state.palette_open
        }),
{
    let out = input::keyed(ui, snap, key);
    if asks_for(out, message) {
        assert(out.asks[0] == RequestView::Send(message@));
    }
}

/// Escape in a modal closes it and changes no profile, and Ctrl+K in the mixer opens the
/// palette.
pub proof fn escape_closes_a_modal_and_ctrl_k_opens_the_palette(
    ui: UiModel,
    snap: SnapshotModel,
    key: KeyEvent,
    message: Message,
    w: Work,
)
    requires
        ui.focus == Focus::Modal && key.key == Key::Escape || ui.focus == Focus::Body && (key.key
            == Key::Char('k') || key.key == Key::Char('K')) && key.mods.only_ctrl()
            && w.state.modal is None && !w.state.palette_open,
    ensures
        asks_once(input::keyed(ui, snap, key)),
        asks_for(input::keyed(ui, snap, key), message) ==> ({
            let after = state::step(w, message).state;
            &&& after.profiles == w.state.profiles
            &&& after.modal is None
            &&& ui.focus == Focus::Body ==> after.palette_open && input::keyed(
                ui,
                snap,
                key,
            ).ui.focus == Focus::Palette
        }),
{
    let out = input::keyed(ui, snap, key);
    if asks_for(out, message) {
        assert(out.asks[0] == RequestView::Send(message@));
    }
}

/// A profile dragged onto another's row in the menu is put right before it where it is
/// let go on the upper half of the row, and right behind it on the lower.
pub proof fn a_profile_goes_where_it_is_dropped(
    ui: UiModel,
    layout: LayoutModel,
    snap: SnapshotModel,
    release: PointerEvent,
    now_ms: u64,
    name: Seq<char>,
    r: int,
    message: Message,
    w: Work,
    i: int,
    j: int,
)
    requires
        ui.drag == Some(DragView::ProfileReorder(name)),
        release.action is Release,
        layout.profile_menu is Some,
        0 <= r < layout.profile_menu->Some_0.rows.len(),
        input::menu_row_at(
            layout.profile_menu->Some_0.rows,
            release.across(),
            release.down(),
            layout.profile_menu->Some_0.rows.len() as int,
        ) == Some(r),
        profile_laws::profile_stands(w.state, name, i),
        profile_laws::profile_stands(w.state, layout.profile_menu->Some_0.rows[r].name, j),
        i != j,
    ensures
        asks_once(input::pointed(ui, layout, snap, release, now_ms)),
        asks_for(input::pointed(ui, layout, snap, release, now_ms), message) ==> ({
            let all = w.state.profiles.profiles;
            let now = state::step(w, message).state.profiles.profiles;
            let rect = layout.profile_menu->Some_0.rows[r].rect;
            let upper = release.down() < rect.y + rect.h / 2;
            &&& now.len() == all.len()
            &&& exists|p: int|
                0 <= p < now.len() && #[trigger] now.remove(p) == all.remove(i) && now[p] == all[i]
                    && (if upper {
                    p + 1 < now.len() && now[p + 1] == all[j]
                } else {
                    p > 0 && now[p - 1] == all[j]
                })
        }),
{
    reveal(input::dropped);
    let out = input::pointed(ui, layout, snap, release, now_ms);
    if asks_for(out, message) {
        assert(out.asks[0] == RequestView::Send(message@));
        match message {
            Message::ReorderProfile { name: own, target, before } => {
                profile_laws::a_dropped_profile_stands_where_it_was_dropped(
                    w,
                    own,
                    target,
                    before,
                    i,
                    j,
                );
            },
            _ => {
                assert(false);
            },
        }
    }
}

} // verus!
