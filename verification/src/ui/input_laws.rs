//! What holds of every event, whatever it lands on.

use crate::state::MessageView;
use crate::ui;
use crate::ui::editor::EditorView;
use crate::ui::input;
use crate::ui::input::{
    Key, KeyEvent, MouseButton, PointerAction, PointerEvent, RequestView,
};
use crate::ui::layout::{HitTargetView, LayoutModel, ProfileRowGeomModel};
use crate::ui::metrics::PALETTE_ROW_H;
use crate::ui::{DragView, Focus, UiModel, SUBPIXELS};
use crate::view::snapshot::SnapshotModel;
use vstd::prelude::*;

verus! {

/// Letting a button go ends every drag and every press.
pub proof fn a_release_ends_every_drag(
    ui: UiModel,
    layout: LayoutModel,
    snap: SnapshotModel,
    event: PointerEvent,
    now_ms: u64,
)
    requires
        event.action is Release,
    ensures
        input::pointed(ui, layout, snap, event, now_ms).ui.drag is None,
        input::pointed(ui, layout, snap, event, now_ms).ui.pressed is None,
{
}

/// A drag goes on until then: moving the pointer, wherever it goes, and turning
/// the wheel leave it as it is.
pub proof fn a_drag_goes_on_until_release(
    ui: UiModel,
    layout: LayoutModel,
    snap: SnapshotModel,
    event: PointerEvent,
    now_ms: u64,
)
    requires
        event.action is Motion || event.action is Scroll,
    ensures
        input::pointed(ui, layout, snap, event, now_ms).ui.drag == ui.drag,
{
}

/// Moving the pointer asks for nothing but the volume of the row whose fader is
/// being dragged, and never for more than one change of it.
pub proof fn motion_asks_only_for_the_dragged_volume(
    ui: UiModel,
    layout: LayoutModel,
    snap: SnapshotModel,
    event: PointerEvent,
    now_ms: u64,
)
    requires
        event.action is Motion,
    ensures
        ({
            let asks = input::pointed(ui, layout, snap, event, now_ms).asks;
            ||| asks.len() == 0
            ||| asks.len() == 1 && asks[0] is Volume && ui.drag == Some(
                DragView::Slider(asks[0]->row),
            )
        }),
{
    reveal(input::volume_at);
}

/// Only the left button presses anything: another one moves the pointer and does
/// no more.
pub proof fn other_buttons_press_nothing(
    ui: UiModel,
    layout: LayoutModel,
    snap: SnapshotModel,
    event: PointerEvent,
    now_ms: u64,
)
    requires
        event.action matches PointerAction::Press(b) && b != MouseButton::Left,
    ensures
        ({
            let out = input::pointed(ui, layout, snap, event, now_ms);
            out.asks.len() == 0 && out.ui == (UiModel { pointer: (event.x, event.y), ..ui })
        }),
{
}

/// No event takes back a repaint that is owed.
pub proof fn events_never_lose_a_repaint(
    ui: UiModel,
    layout: LayoutModel,
    snap: SnapshotModel,
    event: PointerEvent,
    key: KeyEvent,
    now_ms: u64,
)
    ensures
        ui.dirty.full ==> input::pointed(ui, layout, snap, event, now_ms).ui.dirty.full,
        ui.dirty.layout ==> input::pointed(ui, layout, snap, event, now_ms).ui.dirty.layout,
        ui.dirty.meters ==> input::pointed(ui, layout, snap, event, now_ms).ui.dirty.meters,
        input::keyed(ui, snap, key).ui.dirty.full,
        ui.dirty.layout ==> input::keyed(ui, snap, key).ui.dirty.layout,
        ui.dirty.meters ==> input::keyed(ui, snap, key).ui.dirty.meters,
{
    pointing_keeps_what_is_owed(ui, layout, snap, event, now_ms);
}

proof fn pointing_keeps_what_is_owed(
    ui: UiModel,
    layout: LayoutModel,
    snap: SnapshotModel,
    event: PointerEvent,
    now_ms: u64,
)
    ensures
        ({
            let dirty = input::pointed(ui, layout, snap, event, now_ms).ui.dirty;
            &&& ui.dirty.full ==> dirty.full
            &&& dirty.layout == ui.dirty.layout
            &&& dirty.meters == ui.dirty.meters
        }),
{
    match event.action {
        PointerAction::Motion => {
            let a = UiModel { pointer: (event.x, event.y), ..ui };
            let b = input::hovered(a, layout, event.across(), event.down());
            assert(ui.dirty.full ==> b.dirty.full);
            assert(b.dirty.layout == ui.dirty.layout && b.dirty.meters == ui.dirty.meters);
        },
        PointerAction::Press(_) => {
            let a = UiModel { pointer: (event.x, event.y), ..ui };
            pressing_keeps_what_is_owed(a, layout, snap, event, now_ms);
        },
        PointerAction::Scroll { dx, dy } => {
            let a = UiModel { pointer: (event.x, event.y), ..ui };
            scrolling_keeps_what_is_owed(a, layout, snap, dx + dy);
        },
        PointerAction::Release(_) => {},
    }
}

proof fn pressing_keeps_what_is_owed(
    ui: UiModel,
    layout: LayoutModel,
    snap: SnapshotModel,
    event: PointerEvent,
    now_ms: u64,
)
    ensures
        ({
            let dirty = input::pressed(ui, layout, snap, event, now_ms).ui.dirty;
            &&& dirty.full
            &&& dirty.layout == ui.dirty.layout
            &&& dirty.meters == ui.dirty.meters
        }),
{
}

proof fn scrolling_keeps_what_is_owed(
    ui: UiModel,
    layout: LayoutModel,
    snap: SnapshotModel,
    delta: int,
)
    ensures
        ({
            let dirty = input::scrolled(ui, layout, snap, delta).ui.dirty;
            &&& ui.dirty.full ==> dirty.full
            &&& dirty.layout == ui.dirty.layout
            &&& dirty.meters == ui.dirty.meters
        }),
{
}

/// The strip never scrolls past either end: turning the wheel leaves it between
/// the first column and the last, and so does dragging its scrollbar.
pub proof fn the_strip_stops_at_both_ends(
    ui: UiModel,
    layout: LayoutModel,
    snap: SnapshotModel,
    event: PointerEvent,
    now_ms: u64,
)
    requires
        layout.wf(),
        0 <= ui.scroll_x <= layout.scroll_max_x,
    ensures
        0 <= input::pointed(ui, layout, snap, event, now_ms).ui.scroll_x <= layout.scroll_max_x,
{
    reveal(input::scroll_at);
}

/// No part of a scroll is lost: what is short of a step waits for the rest of
/// the gesture, so the strip and what is left over move together by exactly
/// what the event reported, as long as the strip has room to move.
pub proof fn scrolls_add_up(
    ui: UiModel,
    layout: LayoutModel,
    snap: SnapshotModel,
    event: PointerEvent,
    now_ms: u64,
)
    requires
        event.action is Scroll,
        layout.palette is None,
    ensures
        ({
            let out = input::pointed(ui, layout, snap, event, now_ms).ui;
            let delta = event.action->dx + event.action->dy;
            let moved = ui::steps(ui.scroll_residual + delta, SUBPIXELS as int);
            &&& -SUBPIXELS < out.scroll_residual < SUBPIXELS
            &&& 0 <= ui.scroll_x + moved <= layout.scroll_max_x ==> out.scroll_x * SUBPIXELS
                + out.scroll_residual == ui.scroll_x * SUBPIXELS + ui.scroll_residual + delta
        }),
{
}

/// The same of a list: what an event leaves over is under a row.
pub proof fn rows_scrolled_add_up(
    ui: UiModel,
    layout: LayoutModel,
    snap: SnapshotModel,
    event: PointerEvent,
    now_ms: u64,
)
    requires
        event.action is Scroll,
        layout.palette is Some,
    ensures
        ({
            let out = input::pointed(ui, layout, snap, event, now_ms).ui;
            let row = PALETTE_ROW_H * SUBPIXELS;
            let total = ui.palette_wheel + event.action->dx + event.action->dy;
            &&& -row < out.palette_wheel < row
            &&& ui::steps(total, row) * row + out.palette_wheel == total
        }),
{
}

/// The wheel goes to an open palette alone: the mixer behind it stays where it
/// is, and the palette is only ever asked to show rows it has.
pub proof fn an_open_palette_takes_the_wheel(
    ui: UiModel,
    layout: LayoutModel,
    snap: SnapshotModel,
    event: PointerEvent,
    now_ms: u64,
)
    requires
        event.action is Scroll,
        layout.palette is Some,
        input::palette_agrees(layout, snap),
    ensures
        ({
            let out = input::pointed(ui, layout, snap, event, now_ms);
            &&& out.ui == (UiModel {
                pointer: (event.x, event.y),
                palette_wheel: out.ui.palette_wheel,
                ..ui
            })
            &&& forall|k: int|
                0 <= k < out.asks.len() ==> {
                    &&& (#[trigger] out.asks[k]) is Send
                    &&& out.asks[k]->Send_0 is PaletteScrollTo
                    &&& out.asks[k]->Send_0->PaletteScrollTo_0 + layout.palette->Some_0.rows.len()
                        <= snap.palette.rows.len()
                }
        }),
{
}

/// What a focused overlay may ask for.
pub open spec fn overlay_ask(ask: RequestView) -> bool {
    match ask {
        RequestView::Command(_) => true,
        RequestView::Volume { .. } => false,
        RequestView::Send(m) => match m {
            MessageView::TogglePalette => true,
            MessageView::PaletteQueryChanged(_) => true,
            MessageView::PaletteSelectPrev { .. } => true,
            MessageView::PaletteSelectNext { .. } => true,
            MessageView::ModalNameChanged(_) => true,
            MessageView::ModalConfirm => true,
            MessageView::ModalDismiss => true,
            _ => false,
        },
    }
}

/// With an overlay focused no key reaches the mixer behind it: whatever is
/// pressed asks for something of the overlay, and nothing is muted, moved or
/// scrolled.
pub proof fn keys_do_not_leak_past_an_overlay(ui: UiModel, snap: SnapshotModel, event: KeyEvent)
    requires
        ui.focus != Focus::Body,
    ensures
        forall|k: int|
            0 <= k < input::keyed(ui, snap, event).asks.len() ==> overlay_ask(
                #[trigger] input::keyed(ui, snap, event).asks[k],
            ),
{
}

/// Escape gives the keyboard back to the mixer.
pub proof fn escape_leaves_an_overlay(ui: UiModel, snap: SnapshotModel, event: KeyEvent)
    requires
        event.key == Key::Escape,
    ensures
        input::keyed(ui, snap, event).ui.focus == Focus::Body,
{
}

/// A key reports a change of the text exactly if it made one.
pub proof fn silent_keys_keep_the_text(e: EditorView, event: KeyEvent)
    ensures
        input::edited(e, event).1 == (input::edited(e, event).0.text != e.text),
{
}

/// Whatever is typed into a focused field is mirrored into the app's state: a key
/// that leaves the field's text different asks for exactly that text, and one that
/// leaves it as it was does not ask for any.
pub proof fn typing_is_mirrored(ui: UiModel, snap: SnapshotModel, event: KeyEvent)
    requires
        ui.focus != Focus::Body,
    ensures
        ({
            let out = input::keyed(ui, snap, event);
            if out.ui.editor.text != ui.editor.text {
                out.asks == seq![RequestView::Send(input::text_message(out.ui)->Some_0)]
            } else {
                forall|k: int|
                    0 <= k < out.asks.len() ==> !text_ask(#[trigger] out.asks[k])
            }
        }),
{
}

/// Whether a request gives the app's state a field's text.
pub open spec fn text_ask(ask: RequestView) -> bool {
    ask matches RequestView::Send(m) && (m is PaletteQueryChanged || m is ModalNameChanged)
}

/// Pressing a profile and letting go on its own row applies it, once, and closes
/// the menu; pressing it asks for nothing yet.
pub proof fn a_profile_clicked_is_applied(
    ui: UiModel,
    layout: LayoutModel,
    snap: SnapshotModel,
    press: PointerEvent,
    release: PointerEvent,
    name: Seq<char>,
    i: int,
    then_ms: u64,
    now_ms: u64,
)
    requires
        press.action == PointerAction::Press(MouseButton::Left),
        release.action is Release,
        input::target_at(layout, press.across(), press.down()) == Some(
            HitTargetView::ProfileApply(name),
        ),
        layout.profile_menu is Some,
        0 <= i < layout.profile_menu->Some_0.rows.len(),
        input::menu_row_at(
            layout.profile_menu->Some_0.rows,
            release.across(),
            release.down(),
            layout.profile_menu->Some_0.rows.len() as int,
        ) == Some(i),
        layout.profile_menu->Some_0.rows[i].name == name,
    ensures
        ({
            let first = input::pointed(ui, layout, snap, press, then_ms);
            let second = input::pointed(first.ui, layout, snap, release, now_ms);
            &&& first.asks.len() == 0
            &&& second.asks == seq![RequestView::Send(MessageView::ApplyProfile(name))]
            &&& !second.ui.profile_menu_open
        }),
{
    reveal(input::dropped);
}

/// A profile let go off the menu changes nothing.
pub proof fn a_profile_dropped_outside_stays(
    ui: UiModel,
    layout: LayoutModel,
    snap: SnapshotModel,
    release: PointerEvent,
    name: Seq<char>,
    now_ms: u64,
)
    requires
        ui.drag == Some(DragView::ProfileReorder(name)),
        release.action is Release,
        layout.profile_menu matches Some(menu) ==> forall|i: int|
            0 <= i < menu.rows.len() ==> !(#[trigger] menu.rows[i]).rect.covers(
                release.across(),
                release.down(),
            ),
    ensures
        ({
            let out = input::pointed(ui, layout, snap, release, now_ms);
            out.asks.len() == 0 && out.ui.profile_menu_open == ui.profile_menu_open
        }),
{
    reveal(input::dropped);
    if let Some(menu) = layout.profile_menu {
        missed(menu.rows, release.across(), release.down(), menu.rows.len() as int);
    }
}

proof fn missed(rows: Seq<ProfileRowGeomModel>, x: int, y: int, n: int)
    requires
        n <= rows.len(),
        forall|i: int| 0 <= i < rows.len() ==> !(#[trigger] rows[i]).rect.covers(x, y),
    ensures
        input::menu_row_at(rows, x, y, n) is None,
    decreases n,
{
    if n > 0 {
        missed(rows, x, y, n - 1);
    }
}

} // verus!
