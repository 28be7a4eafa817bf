//! What holds of every frame the painter lists.

use crate::render::paint;
use crate::render::primitives::Rect;
use crate::ui::layout;
use crate::ui::layout::SpecModel;
use crate::ui::layout_laws;
use crate::ui::meter;
use crate::ui::metrics::COLUMN_WIDTH;
use crate::ui::UiModel;
use crate::view::snapshot::SnapshotModel;
use vstd::prelude::*;

verus! {

/// Every frame laid out can be painted: whatever the window's size, its scroll
/// offset and its rows, as long as they can be counted.
pub proof fn frames_laid_out_can_be_painted(snap: SnapshotModel, ui: UiModel, window: Rect)
    requires
        layout::countable(snap, ui, window),
        forall|k: int|
            0 <= k < ui.meters.len() ==> (#[trigger] ui.meters[k]).channels.len() <= 0x1000,
    ensures
        paint::paintable(layout::layout_of(snap, ui, window), snap, ui),
{
    let l = layout::layout_of(snap, ui, window);
    let frame = layout::frame_model(ui.chrome, ui.settings, window);
    assert forall|i: int|
        0 <= i < l.hits.len() && (#[trigger] l.hits[i]).target is ProfileSelector implies
        paint::near(l.hits[i].rect) by {
        layout_laws::the_selector_is_its_chip(snap, ui, window, i);
        chips_are_near(ui, window);
    }
    assert forall|i: int| 0 <= i < l.columns.len() implies paint::column_near(
        #[trigger] l.columns[i],
        ui,
    ) by {
        columns_are_near(snap, ui, window, i);
    }
    if l.profile_menu is Some {
        chips_are_near(ui, window);
        menus_are_near(snap, ui, window);
    }
    if l.palette is Some {
        palettes_are_near(snap, ui, window);
    }
    if l.strip_scrollbar is Some {
        let bar = l.strip_scrollbar->Some_0;
        assert(bar.slider.h == 4);
    }
}

proof fn chips_are_near(ui: UiModel, window: Rect)
    requires
        layout::within(window, 0x100_0000),
    ensures
        layout::frame_model(ui.chrome, ui.settings, window).chip matches Some(chip)
            ==> layout::within(chip, 0x200_0000),
{
}

proof fn bars_are_few(ui: UiModel, n: int, row: crate::ui::layout::RowIdView)
    requires
        0 <= n <= ui.meters.len(),
        forall|k: int|
            0 <= k < ui.meters.len() ==> (#[trigger] ui.meters[k]).channels.len() <= 0x1000,
    ensures
        meter::find_row(ui.meters.take(n), row) matches Some(i) ==> 0 <= i < n,
    decreases n,
{
    if n > 0 {
        assert(ui.meters.take(n).drop_last() =~= ui.meters.take(n - 1));
        bars_are_few(ui, n - 1, row);
    }
}

proof fn columns_are_near(snap: SnapshotModel, ui: UiModel, window: Rect, k: int)
    requires
        layout::countable(snap, ui, window),
        0 <= k < layout::layout_of(snap, ui, window).columns.len(),
        forall|j: int|
            0 <= j < ui.meters.len() ==> (#[trigger] ui.meters[j]).channels.len() <= 0x1000,
    ensures
        paint::column_near(layout::layout_of(snap, ui, window).columns[k], ui),
{
    let strip = layout::frame_model(ui.chrome, ui.settings, window).strip;
    let specs = layout::shown_specs(snap);
    let sinks = layout::sink_ids(snap.sink_options);
    let r = layout::column_slot(strip, ui.scroll_x as int, k);
    let col = layout::column_model(specs[k], r, sinks);
    assert(layout::layout_of(snap, ui, window).columns[k] == col);
    let n = ui.meters.len() as int;
    assert(ui.meters.take(n) =~= ui.meters);
    bars_are_few(ui, n, col.id);
    assert(layout::within(r, 0x1800_0000));
    assert(sinks.len() <= 0x10_0000);
    column_is_near(specs[k], r, sinks, ui);
}

proof fn column_is_near(spec: SpecModel, r: Rect, sinks: Seq<u32>, ui: UiModel)
    requires
        layout::within(r, 0x1800_0000),
        r.w == COLUMN_WIDTH,
        0 <= r.h <= 0x100_0000,
        sinks.len() <= 0x10_0000,
        meter::bars(ui.meters, spec.id).len() <= 0x1000,
    ensures
        paint::column_near(layout::column_model(spec, r, sinks), ui),
{
}

proof fn menus_are_near(snap: SnapshotModel, ui: UiModel, window: Rect)
    requires
        layout::countable(snap, ui, window),
        layout::layout_of(snap, ui, window).profile_menu is Some,
    ensures
        paint::menu_near(layout::layout_of(snap, ui, window).profile_menu->Some_0),
{
    chips_are_near(ui, window);
    let chip = layout::frame_model(ui.chrome, ui.settings, window).chip->Some_0;
    let menu = layout::layout_of(snap, ui, window).profile_menu->Some_0;
    assert forall|k: int| 0 <= k < menu.rows.len() implies paint::near(
        (#[trigger] menu.rows[k]).rect,
    ) by {
        assert(menu.rows[k].rect == layout::menu_row(chip, k));
    }
}

proof fn palettes_are_near(snap: SnapshotModel, ui: UiModel, window: Rect)
    requires
        layout::countable(snap, ui, window),
        layout::layout_of(snap, ui, window).palette is Some,
    ensures
        paint::palette_near(layout::layout_of(snap, ui, window).palette->Some_0, snap),
{
    let content = layout::frame_model(ui.chrome, ui.settings, window).content;
    let geom = layout::palette_geom(snap.palette, content);
    let total = snap.palette.rows.len() as int;
    let capacity = layout::palette_capacity(content, total);
    assert(0 <= capacity <= 10 && capacity <= total);
    assert forall|k: int| 0 <= k < geom.rows.len() implies paint::near(#[trigger] geom.rows[k]) by {
        assert(geom.rows[k] == layout::palette_row(content, total > capacity, k));
    }
    if total > 0 {
        layout_laws::the_selected_row_is_on_show(snap.palette, content);
    }
}

} // verus!
