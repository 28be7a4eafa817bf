//! What holds of every frame the mixer lays out.

use crate::domain::Section;
use crate::render::primitives::Rect;
use crate::settings::Settings;
use crate::single;
use crate::ui::layout;
use crate::ui::layout::{ColumnModel, HitModel, HitTargetView, RowIdView, SpecModel};
use crate::ui::metrics::{
    COLUMN_WIDTH, COL_GAP, MENU_ROW_H, MIN_FADER_HEIGHT, PICKER_MUTE_GAP, PICK_STACK_GAP,
    RESIZE_GRAB, STRIP_PAD, TITLEBAR_HEIGHT,
};
use crate::ui::{Chrome, UiModel};
use crate::view::snapshot::{PaletteModel, ProfileRowModel, SnapshotModel};
use vstd::prelude::*;

verus! {

// --- Hits -----------------------------------------------------------------------------

/// What a point hits is one of the hits that hold it, and something is hit where
/// any of them does.
pub proof fn the_topmost_holds_the_point(hits: Seq<HitModel>, x: int, y: int, n: int)
    requires
        0 <= n <= hits.len(),
    ensures
        layout::topmost(hits, x, y, n) matches Some(t) ==> exists|i: int|
            0 <= i < n && (#[trigger] hits[i]).target == t && hits[i].rect.covers(x, y),
        layout::topmost(hits, x, y, n) is None ==> forall|i: int|
            0 <= i < n ==> !(#[trigger] hits[i]).rect.covers(x, y),
    decreases n,
{
    if n > 0 && !hits[n - 1].rect.covers(x, y) {
        the_topmost_holds_the_point(hits, x, y, n - 1);
    }
}

/// What lies on top decides, wherever it holds the point.
proof fn upper_decides(lower: Seq<HitModel>, upper: Seq<HitModel>, x: int, y: int, n: int)
    requires
        0 <= n <= upper.len(),
    ensures
        layout::topmost(lower + upper, x, y, lower.len() + n) == (match layout::topmost(
            upper,
            x,
            y,
            n,
        ) {
            Some(t) => Some(t),
            None => layout::topmost(lower, x, y, lower.len() as int),
        }),
    decreases n,
{
    if n > 0 {
        assert((lower + upper)[lower.len() + n - 1] == upper[n - 1]);
        if !upper[n - 1].rect.covers(x, y) {
            upper_decides(lower, upper, x, y, n - 1);
        }
    } else {
        lower_alone(lower, upper, x, y, lower.len() as int);
    }
}

proof fn lower_alone(lower: Seq<HitModel>, upper: Seq<HitModel>, x: int, y: int, n: int)
    requires
        0 <= n <= lower.len(),
    ensures
        layout::topmost(lower + upper, x, y, n) == layout::topmost(lower, x, y, n),
    decreases n,
{
    if n > 0 {
        lower_alone(lower, upper, x, y, n - 1);
    }
}

/// Where in a frame a target belongs, bottom-up: the chrome and the action bar,
/// the columns, their scrollbar, the profile menu, the palette and the modals,
/// the window's edges.
pub open spec fn layer(t: HitTargetView) -> int {
    match t {
        HitTargetView::RowSlider(_) => 1,
        HitTargetView::RowMute(_) => 1,
        HitTargetView::AppExpand(_) => 1,
        HitTargetView::AppTarget { .. } => 1,
        HitTargetView::DeviceDefault(_) => 1,
        HitTargetView::StripScrollbar => 2,
        HitTargetView::ProfileApply(_) => 3,
        HitTargetView::ProfileCreate => 3,
        HitTargetView::Backdrop => 4,
        HitTargetView::PaletteInput => 4,
        HitTargetView::PaletteRow(_) => 4,
        HitTargetView::ModalInput => 4,
        HitTargetView::ModalCancel => 4,
        HitTargetView::ModalConfirm => 4,
        HitTargetView::ResizeEdge(_) => 5,
        _ => 0,
    }
}

spec fn layered(hits: Seq<HitModel>, low: int, high: int) -> bool {
    forall|i: int| 0 <= i < hits.len() ==> low <= layer((#[trigger] hits[i]).target) <= high
}

proof fn layered_both(a: Seq<HitModel>, b: Seq<HitModel>, low: int, high: int)
    requires
        layered(a, low, high),
        layered(b, low, high),
    ensures
        layered(a + b, low, high),
{
    assert forall|i: int| 0 <= i < (a + b).len() implies low <= layer(
        (#[trigger] (a + b)[i]).target,
    ) <= high by {
        if i < a.len() {
            assert((a + b)[i] == a[i]);
        } else {
            assert((a + b)[i] == b[i - a.len()]);
        }
    }
}

#[verifier::opaque]
spec fn chrome_part(ui: UiModel, window: Rect) -> Seq<HitModel> {
    layout::frame_hits(ui.chrome, ui.settings, window)
}

#[verifier::opaque]
spec fn columns_part(snap: SnapshotModel, ui: UiModel, window: Rect) -> Seq<HitModel> {
    let specs = layout::shown_specs(snap);
    layout::columns_hits(
        specs,
        layout::frame_model(ui.chrome, ui.settings, window).strip,
        ui.scroll_x as int,
        layout::sink_ids(snap.sink_options),
        specs.len() as int,
    )
}

#[verifier::opaque]
spec fn scroll_part(snap: SnapshotModel, ui: UiModel, window: Rect) -> Seq<HitModel> {
    let strip = layout::frame_model(ui.chrome, ui.settings, window).strip;
    let n = layout::shown_specs(snap).len() as int;
    match layout::strip_bar(strip, ui.scroll_x as int, layout::scroll_reach(strip, n)) {
        Some(bar) => seq![HitModel { rect: bar.track, target: HitTargetView::StripScrollbar }],
        None => Seq::empty(),
    }
}

#[verifier::opaque]
spec fn menu_part(snap: SnapshotModel, ui: UiModel, window: Rect) -> Seq<HitModel> {
    match layout::open_menu(
        snap,
        ui,
        layout::frame_model(ui.chrome, ui.settings, window).chip,
    ) {
        Some(menu) => layout::menu_hits(menu),
        None => Seq::empty(),
    }
}

#[verifier::opaque]
spec fn palette_part(snap: SnapshotModel, content: Rect) -> Seq<HitModel> {
    match layout::open_palette(snap, content) {
        Some(geom) => layout::palette_hits(geom, content),
        None => Seq::empty(),
    }
}

#[verifier::opaque]
spec fn modal_part(snap: SnapshotModel, content: Rect) -> Seq<HitModel> {
    match layout::open_modal(snap, content) {
        Some(geom) => layout::modal_hits(geom, content),
        None => Seq::empty(),
    }
}

#[verifier::opaque]
spec fn edge_part(ui: UiModel, window: Rect) -> Seq<HitModel> {
    if ui.chrome == Chrome::Client && !ui.maximized {
        layout::edge_hits(window)
    } else {
        Seq::empty()
    }
}

spec fn overlay_part(snap: SnapshotModel, ui: UiModel, window: Rect) -> Seq<HitModel> {
    let content = layout::frame_model(ui.chrome, ui.settings, window).content;
    palette_part(snap, content) + modal_part(snap, content)
}

proof fn parts(snap: SnapshotModel, ui: UiModel, window: Rect)
    ensures
        layout::layout_of(snap, ui, window).hits == (chrome_part(ui, window) + columns_part(
            snap,
            ui,
            window,
        ) + scroll_part(snap, ui, window)) + (menu_part(snap, ui, window) + overlay_part(
            snap,
            ui,
            window,
        ) + edge_part(ui, window)),
{
    reveal(chrome_part);
    reveal(columns_part);
    reveal(scroll_part);
    reveal(menu_part);
    reveal(palette_part);
    reveal(modal_part);
    reveal(edge_part);
    let content = layout::frame_model(ui.chrome, ui.settings, window).content;
    let m = menu_part(snap, ui, window);
    let p = palette_part(snap, content);
    let o = modal_part(snap, content);
    assert(m + p + o =~= m + (p + o));
    assert(layout::mixer_hits(snap, ui, window) == chrome_part(ui, window) + columns_part(
        snap,
        ui,
        window,
    ) + scroll_part(snap, ui, window));
    assert(layout::overlay_hits(snap, ui, window) == m + p + o + edge_part(ui, window));
}

proof fn bar_layer(bar: Rect, cfg: Settings)
    ensures
        layered(layout::bar_hits(bar, cfg), 0, 0),
{
    let filters = layout::filter_buttons(cfg);
    let actions = layout::action_buttons(cfg);
    let hits = layout::bar_hits(bar, cfg);
    assert forall|i: int| 0 <= i < hits.len() implies layer((#[trigger] hits[i]).target) == 0 by {
        if i < filters.len() {
            assert(hits[i].target == filters[i]);
        } else {
            assert(hits[i].target == actions[i - filters.len()]);
        }
    }
}

proof fn chrome_layer(ui: UiModel, window: Rect)
    ensures
        layered(chrome_part(ui, window), 0, 0),
{
    reveal(chrome_part);
    let frame = layout::frame_model(ui.chrome, ui.settings, window);
    let title = if ui.chrome == Chrome::Client {
        layout::titlebar_hits(window)
    } else {
        Seq::empty()
    };
    let chip = match frame.chip {
        Some(chip) => seq![HitModel { rect: chip, target: HitTargetView::ProfileSelector }],
        None => Seq::empty(),
    };
    let bar = match frame.sidebar {
        Some(bar) => layout::bar_hits(bar, ui.settings),
        None => Seq::empty(),
    };
    if let Some(r) = frame.sidebar {
        bar_layer(r, ui.settings);
    }
    layered_both(title, chip, 0, 0);
    layered_both(title + chip, bar, 0, 0);
}

proof fn scroll_layer(snap: SnapshotModel, ui: UiModel, window: Rect)
    ensures
        layered(scroll_part(snap, ui, window), 2, 2),
{
    reveal(scroll_part);
}

proof fn menu_layer(snap: SnapshotModel, ui: UiModel, window: Rect)
    ensures
        layered(menu_part(snap, ui, window), 3, 3),
{
    reveal(menu_part);
}

proof fn overlay_layer(snap: SnapshotModel, ui: UiModel, window: Rect)
    ensures
        layered(overlay_part(snap, ui, window), 4, 4),
{
    reveal(palette_part);
    reveal(modal_part);
    let content = layout::frame_model(ui.chrome, ui.settings, window).content;
    layered_both(palette_part(snap, content), modal_part(snap, content), 4, 4);
}

proof fn edge_layer(ui: UiModel, window: Rect)
    ensures
        layered(edge_part(ui, window), 5, 5),
{
    reveal(edge_part);
}

/// With the palette or a modal open, nothing of the mixer can be hit: every point
/// below the titlebar belongs to the overlay, or to the window's edges.
pub proof fn an_open_overlay_swallows_the_mixer(
    snap: SnapshotModel,
    ui: UiModel,
    window: Rect,
    x: int,
    y: int,
)
    requires
        ({
            let l = layout::layout_of(snap, ui, window);
            &&& l.palette is Some || l.modal is Some
            &&& l.content.covers(x, y)
        }),
    ensures
        ({
            let l = layout::layout_of(snap, ui, window);
            let hit = layout::topmost(l.hits, x, y, l.hits.len() as int);
            hit is Some && layer(hit->Some_0) >= 4
        }),
{
    let l = layout::layout_of(snap, ui, window);
    let lower = chrome_part(ui, window) + columns_part(snap, ui, window) + scroll_part(
        snap,
        ui,
        window,
    );
    let menu = menu_part(snap, ui, window);
    let over = overlay_part(snap, ui, window);
    let edges = edge_part(ui, window);
    parts(snap, ui, window);
    assert(l.hits =~= (lower + menu) + (over + edges));
    overlay_layer(snap, ui, window);
    edge_layer(ui, window);
    layered_both(over, edges, 4, 5);
    let upper = over + edges;
    upper_decides(lower + menu, upper, x, y, upper.len() as int);
    the_topmost_holds_the_point(upper, x, y, upper.len() as int);
    backdrop_first(snap, ui, window);
    assert(upper[0] == over[0]);
}

proof fn backdrop_first(snap: SnapshotModel, ui: UiModel, window: Rect)
    requires
        layout::layout_of(snap, ui, window).palette is Some || layout::layout_of(
            snap,
            ui,
            window,
        ).modal is Some,
    ensures
        overlay_part(snap, ui, window).len() > 0,
        overlay_part(snap, ui, window)[0].rect == layout::layout_of(snap, ui, window).content,
{
    reveal(palette_part);
    reveal(modal_part);
    let content = layout::frame_model(ui.chrome, ui.settings, window).content;
    let p = palette_part(snap, content);
    let o = modal_part(snap, content);
    if layout::open_palette(snap, content) is Some {
        assert((p + o)[0] == p[0]);
    } else {
        assert((p + o)[0] == o[0]);
    }
}

/// What of a row can be hit.
pub open spec fn of_a_row(t: HitTargetView, id: RowIdView) -> bool {
    match t {
        HitTargetView::RowSlider(row) => row == id,
        HitTargetView::RowMute(row) => row == id,
        HitTargetView::AppExpand(row) => row == id,
        HitTargetView::AppTarget { row, .. } => row == id,
        HitTargetView::DeviceDefault(row) => row == id,
        _ => false,
    }
}

proof fn column_hits_are_its_own(spec: SpecModel, r: Rect, sinks: Seq<u32>, i: int)
    requires
        0 <= i < layout::column_hits(spec, r, sinks).len(),
    ensures
        of_a_row(layout::column_hits(spec, r, sinks)[i].target, spec.id),
{
    let pins = layout::pin_hits(spec.id, r, sinks, sinks.len() as int + 1);
    assert(pins.len() == sinks.len() + 1);
    if spec.is_app && 1 <= i <= sinks.len() + 1 {
        assert(layout::column_hits(spec, r, sinks)[i] == pins[i - 1]);
    }
}

proof fn columns_hits_are_theirs(
    specs: Seq<SpecModel>,
    strip: Rect,
    scroll_x: int,
    sinks: Seq<u32>,
    n: int,
    i: int,
) -> (k: int)
    requires
        0 <= n <= specs.len(),
        0 <= i < layout::columns_hits(specs, strip, scroll_x, sinks, n).len(),
    ensures
        0 <= k < n,
        of_a_row(
            layout::columns_hits(specs, strip, scroll_x, sinks, n)[i].target,
            specs[k].id,
        ),
    decreases n,
{
    let before = layout::columns_hits(specs, strip, scroll_x, sinks, n - 1);
    let slot = layout::column_slot(strip, scroll_x, n - 1);
    if i < before.len() {
        columns_hits_are_theirs(specs, strip, scroll_x, sinks, n - 1, i)
    } else {
        column_hits_are_its_own(specs[n - 1], slot, sinks, i - before.len());
        n - 1
    }
}

proof fn columns_layer(snap: SnapshotModel, ui: UiModel, window: Rect)
    ensures
        layered(columns_part(snap, ui, window), 1, 1),
        forall|i: int|
            0 <= i < columns_part(snap, ui, window).len() ==> exists|k: int|
                0 <= k < layout::shown_specs(snap).len() && of_a_row(
                    (#[trigger] columns_part(snap, ui, window)[i]).target,
                    (#[trigger] layout::shown_specs(snap)[k]).id,
                ),
{
    reveal(columns_part);
    let specs = layout::shown_specs(snap);
    let strip = layout::frame_model(ui.chrome, ui.settings, window).strip;
    let sinks = layout::sink_ids(snap.sink_options);
    let hits = columns_part(snap, ui, window);
    assert forall|i: int| 0 <= i < hits.len() implies layer((#[trigger] hits[i]).target) == 1
        && exists|k: int|
        0 <= k < specs.len() && of_a_row(hits[i].target, (#[trigger] specs[k]).id) by {
        let k = columns_hits_are_theirs(
            specs,
            strip,
            ui.scroll_x as int,
            sinks,
            specs.len() as int,
            i,
        );
        assert(of_a_row(hits[i].target, specs[k].id));
    }
}

/// In a stack of parts, what is of a layer that only the second part has is in
/// the second part.
proof fn in_the_middle(
    low: Seq<HitModel>,
    middle: Seq<HitModel>,
    high: Seq<HitModel>,
    i: int,
) -> (j: int)
    requires
        layered(low, 0, 0),
        layered(high, 2, 5),
        0 <= i < (low + (middle + high)).len(),
        layer((low + (middle + high))[i].target) == 1,
    ensures
        0 <= j < middle.len(),
        middle[j] == (low + (middle + high))[i],
{
    let all = low + (middle + high);
    if i < low.len() {
        assert(all[i] == low[i]);
    } else if i >= low.len() + middle.len() {
        assert(all[i] == high[i - low.len() - middle.len()]);
    }
    i - low.len()
}

/// What is hit of a row is among the hits of the columns.
proof fn row_hits_are_columns(snap: SnapshotModel, ui: UiModel, window: Rect, i: int) -> (j: int)
    requires
        0 <= i < layout::layout_of(snap, ui, window).hits.len(),
        layer(layout::layout_of(snap, ui, window).hits[i].target) == 1,
    ensures
        0 <= j < columns_part(snap, ui, window).len(),
        columns_part(snap, ui, window)[j] == layout::layout_of(snap, ui, window).hits[i],
{
    let l = layout::layout_of(snap, ui, window);
    let chrome = chrome_part(ui, window);
    let columns = columns_part(snap, ui, window);
    let scroll = scroll_part(snap, ui, window);
    let menu = menu_part(snap, ui, window);
    let over = overlay_part(snap, ui, window);
    let edges = edge_part(ui, window);
    let rest = scroll + (menu + over + edges);
    parts(snap, ui, window);
    assert(l.hits =~= chrome + (columns + rest));
    chrome_layer(ui, window);
    scroll_layer(snap, ui, window);
    menu_layer(snap, ui, window);
    overlay_layer(snap, ui, window);
    edge_layer(ui, window);
    layered_both(menu, over, 2, 5);
    layered_both(menu + over, edges, 2, 5);
    layered_both(scroll, menu + over + edges, 2, 5);
    in_the_middle(chrome, columns, rest, i)
}

/// Whatever of a row can be hit has its column in the frame: the row's fader is
/// there to be read.
pub proof fn hit_rows_have_their_column(
    snap: SnapshotModel,
    ui: UiModel,
    window: Rect,
    x: int,
    y: int,
    row: RowIdView,
)
    requires
        ({
            let l = layout::layout_of(snap, ui, window);
            let hit = layout::topmost(l.hits, x, y, l.hits.len() as int);
            hit is Some && of_a_row(hit->Some_0, row)
        }),
    ensures
        exists|k: int|
            0 <= k < layout::layout_of(snap, ui, window).columns.len() && (
            #[trigger] layout::layout_of(snap, ui, window).columns[k]).id == row,
{
    let l = layout::layout_of(snap, ui, window);
    the_topmost_holds_the_point(l.hits, x, y, l.hits.len() as int);
    let t = layout::topmost(l.hits, x, y, l.hits.len() as int)->Some_0;
    let i = choose|i: int|
        0 <= i < l.hits.len() && (#[trigger] l.hits[i]).target == t && l.hits[i].rect.covers(x, y);
    let j = row_hits_are_columns(snap, ui, window, i);
    columns_layer(snap, ui, window);
    let columns = columns_part(snap, ui, window);
    assert(columns[j].target == t);
    let k = choose|k: int|
        0 <= k < layout::shown_specs(snap).len() && of_a_row(
            columns[j].target,
            (#[trigger] layout::shown_specs(snap)[k]).id,
        );
    assert(l.columns[k].id == row);
}

/// What lies under the edges of the window: nothing there resizes it.
proof fn under_the_edges(snap: SnapshotModel, ui: UiModel, window: Rect, x: int, y: int) -> (below:
    Seq<HitModel>)
    ensures
        layout::layout_of(snap, ui, window).hits == below + edge_part(ui, window),
        ({
            let hit = layout::topmost(below, x, y, below.len() as int);
            hit is Some ==> !(hit->Some_0 is ResizeEdge)
        }),
{
    let l = layout::layout_of(snap, ui, window);
    let chrome = chrome_part(ui, window);
    let columns = columns_part(snap, ui, window);
    let scroll = scroll_part(snap, ui, window);
    let menu = menu_part(snap, ui, window);
    let over = overlay_part(snap, ui, window);
    let edges = edge_part(ui, window);
    let below = (chrome + columns + scroll) + (menu + over);
    parts(snap, ui, window);
    assert(l.hits =~= below + edges);
    chrome_layer(ui, window);
    columns_layer(snap, ui, window);
    scroll_layer(snap, ui, window);
    menu_layer(snap, ui, window);
    overlay_layer(snap, ui, window);
    layered_both(chrome, columns, 0, 4);
    layered_both(chrome + columns, scroll, 0, 4);
    layered_both(menu, over, 0, 4);
    layered_both(chrome + columns + scroll, menu + over, 0, 4);
    the_topmost_holds_the_point(below, x, y, below.len() as int);
    below
}

/// Only a window that paints its own chrome and is not maximized is resized by
/// its edges; then its whole rim resizes it, whatever is open.
pub proof fn the_rim_resizes_a_window_with_its_own_chrome(
    snap: SnapshotModel,
    ui: UiModel,
    window: Rect,
    x: int,
    y: int,
)
    requires
        layout::within(window, 0x100_0000),
    ensures
        ({
            let l = layout::layout_of(snap, ui, window);
            let hit = layout::topmost(l.hits, x, y, l.hits.len() as int);
            let mine = ui.chrome == Chrome::Client && !ui.maximized;
            let rim = window.covers(x, y) && (x < window.x + RESIZE_GRAB || x
                >= window.right_edge() - RESIZE_GRAB || y < window.y + RESIZE_GRAB || y
                >= window.bottom_edge() - RESIZE_GRAB);
            &&& hit is Some && hit->Some_0 is ResizeEdge ==> mine
            &&& mine && rim ==> hit is Some && hit->Some_0 is ResizeEdge
        }),
{
    let edges = edge_part(ui, window);
    let below = under_the_edges(snap, ui, window, x, y);
    edge_layer(ui, window);
    upper_decides(below, edges, x, y, edges.len() as int);
    the_topmost_holds_the_point(edges, x, y, edges.len() as int);
    if ui.chrome == Chrome::Client && !ui.maximized && window.covers(x, y) && (x < window.x
        + RESIZE_GRAB || x >= window.right_edge() - RESIZE_GRAB || y < window.y + RESIZE_GRAB || y
        >= window.bottom_edge() - RESIZE_GRAB) {
        reveal(edge_part);
        rim_covered(window, x, y);
    } else {
        reveal(edge_part);
    }
}

proof fn rim_covered(window: Rect, x: int, y: int)
    requires
        layout::within(window, 0x100_0000),
        window.covers(x, y),
        x < window.x + RESIZE_GRAB || x >= window.right_edge() - RESIZE_GRAB || y < window.y
            + RESIZE_GRAB || y >= window.bottom_edge() - RESIZE_GRAB,
    ensures
        exists|i: int|
            0 <= i < layout::edge_hits(window).len() && (
            #[trigger] layout::edge_hits(window)[i]).rect.covers(x, y),
{
    let edges = layout::edge_hits(window);
    let i: int = if y < window.y + RESIZE_GRAB {
        0
    } else if y >= window.bottom_edge() - RESIZE_GRAB {
        1
    } else if x < window.x + RESIZE_GRAB {
        2
    } else {
        3
    };
    assert(edges[i].rect.covers(x, y));
}

/// The profile selector is hit on its chip and nowhere else.
pub proof fn the_selector_is_its_chip(snap: SnapshotModel, ui: UiModel, window: Rect, i: int)
    requires
        0 <= i < layout::layout_of(snap, ui, window).hits.len(),
        layout::layout_of(snap, ui, window).hits[i].target is ProfileSelector,
    ensures
        layout::frame_model(ui.chrome, ui.settings, window).chip == Some(
            layout::layout_of(snap, ui, window).hits[i].rect,
        ),
{
    let l = layout::layout_of(snap, ui, window);
    let chrome = chrome_part(ui, window);
    let columns = columns_part(snap, ui, window);
    let scroll = scroll_part(snap, ui, window);
    let menu = menu_part(snap, ui, window);
    let over = overlay_part(snap, ui, window);
    let edges = edge_part(ui, window);
    let rest = columns + (scroll + (menu + over + edges));
    parts(snap, ui, window);
    assert(l.hits =~= chrome + rest);
    columns_layer(snap, ui, window);
    scroll_layer(snap, ui, window);
    menu_layer(snap, ui, window);
    overlay_layer(snap, ui, window);
    edge_layer(ui, window);
    layered_both(menu, over, 1, 5);
    layered_both(menu + over, edges, 1, 5);
    layered_both(scroll, menu + over + edges, 1, 5);
    layered_both(columns, scroll + (menu + over + edges), 1, 5);
    if i < chrome.len() {
        assert(l.hits[i] == chrome[i]);
        chip_in_chrome(ui, window, i);
    } else {
        assert(l.hits[i] == rest[i - chrome.len()]);
    }
}

proof fn bar_has_no_selector(bar: Rect, cfg: Settings, i: int)
    requires
        0 <= i < layout::bar_hits(bar, cfg).len(),
    ensures
        !(layout::bar_hits(bar, cfg)[i].target is ProfileSelector),
{
    let filters = layout::filter_buttons(cfg);
    let actions = layout::action_buttons(cfg);
    let hits = layout::bar_hits(bar, cfg);
    if i < filters.len() {
        assert(hits[i].target == filters[i]);
    } else {
        assert(hits[i].target == actions[i - filters.len()]);
    }
}

proof fn chip_in_chrome(ui: UiModel, window: Rect, i: int)
    requires
        0 <= i < chrome_part(ui, window).len(),
        chrome_part(ui, window)[i].target is ProfileSelector,
    ensures
        layout::frame_model(ui.chrome, ui.settings, window).chip == Some(
            chrome_part(ui, window)[i].rect,
        ),
{
    reveal(chrome_part);
    let frame = layout::frame_model(ui.chrome, ui.settings, window);
    let title = if ui.chrome == Chrome::Client {
        layout::titlebar_hits(window)
    } else {
        Seq::empty()
    };
    let chip = match frame.chip {
        Some(chip) => seq![HitModel { rect: chip, target: HitTargetView::ProfileSelector }],
        None => Seq::empty(),
    };
    let bar = match frame.sidebar {
        Some(bar) => layout::bar_hits(bar, ui.settings),
        None => Seq::empty(),
    };
    let hits = chrome_part(ui, window);
    assert(hits =~= title + chip + bar);
    if i < title.len() {
        assert(hits[i] == title[i]);
    } else if i < title.len() + chip.len() {
        assert(hits[i] == chip[i - title.len()]);
    } else {
        let j = i - title.len() - chip.len();
        assert(hits[i] == bar[j]);
        bar_has_no_selector(frame.sidebar->Some_0, ui.settings, j);
    }
}

/// Where the toolkit hosts the profile selector, the frame has none of its own:
/// no strip, no titlebar, no menu.
pub proof fn toolkit_chrome_paints_no_selector(snap: SnapshotModel, ui: UiModel, window: Rect)
    requires
        ui.chrome == Chrome::Toolkit,
    ensures
        ({
            let l = layout::layout_of(snap, ui, window);
            &&& l.profile_strip is None
            &&& l.titlebar is None
            &&& l.profile_menu is None
            &&& l.content == window
        }),
{
}

/// Client chrome takes its titlebar's height off the top of the mixer, and the
/// compositor's takes nothing.
pub proof fn only_client_chrome_takes_room(snap: SnapshotModel, ui: UiModel, window: Rect)
    requires
        layout::within(window, 0x100_0000),
    ensures
        ({
            let l = layout::layout_of(snap, ui, window);
            &&& l.titlebar is Some <==> ui.chrome == Chrome::Client
            &&& ui.chrome == Chrome::Client ==> l.content.y == window.y + TITLEBAR_HEIGHT
                && l.content.bottom_edge() == window.bottom_edge()
            &&& ui.chrome != Chrome::Client ==> l.content == window
            &&& l.profile_strip is Some <==> ui.chrome == Chrome::Server
        }),
{
}

// --- Columns ------------------------------------------------------------------------------------

/// A column's meter and fader begin and end together.
pub proof fn meters_run_beside_their_faders(spec: SpecModel, r: Rect, sinks: Seq<u32>)
    ensures
        ({
            let c = layout::column_model(spec, r, sinks);
            c.meter.y == c.slider.track.y && c.meter.h == c.slider.track.h
        }),
{
}

/// Columns stand side by side, one gap apart, all as tall as each other.
pub proof fn columns_stand_side_by_side(snap: SnapshotModel, ui: UiModel, window: Rect, k: int)
    requires
        layout::countable(snap, ui, window),
        0 <= k,
        k + 1 < layout::layout_of(snap, ui, window).columns.len(),
    ensures
        ({
            let columns = layout::layout_of(snap, ui, window).columns;
            &&& columns[k + 1].rect.x == columns[k].rect.right_edge() + COL_GAP
            &&& columns[k + 1].rect.y == columns[k].rect.y
            &&& columns[k + 1].rect.h == columns[k].rect.h
        }),
{
    let specs = layout::shown_specs(snap);
    let strip = layout::frame_model(ui.chrome, ui.settings, window).strip;
    let a = layout::column_slot(strip, ui.scroll_x as int, k);
    let b = layout::column_slot(strip, ui.scroll_x as int, k + 1);
    let step = COLUMN_WIDTH + COL_GAP;
    assert((k + 1) * step == k * step + step) by (nonlinear_arith);
    assert(k * step <= 0x4_0000 * step) by (nonlinear_arith)
        requires
            k <= 0x4_0000,
            step >= 0,
    ;
    assert(b.x == a.x + step);
}

/// An app's pins sit tighter to each other than the lowest of them to the mute
/// button, so the two stacks read apart.
pub proof fn pins_sit_closer_to_each_other_than_to_mute(
    spec: SpecModel,
    r: Rect,
    sinks: Seq<u32>,
    i: int,
)
    requires
        spec.is_app,
        layout::within(r, 0x1000_0000),
        sinks.len() <= 0x10_0000,
        0 <= i < sinks.len(),
    ensures
        ({
            let c = layout::column_model(spec, r, sinks);
            let pins = c.targets;
            &&& pins[i + 1].0.y - pins[i].0.bottom_edge() == PICK_STACK_GAP
            &&& c.mute.y - pins[sinks.len() as int].0.bottom_edge() == PICKER_MUTE_GAP
            &&& PICK_STACK_GAP < PICKER_MUTE_GAP
        }),
{
    let up = sinks.len() - i;
    let c = layout::column_model(spec, r, sinks);
    assert(c.targets[i].0 == layout::slot_rect(r, up));
    assert(c.targets[i + 1].0 == layout::slot_rect(r, up - 1));
    assert(c.targets[sinks.len() as int].0 == layout::slot_rect(r, 0));
}

/// The mute button wins over whatever else of its column lies under it.
pub proof fn mute_wins(spec: SpecModel, r: Rect, sinks: Seq<u32>, x: int, y: int)
    requires
        layout::column_model(spec, r, sinks).mute.covers(x, y),
    ensures
        ({
            let hits = layout::column_hits(spec, r, sinks);
            layout::topmost(hits, x, y, hits.len() as int) == Some(
                HitTargetView::RowMute(spec.id),
            )
        }),
{
}

/// A window no smaller than the smallest one holds its columns whole: each ends
/// within the strip, and its fader keeps its least height.
pub proof fn the_smallest_window_holds_a_column(
    snap: SnapshotModel,
    ui: UiModel,
    window: Rect,
    k: int,
)
    requires
        layout::countable(snap, ui, window),
        window.h >= layout::least_size().1,
        0 <= k < layout::layout_of(snap, ui, window).columns.len(),
    ensures
        ({
            let l = layout::layout_of(snap, ui, window);
            let c = l.columns[k];
            &&& l.strip.y <= c.rect.y
            &&& c.rect.bottom_edge() <= l.strip.bottom_edge()
            &&& c.slider.track.h >= MIN_FADER_HEIGHT
            &&& c.slider.track.bottom_edge() <= c.rect.bottom_edge()
            &&& c.mute.bottom_edge() <= c.rect.bottom_edge()
        }),
{
    let strip = layout::frame_model(ui.chrome, ui.settings, window).strip;
    let r = layout::column_slot(strip, ui.scroll_x as int, k);
    assert(r.h == layout::column_height(strip));
}

/// Growing a size twice is growing it once, and a size grown is never under the
/// smallest nor under what it was.
pub proof fn growing_twice_is_growing_once(w: i32, h: i32)
    ensures
        layout::grown(layout::grown(w, h).0, layout::grown(w, h).1) == layout::grown(w, h),
        layout::grown(w, h).0 >= layout::least_size().0,
        layout::grown(w, h).1 >= layout::least_size().1,
        layout::grown(w, h).0 >= w,
        layout::grown(w, h).1 >= h,
{
}

// --- Scrolling ---------------------------------------------------------------------------------

/// The strip has a scrollbar exactly once its columns overrun it.
pub proof fn the_scrollbar_shows_once_the_columns_overrun(
    snap: SnapshotModel,
    ui: UiModel,
    window: Rect,
)
    requires
        layout::countable(snap, ui, window),
    ensures
        ({
            let l = layout::layout_of(snap, ui, window);
            l.strip_scrollbar is Some <==> l.columns.len() * (COLUMN_WIDTH + COL_GAP) + 2
                * STRIP_PAD > l.strip.w
        }),
{
}

/// The strip's slider lies against the left of its track at the first column and
/// against the right of it at the last.
pub proof fn the_slider_runs_from_end_to_end(
    snap: SnapshotModel,
    ui: UiModel,
    window: Rect,
)
    requires
        layout::countable(snap, ui, window),
        layout::layout_of(snap, ui, window).strip_scrollbar is Some,
    ensures
        ({
            let l = layout::layout_of(snap, ui, window);
            let bar = l.strip_scrollbar->Some_0;
            &&& ui.scroll_x == 0 ==> bar.slider.x == bar.track.x
            &&& ui.scroll_x == l.scroll_max_x ==> bar.slider.right_edge()
                == bar.track.right_edge()
        }),
{
    let l = layout::layout_of(snap, ui, window);
    let bar = l.strip_scrollbar->Some_0;
    let reach = layout::scroll_reach(l.strip, l.columns.len() as int);
    single::shares_run_from_nothing_to_all((bar.track.w - bar.slider.w) as nat, reach as nat);
}

/// Every row of the palette lies within its panel, under its search field.
pub proof fn palette_rows_stay_in_the_panel(palette: PaletteModel, content: Rect, k: int)
    requires
        layout::within(content, 0x200_0000),
        layout::palette_wf(palette),
        0 <= k < layout::palette_geom(palette, content).rows.len(),
    ensures
        ({
            let geom = layout::palette_geom(palette, content);
            let row = geom.rows[k];
            &&& geom.panel.x <= row.x && row.right_edge() <= geom.panel.right_edge()
            &&& geom.input.bottom_edge() <= row.y
            &&& row.bottom_edge() <= geom.panel.bottom_edge()
        }),
{
    let geom = layout::palette_geom(palette, content);
    let total = palette.rows.len() as int;
    let capacity = layout::palette_capacity(content, total);
    assert(geom.rows.len() == capacity);
    assert(geom.rows[k] == layout::palette_row(content, total > capacity, k));
    assert(0 < capacity <= 10);
}

/// The selected row is among the rows on show, at its own place in the list.
pub proof fn the_selected_row_is_on_show(palette: PaletteModel, content: Rect)
    requires
        layout::palette_wf(palette),
        palette.rows.len() > 0,
    ensures
        ({
            let geom = layout::palette_geom(palette, content);
            &&& geom.first_visible <= palette.selected
            &&& palette.selected < geom.first_visible + geom.rows.len()
            &&& geom.first_visible + geom.rows.len() <= palette.rows.len()
        }),
{
    let total = palette.rows.len() as int;
    let capacity = layout::palette_capacity(content, total);
    assert(layout::palette_geom(palette, content).rows.len() == capacity);
    assert(0 < capacity <= total);
}

/// The palette shows its scrollbar exactly when there are more rows than it
/// shows, and its rows give up its lane.
pub proof fn the_palette_bar_keeps_clear_of_the_rows(palette: PaletteModel, content: Rect, k: int)
    requires
        layout::within(content, 0x200_0000),
        layout::palette_wf(palette),
        0 <= k < layout::palette_geom(palette, content).rows.len(),
    ensures
        ({
            let geom = layout::palette_geom(palette, content);
            &&& geom.scrollbar is Some <==> palette.rows.len() > geom.rows.len()
            &&& geom.scrollbar is Some ==> geom.rows[k].right_edge()
                <= geom.scrollbar->Some_0.track.x
        }),
{
    let geom = layout::palette_geom(palette, content);
    let total = palette.rows.len() as int;
    let capacity = layout::palette_capacity(content, total);
    assert(geom.rows.len() == capacity);
    assert(geom.rows[k] == layout::palette_row(content, total > capacity, k));
}

// --- The profile menu ------------------------------------------------------------------------------

/// Every row of the profile menu, and the one that makes a new profile, lies
/// within its panel; they follow each other without overlapping, the rule
/// between the profiles and the last row.
pub proof fn menu_rows_stack_in_the_panel(rows: Seq<ProfileRowModel>, chip: Rect, k: int)
    requires
        layout::within(chip, 0x400_0000),
        rows.len() <= 0x10_0000,
        0 <= k < rows.len(),
    ensures
        ({
            let menu = layout::menu_geom(rows, chip);
            let row = menu.rows[k].rect;
            &&& menu.rows.len() == rows.len()
            &&& menu.panel.y <= row.y
            &&& row.bottom_edge() <= menu.separator.y
            &&& menu.separator.bottom_edge() == menu.create.y
            &&& menu.create.bottom_edge() <= menu.panel.bottom_edge()
            &&& k + 1 < rows.len() ==> menu.rows[k + 1].rect.y == row.bottom_edge()
        }),
{
    let menu = layout::menu_geom(rows, chip);
    let n = rows.len() as int;
    assert(menu.rows[k].rect == layout::menu_row(chip, k));
    assert((k + 1) * MENU_ROW_H == k * MENU_ROW_H + MENU_ROW_H);
    assert((n + 1) * MENU_ROW_H == n * MENU_ROW_H + MENU_ROW_H);
    assert((k + 1) * MENU_ROW_H <= n * MENU_ROW_H) by (nonlinear_arith)
        requires
            k + 1 <= n,
    ;
    assert(n * MENU_ROW_H <= 0x10_0000 * MENU_ROW_H) by (nonlinear_arith)
        requires
            n <= 0x10_0000,
    ;
    if k + 1 < n {
        assert(menu.rows[k + 1].rect == layout::menu_row(chip, k + 1));
    }
}

// --- Meter damage -----------------------------------------------------------------------------------

/// What a meter step can change is the part of a column's meter that shows in the
/// strip: nothing outside it, and nothing empty.
pub proof fn meter_damage_stays_in_the_strip(columns: Seq<ColumnModel>, strip: Rect, n: int, i: int)
    requires
        0 <= n <= columns.len(),
        0 <= i < layout::damage(columns, strip, n).len(),
    ensures
        exists|k: int|
            0 <= k < n && layout::damage(columns, strip, n)[i] == (
            #[trigger] columns[k]).meter.overlap(strip),
        !layout::damage(columns, strip, n)[i].empty(),
    decreases n,
{
    let before = layout::damage(columns, strip, n - 1);
    if i < before.len() {
        meter_damage_stays_in_the_strip(columns, strip, n - 1, i);
    } else {
        assert(layout::damage(columns, strip, n)[i] == columns[n - 1].meter.overlap(strip));
    }
}

/// Every meter that shows in the strip at all is part of the damage.
pub proof fn meter_damage_misses_no_meter(columns: Seq<ColumnModel>, strip: Rect, n: int, k: int)
    requires
        0 <= k < n <= columns.len(),
        !columns[k].meter.overlap(strip).empty(),
    ensures
        layout::damage(columns, strip, n).contains(columns[k].meter.overlap(strip)),
    decreases n,
{
    let all = layout::damage(columns, strip, n);
    let before = layout::damage(columns, strip, n - 1);
    if k == n - 1 {
        assert(all[before.len() as int] == columns[k].meter.overlap(strip));
    } else {
        meter_damage_misses_no_meter(columns, strip, n - 1, k);
        let i = choose|i: int|
            0 <= i < before.len() && before[i] == columns[k].meter.overlap(strip);
        assert(all[i] == before[i]);
    }
}

// --- Buttons ------------------------------------------------------------------------------

proof fn column_hits_are_there(
    specs: Seq<SpecModel>,
    strip: Rect,
    scroll_x: int,
    sinks: Seq<u32>,
    n: int,
    k: int,
    j: int,
)
    requires
        0 <= k < n <= specs.len(),
        0 <= j < layout::column_hits(
            specs[k],
            layout::column_slot(strip, scroll_x, k),
            sinks,
        ).len(),
    ensures
        layout::columns_hits(specs, strip, scroll_x, sinks, n).contains(
            layout::column_hits(specs[k], layout::column_slot(strip, scroll_x, k), sinks)[j],
        ),
    decreases n,
{
    let own = layout::column_hits(specs[k], layout::column_slot(strip, scroll_x, k), sinks);
    let before = layout::columns_hits(specs, strip, scroll_x, sinks, n - 1);
    let after = layout::columns_hits(specs, strip, scroll_x, sinks, n);
    if k == n - 1 {
        assert(after[before.len() + j] == own[j]);
    } else {
        column_hits_are_there(specs, strip, scroll_x, sinks, n - 1, k, j);
        let i = choose|i: int| 0 <= i < before.len() && before[i] == own[j];
        assert(after[i] == own[j]);
    }
}

proof fn columns_part_is_hit(snap: SnapshotModel, ui: UiModel, window: Rect, hit: HitModel)
    requires
        columns_part(snap, ui, window).contains(hit),
    ensures
        layout::layout_of(snap, ui, window).hits.contains(hit),
{
    let hits = layout::layout_of(snap, ui, window).hits;
    let chrome = chrome_part(ui, window);
    let columns = columns_part(snap, ui, window);
    parts(snap, ui, window);
    let i = choose|i: int| 0 <= i < columns.len() && columns[i] == hit;
    assert(hits[chrome.len() + i] == hit);
}

/// A column's buttons are where it shows them, and each is its own row's: its mute
/// button, its fader over the whole height of its track, a device's heading to make it
/// the default, and every pin for the output it stands for.
pub proof fn buttons_lie_where_they_are_shown(
    snap: SnapshotModel,
    ui: UiModel,
    window: Rect,
    k: int,
    t: int,
)
    requires
        0 <= k < layout::layout_of(snap, ui, window).columns.len(),
    ensures
        ({
            let l = layout::layout_of(snap, ui, window);
            let col = l.columns[k];
            &&& l.hits.contains(
                HitModel { rect: col.mute, target: HitTargetView::RowMute(col.id) },
            )
            &&& l.hits.contains(
                HitModel {
                    rect: Rect {
                        x: col.slider.thumb.x,
                        y: col.slider.track.y,
                        w: col.slider.thumb.w,
                        h: col.slider.track.h,
                    },
                    target: HitTargetView::RowSlider(col.id),
                },
            )
            &&& !col.is_app ==> l.hits.contains(
                HitModel { rect: col.name, target: HitTargetView::DeviceDefault(col.id) },
            )
            &&& 0 <= t < col.targets.len() ==> l.hits.contains(
                HitModel {
                    rect: col.targets[t].0,
                    target: HitTargetView::AppTarget { row: col.id, sink: col.targets[t].1 },
                },
            )
        }),
{
    reveal(columns_part);
    let l = layout::layout_of(snap, ui, window);
    let specs = layout::shown_specs(snap);
    let n = specs.len() as int;
    let strip = layout::frame_model(ui.chrome, ui.settings, window).strip;
    let sinks = layout::sink_ids(snap.sink_options);
    let slot = layout::column_slot(strip, ui.scroll_x as int, k);
    let own = layout::column_hits(specs[k], slot, sinks);
    let col = l.columns[k];
    assert(col == layout::column_model(specs[k], slot, sinks));
    let last = own.len() - 1;
    column_hits_are_there(specs, strip, ui.scroll_x as int, sinks, n, k, last);
    columns_part_is_hit(snap, ui, window, own[last]);
    column_hits_are_there(specs, strip, ui.scroll_x as int, sinks, n, k, 0);
    columns_part_is_hit(snap, ui, window, own[0]);
    if !col.is_app {
        column_hits_are_there(specs, strip, ui.scroll_x as int, sinks, n, k, 1);
        columns_part_is_hit(snap, ui, window, own[1]);
    } else if 0 <= t < col.targets.len() {
        let j = 1 + (sinks.len() - t);
        assert(own[j] == layout::pin_hits(specs[k].id, slot, sinks, sinks.len() as int + 1)[j - 1]);
        column_hits_are_there(specs, strip, ui.scroll_x as int, sinks, n, k, j);
        columns_part_is_hit(snap, ui, window, own[j]);
    }
}

/// What a point hits lies above everything else there: no hit laid out later holds the
/// point.
pub proof fn nothing_lies_above_what_is_hit(hits: Seq<HitModel>, x: int, y: int, i: int)
    requires
        0 <= i < hits.len(),
        hits[i].rect.covers(x, y),
        forall|j: int| i < j < hits.len() ==> !(#[trigger] hits[j]).rect.covers(x, y),
    ensures
        layout::topmost(hits, x, y, hits.len() as int) == Some(hits[i].target),
{
    uncovered_are_passed(hits, x, y, i, hits.len() as int);
}

proof fn uncovered_are_passed(hits: Seq<HitModel>, x: int, y: int, i: int, n: int)
    requires
        0 <= i < n <= hits.len(),
        hits[i].rect.covers(x, y),
        forall|j: int| i < j < hits.len() ==> !(#[trigger] hits[j]).rect.covers(x, y),
    ensures
        layout::topmost(hits, x, y, n) == Some(hits[i].target),
    decreases n,
{
    if n - 1 > i {
        uncovered_are_passed(hits, x, y, i, n - 1);
    }
}

/// The strip shows inputs, then outputs, then applications, each in its own order, and
/// leaves a section out that is not on show: every row of one that is has its column, and
/// there are no others.
pub proof fn the_strip_goes_inputs_outputs_apps(
    snap: SnapshotModel,
    ui: UiModel,
    window: Rect,
    i: int,
)
    ensures
        ({
            let columns = layout::layout_of(snap, ui, window).columns;
            let inputs = if snap.show_sources {
                snap.sources.len()
            } else {
                0
            };
            let outputs = if snap.show_sinks {
                snap.sinks.len()
            } else {
                0
            };
            let apps = if snap.show_apps {
                snap.app_rows.len()
            } else {
                0
            };
            &&& columns.len() == inputs + outputs + apps
            &&& 0 <= i < inputs ==> columns[i].id == snap.sources[i].id && !columns[i].is_app
            &&& 0 <= i < outputs ==> columns[inputs + i].id == snap.sinks[i].id
                && !columns[inputs + i].is_app
            &&& 0 <= i < apps ==> columns[inputs + outputs + i].id == snap.app_rows[i].id
                && columns[inputs + outputs + i].is_app
        }),
{
}

/// Whether some button of the toolbar is this one.
pub open spec fn in_toolbar(bar: Rect, cfg: Settings, target: HitTargetView) -> bool {
    exists|k: int|
        0 <= k < layout::bar_hits(bar, cfg).len() && (#[trigger] layout::bar_hits(bar, cfg)[k]).target
            == target
}

/// The toolbar has each button its settings show, and no other.
pub proof fn the_toolbar_has_the_buttons_on_show(bar: Rect, cfg: Settings)
    ensures
        in_toolbar(bar, cfg, HitTargetView::SectionFilter(Section::Inputs))
            == cfg.show_input_button,
        in_toolbar(bar, cfg, HitTargetView::SectionFilter(Section::Outputs))
            == cfg.show_output_button,
        in_toolbar(bar, cfg, HitTargetView::SectionFilter(Section::Apps)) == cfg.show_apps_button,
        in_toolbar(bar, cfg, HitTargetView::MuteAll) == cfg.show_mute_button,
        in_toolbar(bar, cfg, HitTargetView::ResetTargets) == cfg.show_reset_button,
{
    let filters = layout::filter_buttons(cfg);
    let hits = layout::bar_hits(bar, cfg);
    let inputs: int = if cfg.show_input_button {
        1
    } else {
        0
    };
    let outputs: int = if cfg.show_output_button {
        1
    } else {
        0
    };
    let mutes: int = if cfg.show_mute_button {
        1
    } else {
        0
    };
    let n = filters.len() as int;
    if cfg.show_input_button {
        assert(hits[0].target == HitTargetView::SectionFilter(Section::Inputs));
    }
    if cfg.show_output_button {
        assert(hits[inputs].target == HitTargetView::SectionFilter(Section::Outputs));
    }
    if cfg.show_apps_button {
        assert(hits[inputs + outputs].target == HitTargetView::SectionFilter(Section::Apps));
    }
    if cfg.show_mute_button {
        assert(hits[n].target == HitTargetView::MuteAll);
    }
    if cfg.show_reset_button {
        assert(hits[n + mutes].target == HitTargetView::ResetTargets);
    }
}

} // verus!
