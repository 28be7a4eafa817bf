//! Why repainting the meters alone is enough: what a point of the frame shows
//! after a step of the meters is what a full repaint would put there.

use crate::domain::Gain;
use crate::render::paint;
use crate::render::paint::{MarkView, RowDrawModel};
use crate::render::primitives::Rect;
use crate::ui::layout;
use crate::ui::layout::{ColumnModel, LayoutModel};
use crate::ui::layout_laws;
use crate::ui::meter;
use crate::ui::theme::Palette;
use crate::ui::UiModel;
use crate::view::snapshot::{SinkOptionModel, SnapshotModel};
use vstd::prelude::*;

verus! {

// --- What a point shows ---------------------------------------------------------------

/// Whether a mark may ink a point. Only of plain rectangles it is known where
/// they end; any other mark counts as reaching everywhere.
pub open spec fn reaches(m: MarkView, x: int, y: int) -> bool {
    match m {
        MarkView::Fill { rect, .. } => rect.covers(x, y),
        MarkView::Level { rect, .. } => rect.covers(x, y),
        _ => true,
    }
}

/// Whether a point is inside all the clips that are open, each said to hold it
/// or not.
pub open spec fn clear(open: Seq<bool>) -> bool {
    forall|i: int| 0 <= i < open.len() ==> #[trigger] open[i]
}

/// The marks that may ink a point, in the order they are drawn, with some clips
/// already open.
pub open spec fn seen(list: Seq<MarkView>, x: int, y: int, open: Seq<bool>) -> Seq<MarkView>
    decreases list.len(),
{
    if list.len() == 0 {
        Seq::empty()
    } else {
        let rest = list.drop_first();
        match list[0] {
            MarkView::Clip(r) => seen(rest, x, y, open.push(r.covers(x, y))),
            MarkView::Unclip => seen(rest, x, y, open.drop_last()),
            m => if clear(open) && reaches(m, x, y) {
                seq![m] + seen(rest, x, y, open)
            } else {
                seen(rest, x, y, open)
            },
        }
    }
}

/// The clips that are open once marks are drawn.
pub open spec fn left_open(list: Seq<MarkView>, x: int, y: int, open: Seq<bool>) -> Seq<bool>
    decreases list.len(),
{
    if list.len() == 0 {
        open
    } else {
        let rest = list.drop_first();
        match list[0] {
            MarkView::Clip(r) => left_open(rest, x, y, open.push(r.covers(x, y))),
            MarkView::Unclip => left_open(rest, x, y, open.drop_last()),
            _ => left_open(rest, x, y, open),
        }
    }
}

/// A list over and over.
pub open spec fn times(list: Seq<MarkView>, n: nat) -> Seq<MarkView>
    decreases n,
{
    if n == 0 {
        Seq::empty()
    } else {
        times(list, (n - 1) as nat) + list
    }
}

/// How many of the first `n` rectangles hold a point.
pub open spec fn covering(rects: Seq<Rect>, x: int, y: int, n: int) -> nat
    decreases n,
{
    if n <= 0 {
        0
    } else if rects[n - 1].covers(x, y) {
        covering(rects, x, y, n - 1) + 1
    } else {
        covering(rects, x, y, n - 1)
    }
}

/// A column's meter has room for its bars: three rows for a cell, and a pixel
/// for each bar and each gap.
pub open spec fn meter_fits(col: ColumnModel, ui: UiModel) -> bool {
    let n = meter::bars(ui.meters, col.id).len();
    &&& paint::near(col.meter)
    &&& 3 <= col.meter.h
    &&& 3 <= col.meter.w
    &&& 2 * n - 1 <= col.meter.w
}

pub open spec fn meters_fit(columns: Seq<ColumnModel>, ui: UiModel) -> bool {
    forall|k: int| 0 <= k < columns.len() ==> meter_fits(#[trigger] columns[k], ui)
}

proof fn seen_both(a: Seq<MarkView>, b: Seq<MarkView>, x: int, y: int, open: Seq<bool>)
    ensures
        seen(a + b, x, y, open) == seen(a, x, y, open) + seen(b, x, y, left_open(a, x, y, open)),
        left_open(a + b, x, y, open) == left_open(b, x, y, left_open(a, x, y, open)),
    decreases a.len(),
{
    if a.len() == 0 {
        assert(a + b =~= b);
        assert(seen(a, x, y, open) + seen(b, x, y, open) =~= seen(b, x, y, open));
    } else {
        let rest = a.drop_first();
        assert((a + b).drop_first() =~= rest + b);
        assert((a + b)[0] == a[0]);
        match a[0] {
            MarkView::Clip(r) => seen_both(rest, b, x, y, open.push(r.covers(x, y))),
            MarkView::Unclip => seen_both(rest, b, x, y, open.drop_last()),
            m => {
                seen_both(rest, b, x, y, open);
                let tail = seen(b, x, y, left_open(rest, x, y, open));
                assert((seq![m] + seen(rest, x, y, open)) + tail =~= seq![m] + (seen(
                    rest,
                    x,
                    y,
                    open,
                ) + tail));
            },
        }
    }
}

// --- Marks that open and close no clip ------------------------------------------------

/// Marks that neither open nor close a clip.
spec fn plain(list: Seq<MarkView>) -> bool {
    forall|i: int| 0 <= i < list.len() ==> !((#[trigger] list[i]) is Clip) && !(list[i] is Unclip)
}

proof fn plain_keeps(list: Seq<MarkView>, x: int, y: int, open: Seq<bool>)
    requires
        plain(list),
    ensures
        left_open(list, x, y, open) == open,
        !clear(open) ==> seen(list, x, y, open) == Seq::<MarkView>::empty(),
    decreases list.len(),
{
    if list.len() > 0 {
        let rest = list.drop_first();
        assert forall|i: int| 0 <= i < rest.len() implies !((#[trigger] rest[i]) is Clip) && !(
        rest[i] is Unclip) by {
            assert(rest[i] == list[i + 1]);
        }
        assert(!(list[0] is Clip) && !(list[0] is Unclip));
        plain_keeps(rest, x, y, open);
    }
}

/// Of the clips open around plain marks only this matters: whether a point is in
/// all of them.
proof fn plain_alike(list: Seq<MarkView>, x: int, y: int, a: Seq<bool>, b: Seq<bool>)
    requires
        plain(list),
        clear(a) == clear(b),
    ensures
        seen(list, x, y, a) == seen(list, x, y, b),
    decreases list.len(),
{
    if list.len() > 0 {
        let rest = list.drop_first();
        assert forall|i: int| 0 <= i < rest.len() implies !((#[trigger] rest[i]) is Clip) && !(
        rest[i] is Unclip) by {
            assert(rest[i] == list[i + 1]);
        }
        assert(!(list[0] is Clip) && !(list[0] is Unclip));
        plain_alike(rest, x, y, a, b);
    }
}

broadcast proof fn plain_both(a: Seq<MarkView>, b: Seq<MarkView>)
    requires
        plain(a),
        plain(b),
    ensures
        #[trigger] plain(a + b),
{
    assert forall|i: int| 0 <= i < (a + b).len() implies !((#[trigger] (a + b)[i]) is Clip) && !(
    (a + b)[i] is Unclip) by {
        if i < a.len() {
            assert((a + b)[i] == a[i]);
        } else {
            assert((a + b)[i] == b[i - a.len()]);
        }
    }
}

broadcast proof fn plain_push(a: Seq<MarkView>, m: MarkView)
    requires
        plain(a),
        !(m is Clip),
        !(m is Unclip),
    ensures
        #[trigger] plain(a.push(m)),
{
}

proof fn titlebar_plain(layout: LayoutModel, ui: UiModel, p: Palette)
    ensures
        layout.titlebar matches Some(bar) ==> plain(paint::titlebar_marks(bar, ui, p)),
{
    broadcast use plain_both;

}

proof fn hits_plain(layout: LayoutModel, snap: SnapshotModel, ui: UiModel, p: Palette, n: int)
    ensures
        plain(paint::hits_marks(layout.hits, snap, ui, p, n)),
    decreases n,
{
    broadcast use {plain_both, plain_push};

    if n > 0 {
        hits_plain(layout, snap, ui, p, n - 1);
        assert(plain(paint::hit_marks(layout.hits[n - 1], snap, ui, p)));
    }
}

proof fn chrome_plain(layout: LayoutModel, snap: SnapshotModel, ui: UiModel, p: Palette)
    ensures
        plain(paint::chrome_marks(layout, snap, ui, p)),
{
    broadcast use plain_both;

    hits_plain(layout, snap, ui, p, layout.hits.len() as int);
    assert(plain(paint::backing_marks(layout, p)));
}

proof fn cells_plain(area: Rect, x: int, w: int, peak: Gain, total: int, p: Palette, k: int)
    ensures
        plain(paint::cells_marks(area, x, w, peak, total, p, k)),
    decreases k,
{
    broadcast use plain_both;

    if k > 0 {
        cells_plain(area, x, w, peak, total, p, k - 1);
    }
}

proof fn bars_plain(area: Rect, channels: Seq<Gain>, n: int, p: Palette, b: int)
    ensures
        plain(paint::bars_marks(area, channels, n, p, b)),
    decreases b,
{
    broadcast use plain_both;

    if b > 0 {
        bars_plain(area, channels, n, p, b - 1);
        let w = paint::bar_width(area.w as int, n);
        let total = meter::cells(area.h as int);
        cells_plain(
            area,
            area.x + (b - 1) * (w + 1),
            w,
            paint::peak_of(channels, b - 1),
            total,
            p,
            total,
        );
    }
}

proof fn pins_plain(
    col: ColumnModel,
    row: RowDrawModel,
    ui: UiModel,
    sinks: Seq<SinkOptionModel>,
    p: Palette,
    n: int,
)
    ensures
        plain(paint::pins_marks(col, row, ui, sinks, p, n)),
    decreases n,
{
    broadcast use {plain_both, plain_push};

    if n > 0 {
        pins_plain(col, row, ui, sinks, p, n - 1);
        assert(plain(paint::pin_marks(col, row, ui, sinks, p, n - 1)));
    }
}

proof fn commands_plain(
    geom: layout::PaletteGeomModel,
    snap: SnapshotModel,
    ui: UiModel,
    p: Palette,
    n: int,
)
    ensures
        plain(paint::commands_marks(geom, snap, ui, p, n)),
    decreases n,
{
    broadcast use {plain_both, plain_push};

    if n > 0 {
        commands_plain(geom, snap, ui, p, n - 1);
        assert(plain(paint::command_marks(geom, snap, ui, p, n - 1)));
    }
}

proof fn profiles_plain(rows: Seq<layout::ProfileRowGeomModel>, ui: UiModel, p: Palette, n: int)
    ensures
        plain(paint::profiles_marks(rows, ui, p, n)),
    decreases n,
{
    broadcast use {plain_both, plain_push};

    if n > 0 {
        profiles_plain(rows, ui, p, n - 1);
        assert(plain(paint::profile_marks(rows[n - 1], ui, p)));
    }
}

proof fn over_plain(layout: LayoutModel, snap: SnapshotModel, ui: UiModel, p: Palette)
    ensures
        plain(paint::over_marks(layout, snap, ui, p)),
{
    broadcast use {plain_both, plain_push};

    if let Some(menu) = layout.profile_menu {
        profiles_plain(menu.rows, ui, p, menu.rows.len() as int);
        assert(plain(paint::menu_marks(menu, ui, p)));
    }
    if let Some(geom) = layout.palette {
        commands_plain(geom, snap, ui, p, geom.rows.len() as int);
        assert(plain(paint::search_marks(geom, layout.content, snap, ui, p)));
        assert(plain(paint::palette_marks(geom, layout.content, snap, ui, p)));
    }
    if snap.modal is Some && layout.modal is Some {
        let (view, geom) = (snap.modal->Some_0, layout.modal->Some_0);
        assert(plain(paint::modal_words(view, geom, ui, p)));
        assert(plain(paint::modal_marks(view, geom, layout.content, ui, p)));
    }
}

// --- A column -------------------------------------------------------------------------

/// What a column draws under its meter.
spec fn under_meter(col: ColumnModel, row: RowDrawModel, p: Palette) -> Seq<MarkView> {
    paint::marks_if(
        col.id is AppMember,
        seq![MarkView::Fill { rect: col.rect, color: p.wash_4 }],
    ) + (if row.is_app {
        paint::app_header(col, row, p)
    } else {
        paint::device_header(col, row, p)
    })
}

/// What a column draws over its meter.
spec fn over_meter(
    col: ColumnModel,
    row: RowDrawModel,
    ui: UiModel,
    sinks: Seq<SinkOptionModel>,
    p: Palette,
) -> Seq<MarkView> {
    paint::slider_marks(col.slider, row.warning, ui.halo.strength(col.id), p) + (seq![
        paint::readout_mark(col, row, p),
    ] + (paint::buttons_marks(col, row, ui, sinks, p) + seq![
        MarkView::Fill { rect: col.separator, color: p.wash_6 },
    ]))
}

proof fn column_parts(
    col: ColumnModel,
    row: RowDrawModel,
    ui: UiModel,
    sinks: Seq<SinkOptionModel>,
    p: Palette,
)
    ensures
        paint::column_marks(col, row, ui, sinks, p) == under_meter(col, row, p) + (
        paint::meter_marks(col.meter, meter::bars(ui.meters, col.id), p) + over_meter(
            col,
            row,
            ui,
            sinks,
            p,
        )),
{
    let a = under_meter(col, row, p);
    let b = paint::meter_marks(col.meter, meter::bars(ui.meters, col.id), p);
    let c = paint::slider_marks(col.slider, row.warning, ui.halo.strength(col.id), p);
    let d = seq![paint::readout_mark(col, row, p)];
    let e = paint::buttons_marks(col, row, ui, sinks, p);
    let f = seq![MarkView::Fill { rect: col.separator, color: p.wash_6 }];
    assert(a + b + c + d + e + f =~= a + (b + (c + (d + (e + f)))));
}

proof fn column_plain(
    col: ColumnModel,
    row: RowDrawModel,
    ui: UiModel,
    sinks: Seq<SinkOptionModel>,
    p: Palette,
)
    ensures
        plain(paint::column_marks(col, row, ui, sinks, p)),
        plain(under_meter(col, row, p)),
        plain(paint::meter_marks(col.meter, meter::bars(ui.meters, col.id), p)),
{
    broadcast use {plain_both, plain_push};

    let channels = meter::bars(ui.meters, col.id);
    let n = if channels.len() == 0 {
        meter::ASSUMED_CHANNELS as int
    } else {
        channels.len() as int
    };
    bars_plain(col.meter, channels, n, p, n);
    pins_plain(col, row, ui, sinks, p, col.targets.len() as int);
    assert(plain(paint::expand_marks(col, row, ui, p)));
    assert(plain(paint::mute_marks(col, row, ui, p)));
    assert(plain(paint::buttons_marks(col, row, ui, sinks, p)));
    let strength = ui.halo.strength(col.id);
    assert(plain(paint::halo_marks(col.slider.thumb, strength, p)));
    assert(plain(paint::slider_marks(col.slider, row.warning, strength, p)));
    assert(plain(under_meter(col, row, p)));
    assert(plain(over_meter(col, row, ui, sinks, p)));
    column_parts(col, row, ui, sinks, p);
}

/// What a column draws over its meter rests on nothing the meters read.
proof fn over_meter_keeps(
    col: ColumnModel,
    row: RowDrawModel,
    a: UiModel,
    b: UiModel,
    sinks: Seq<SinkOptionModel>,
    p: Palette,
)
    requires
        a.hover == b.hover,
        a.halo == b.halo,
    ensures
        over_meter(col, row, a, sinks, p) == over_meter(col, row, b, sinks, p),
{
    pins_keep(col, row, a, b, sinks, p, col.targets.len() as int);
}

proof fn pins_keep(
    col: ColumnModel,
    row: RowDrawModel,
    a: UiModel,
    b: UiModel,
    sinks: Seq<SinkOptionModel>,
    p: Palette,
    n: int,
)
    requires
        a.hover == b.hover,
    ensures
        paint::pins_marks(col, row, a, sinks, p, n) == paint::pins_marks(col, row, b, sinks, p, n),
    decreases n,
{
    if n > 0 {
        pins_keep(col, row, a, b, sinks, p, n - 1);
    }
}

/// A bar inks nothing outside its meter.
proof fn cells_stay_in(
    area: Rect,
    at: int,
    w: int,
    peak: Gain,
    total: int,
    p: Palette,
    k: int,
    x: int,
    y: int,
    open: Seq<bool>,
)
    requires
        paint::near(area),
        !area.covers(x, y),
        area.x <= at,
        0 <= w,
        at + w <= area.right_edge(),
        0 <= k,
        k > 0 ==> 4 * k - 1 <= area.h,
    ensures
        seen(paint::cells_marks(area, at, w, peak, total, p, k), x, y, open) == Seq::<
            MarkView,
        >::empty(),
    decreases k,
{
    if k > 0 {
        cells_stay_in(area, at, w, peak, total, p, k - 1, x, y, open);
        cells_plain(area, at, w, peak, total, p, k - 1);
        let before = paint::cells_marks(area, at, w, peak, total, p, k - 1);
        let rect = paint::cell(area, at, w, k - 1);
        let fill = MarkView::Fill { rect, color: p.dim_grid };
        let level = MarkView::Level {
            rect,
            peak,
            index: (k - 1) as i32,
            total: total as i32,
            color: paint::tier_ink(meter::tier(k - 1, total), p),
        };
        let two = seq![fill, level];
        plain_keeps(before, x, y, open);
        seen_both(before, two, x, y, open);
        assert(!rect.covers(x, y));
        assert(two.drop_first() =~= seq![level]);
        assert(seq![level].drop_first() =~= Seq::empty());
        reveal_with_fuel(seen, 3);
        assert(seen(two, x, y, open) =~= Seq::empty());
    }
}

proof fn bar_fits(w: int, n: int, b: int)
    requires
        0 <= b < n,
        2 * n - 1 <= w,
    ensures
        ({
            let bar = paint::bar_width(w, n);
            &&& 1 <= bar
            &&& 0 <= b * (bar + 1)
            &&& b * (bar + 1) + bar <= w
        }),
{
    let bar = (w - (n - 1)) / n;
    vstd::arithmetic::div_mod::lemma_fundamental_div_mod(w - (n - 1), n);
    assert(1 <= bar) by (nonlinear_arith)
        requires
            w - (n - 1) == n * bar + (w - (n - 1)) % n,
            0 <= (w - (n - 1)) % n < n,
            n <= w - (n - 1),
            0 < n,
    ;
    assert(b * (bar + 1) + bar <= w && 0 <= b * (bar + 1)) by (nonlinear_arith)
        requires
            0 <= b <= n - 1,
            1 <= bar,
            n * bar <= w - (n - 1),
    ;
}

/// A meter inks nothing outside its rectangle.
proof fn bars_stay_in(
    area: Rect,
    channels: Seq<Gain>,
    n: int,
    p: Palette,
    b: int,
    x: int,
    y: int,
    open: Seq<bool>,
)
    requires
        paint::near(area),
        !area.covers(x, y),
        3 <= area.h,
        0 < n,
        2 * n - 1 <= area.w,
        b <= n,
    ensures
        seen(paint::bars_marks(area, channels, n, p, b), x, y, open) == Seq::<MarkView>::empty(),
    decreases b,
{
    if b > 0 {
        bars_stay_in(area, channels, n, p, b - 1, x, y, open);
        bars_plain(area, channels, n, p, b - 1);
        let w = paint::bar_width(area.w as int, n);
        let total = meter::cells(area.h as int);
        let before = paint::bars_marks(area, channels, n, p, b - 1);
        let at = area.x + (b - 1) * (w + 1);
        let peak = paint::peak_of(channels, b - 1);
        bar_fits(area.w as int, n, b - 1);
        cells_stay_in(area, at, w, peak, total, p, total, x, y, open);
        plain_keeps(before, x, y, open);
        seen_both(before, paint::cells_marks(area, at, w, peak, total, p, total), x, y, open);
    }
}

/// Outside its meter a column shows the same whatever its meter reads.
proof fn column_keeps(
    col: ColumnModel,
    row: RowDrawModel,
    a: UiModel,
    b: UiModel,
    sinks: Seq<SinkOptionModel>,
    p: Palette,
    x: int,
    y: int,
    open: Seq<bool>,
)
    requires
        a.hover == b.hover,
        a.halo == b.halo,
        meter_fits(col, a),
        meter_fits(col, b),
        clear(open) ==> !col.meter.covers(x, y),
    ensures
        seen(paint::column_marks(col, row, a, sinks, p), x, y, open) == seen(
            paint::column_marks(col, row, b, sinks, p),
            x,
            y,
            open,
        ),
{
    column_plain(col, row, a, sinks, p);
    column_plain(col, row, b, sinks, p);
    if clear(open) {
        over_meter_keeps(col, row, a, b, sinks, p);
        column_without_meter(col, row, a, sinks, p, x, y, open);
        column_without_meter(col, row, b, sinks, p, x, y, open);
    } else {
        plain_keeps(paint::column_marks(col, row, a, sinks, p), x, y, open);
        plain_keeps(paint::column_marks(col, row, b, sinks, p), x, y, open);
    }
}

proof fn column_without_meter(
    col: ColumnModel,
    row: RowDrawModel,
    ui: UiModel,
    sinks: Seq<SinkOptionModel>,
    p: Palette,
    x: int,
    y: int,
    open: Seq<bool>,
)
    requires
        meter_fits(col, ui),
        !col.meter.covers(x, y),
    ensures
        seen(paint::column_marks(col, row, ui, sinks, p), x, y, open) == seen(
            under_meter(col, row, p),
            x,
            y,
            open,
        ) + seen(over_meter(col, row, ui, sinks, p), x, y, open),
{
    let channels = meter::bars(ui.meters, col.id);
    let n = if channels.len() == 0 {
        meter::ASSUMED_CHANNELS as int
    } else {
        channels.len() as int
    };
    let under = under_meter(col, row, p);
    let bars = paint::meter_marks(col.meter, channels, p);
    let over = over_meter(col, row, ui, sinks, p);
    column_parts(col, row, ui, sinks, p);
    column_plain(col, row, ui, sinks, p);
    bars_stay_in(col.meter, channels, n, p, n, x, y, open);
    plain_keeps(under, x, y, open);
    plain_keeps(bars, x, y, open);
    seen_both(under, bars + over, x, y, open);
    seen_both(bars, over, x, y, open);
    assert(seen(bars + over, x, y, open) =~= seen(over, x, y, open));
}

proof fn columns_plain(
    columns: Seq<ColumnModel>,
    snap: SnapshotModel,
    ui: UiModel,
    p: Palette,
    n: int,
)
    ensures
        plain(paint::columns_marks(columns, snap, ui, p, n)),
    decreases n,
{
    broadcast use plain_both;

    if n > 0 {
        columns_plain(columns, snap, ui, p, n - 1);
        if let Some(row) = paint::draw_of(snap, columns[n - 1].id) {
            column_plain(columns[n - 1], row, ui, snap.sink_options, p);
        }
    }
}

proof fn columns_keep(
    columns: Seq<ColumnModel>,
    snap: SnapshotModel,
    a: UiModel,
    b: UiModel,
    p: Palette,
    n: int,
    x: int,
    y: int,
    open: Seq<bool>,
)
    requires
        a.hover == b.hover,
        a.halo == b.halo,
        n <= columns.len(),
        meters_fit(columns, a),
        meters_fit(columns, b),
        clear(open) ==> forall|k: int|
            0 <= k < columns.len() ==> !(#[trigger] columns[k]).meter.covers(x, y),
    ensures
        seen(paint::columns_marks(columns, snap, a, p, n), x, y, open) == seen(
            paint::columns_marks(columns, snap, b, p, n),
            x,
            y,
            open,
        ),
    decreases n,
{
    if n > 0 {
        columns_keep(columns, snap, a, b, p, n - 1, x, y, open);
        columns_plain(columns, snap, a, p, n - 1);
        columns_plain(columns, snap, b, p, n - 1);
        let (ca, cb) = (
            paint::columns_marks(columns, snap, a, p, n - 1),
            paint::columns_marks(columns, snap, b, p, n - 1),
        );
        plain_keeps(ca, x, y, open);
        plain_keeps(cb, x, y, open);
        let col = columns[n - 1];
        assert(meter_fits(col, a) && meter_fits(col, b));
        match paint::draw_of(snap, col.id) {
            Some(row) => {
                column_keeps(col, row, a, b, snap.sink_options, p, x, y, open);
                seen_both(ca, paint::column_marks(col, row, a, snap.sink_options, p), x, y, open);
                seen_both(cb, paint::column_marks(col, row, b, snap.sink_options, p), x, y, open);
            },
            None => {
                assert(ca + Seq::<MarkView>::empty() =~= ca);
                assert(cb + Seq::<MarkView>::empty() =~= cb);
            },
        }
    }
}

// --- The frame ------------------------------------------------------------------------

/// What a frame draws under its columns.
spec fn under_columns(
    bounds: Rect,
    layout: LayoutModel,
    snap: SnapshotModel,
    ui: UiModel,
    p: Palette,
) -> Seq<MarkView> {
    seq![MarkView::Fill { rect: bounds, color: p.bg }] + (match layout.titlebar {
        Some(bar) => paint::titlebar_marks(bar, ui, p),
        None => Seq::empty(),
    }) + paint::chrome_marks(layout, snap, ui, p)
}

/// What a frame draws over its columns.
spec fn over_columns(layout: LayoutModel, snap: SnapshotModel, ui: UiModel, p: Palette) -> Seq<
    MarkView,
> {
    paint::bar_marks(layout, ui, p) + (paint::over_marks(layout, snap, ui, p) + paint::marks_if(
        ui.settings.show_window_border,
        seq![MarkView::Border { rect: layout.window, color: p.border }],
    ))
}

/// What a frame draws of its columns.
spec fn of_columns(layout: LayoutModel, snap: SnapshotModel, ui: UiModel, p: Palette) -> Seq<
    MarkView,
> {
    paint::columns_marks(layout.columns, snap, ui, p, layout.columns.len() as int)
}

proof fn frame_parts(
    bounds: Rect,
    layout: LayoutModel,
    snap: SnapshotModel,
    ui: UiModel,
    p: Palette,
)
    ensures
        paint::frame_marks(bounds, layout, snap, ui, p) == under_columns(
            bounds,
            layout,
            snap,
            ui,
            p,
        ) + (seq![MarkView::Clip(layout.strip)] + (of_columns(layout, snap, ui, p) + (seq![
            MarkView::Unclip,
        ] + over_columns(layout, snap, ui, p)))),
{
    let a = under_columns(bounds, layout, snap, ui, p);
    let b = seq![MarkView::Clip(layout.strip)];
    let c = of_columns(layout, snap, ui, p);
    let d = seq![MarkView::Unclip];
    let e = paint::bar_marks(layout, ui, p);
    let f = paint::over_marks(layout, snap, ui, p);
    let g = paint::marks_if(
        ui.settings.show_window_border,
        seq![MarkView::Border { rect: layout.window, color: p.border }],
    );
    assert(a + b + c + d + e + f + g =~= a + (b + (c + (d + (e + (f + g))))));
}

proof fn frame_plain(
    bounds: Rect,
    layout: LayoutModel,
    snap: SnapshotModel,
    ui: UiModel,
    p: Palette,
)
    ensures
        plain(under_columns(bounds, layout, snap, ui, p)),
        plain(of_columns(layout, snap, ui, p)),
        plain(over_columns(layout, snap, ui, p)),
{
    broadcast use plain_both;

    titlebar_plain(layout, ui, p);
    chrome_plain(layout, snap, ui, p);
    columns_plain(layout.columns, snap, ui, p, layout.columns.len() as int);
    over_plain(layout, snap, ui, p);
    assert(plain(paint::bar_marks(layout, ui, p)));
}

/// What a point of a frame shows, part by part; the frame leaves the clips as it
/// found them.
proof fn frame_seen(
    bounds: Rect,
    layout: LayoutModel,
    snap: SnapshotModel,
    ui: UiModel,
    p: Palette,
    x: int,
    y: int,
    open: Seq<bool>,
)
    ensures
        left_open(paint::frame_marks(bounds, layout, snap, ui, p), x, y, open) == open,
        seen(paint::frame_marks(bounds, layout, snap, ui, p), x, y, open) == seen(
            under_columns(bounds, layout, snap, ui, p),
            x,
            y,
            open,
        ) + (seen(
            of_columns(layout, snap, ui, p),
            x,
            y,
            open.push(layout.strip.covers(x, y)),
        ) + seen(over_columns(layout, snap, ui, p), x, y, open)),
        !clear(open) ==> seen(paint::frame_marks(bounds, layout, snap, ui, p), x, y, open)
            == Seq::<MarkView>::empty(),
{
    let a = under_columns(bounds, layout, snap, ui, p);
    let b = seq![MarkView::Clip(layout.strip)];
    let c = of_columns(layout, snap, ui, p);
    let d = seq![MarkView::Unclip];
    let e = over_columns(layout, snap, ui, p);
    let inner = open.push(layout.strip.covers(x, y));
    frame_parts(bounds, layout, snap, ui, p);
    frame_plain(bounds, layout, snap, ui, p);
    seen_both(a, b + (c + (d + e)), x, y, open);
    seen_both(b, c + (d + e), x, y, open);
    seen_both(c, d + e, x, y, inner);
    seen_both(d, e, x, y, inner);
    plain_keeps(a, x, y, open);
    plain_keeps(c, x, y, inner);
    plain_keeps(e, x, y, open);
    reveal_with_fuel(seen, 2);
    reveal_with_fuel(left_open, 2);
    assert(b.drop_first() =~= Seq::empty());
    assert(d.drop_first() =~= Seq::empty());
    assert(inner.drop_last() =~= open);
    assert(seen(b + (c + (d + e)), x, y, open) =~= seen(c, x, y, inner) + seen(e, x, y, open));
    if !clear(open) {
        let i = choose|i: int| 0 <= i < open.len() && !(#[trigger] open[i]);
        assert(!inner[i]);
        assert(!clear(inner));
    }
}

proof fn hits_keep(
    hits: Seq<layout::HitModel>,
    snap: SnapshotModel,
    a: UiModel,
    b: UiModel,
    p: Palette,
    n: int,
)
    requires
        a.hover == b.hover,
    ensures
        paint::hits_marks(hits, snap, a, p, n) == paint::hits_marks(hits, snap, b, p, n),
    decreases n,
{
    if n > 0 {
        hits_keep(hits, snap, a, b, p, n - 1);
    }
}

proof fn commands_keep(
    geom: layout::PaletteGeomModel,
    snap: SnapshotModel,
    a: UiModel,
    b: UiModel,
    p: Palette,
    n: int,
)
    requires
        a.hover == b.hover,
    ensures
        paint::commands_marks(geom, snap, a, p, n) == paint::commands_marks(geom, snap, b, p, n),
    decreases n,
{
    if n > 0 {
        commands_keep(geom, snap, a, b, p, n - 1);
    }
}

proof fn profiles_keep(
    rows: Seq<layout::ProfileRowGeomModel>,
    a: UiModel,
    b: UiModel,
    p: Palette,
    n: int,
)
    requires
        a.hover == b.hover,
    ensures
        paint::profiles_marks(rows, a, p, n) == paint::profiles_marks(rows, b, p, n),
    decreases n,
{
    if n > 0 {
        profiles_keep(rows, a, b, p, n - 1);
    }
}

/// Nothing around the columns rests on what the meters read.
proof fn surroundings_keep(
    bounds: Rect,
    layout: LayoutModel,
    snap: SnapshotModel,
    a: UiModel,
    b: UiModel,
    p: Palette,
)
    requires
        b == (UiModel { meters: b.meters, dirty: b.dirty, ..a }),
    ensures
        under_columns(bounds, layout, snap, a, p) == under_columns(bounds, layout, snap, b, p),
        over_columns(layout, snap, a, p) == over_columns(layout, snap, b, p),
{
    hits_keep(layout.hits, snap, a, b, p, layout.hits.len() as int);
    if let Some(menu) = layout.profile_menu {
        profiles_keep(menu.rows, a, b, p, menu.rows.len() as int);
    }
    if let Some(geom) = layout.palette {
        commands_keep(geom, snap, a, b, p, geom.rows.len() as int);
    }
}

/// A point no damaged rectangle holds is in no meter, or outside the strip.
proof fn undamaged(layout: LayoutModel, x: int, y: int, k: int)
    requires
        0 <= k < layout.columns.len(),
        paint::near(layout.columns[k].meter),
        paint::near(layout.strip),
        layout.strip.covers(x, y),
        ({
            let damage = layout::damage(
                layout.columns,
                layout.strip,
                layout.columns.len() as int,
            );
            covering(damage, x, y, damage.len() as int) == 0
        }),
    ensures
        !layout.columns[k].meter.covers(x, y),
{
    let n = layout.columns.len() as int;
    let damage = layout::damage(layout.columns, layout.strip, n);
    let both = layout.columns[k].meter.overlap(layout.strip);
    if layout.columns[k].meter.covers(x, y) {
        assert(both.covers(x, y));
        layout_laws::meter_damage_misses_no_meter(layout.columns, layout.strip, n, k);
        let i = choose|i: int| 0 <= i < damage.len() && damage[i] == both;
        some_cover(damage, x, y, damage.len() as int, i);
    }
}

proof fn some_cover(rects: Seq<Rect>, x: int, y: int, n: int, i: int)
    requires
        0 <= i < n <= rects.len(),
        rects[i].covers(x, y),
    ensures
        covering(rects, x, y, n) > 0,
    decreases n,
{
    if i < n - 1 {
        some_cover(rects, x, y, n - 1, i);
    }
}

/// What repainting the first `n` damaged rectangles puts on a point.
proof fn repaint_seen(
    bounds: Rect,
    layout: LayoutModel,
    snap: SnapshotModel,
    ui: UiModel,
    p: Palette,
    damage: Seq<Rect>,
    n: int,
    x: int,
    y: int,
)
    ensures
        ({
            let list = paint::meters_marks(bounds, layout, snap, ui, p, damage, n);
            let none = Seq::<bool>::empty();
            let frame = seen(paint::frame_marks(bounds, layout, snap, ui, p), x, y, none);
            &&& left_open(list, x, y, none) == none
            &&& seen(list, x, y, none) == times(frame, covering(damage, x, y, n))
        }),
    decreases n,
{
    let none = Seq::<bool>::empty();
    if n > 0 {
        repaint_seen(bounds, layout, snap, ui, p, damage, n - 1, x, y);
        let before = paint::meters_marks(bounds, layout, snap, ui, p, damage, n - 1);
        let a = seq![MarkView::Clip(damage[n - 1])];
        let frame = paint::frame_marks(bounds, layout, snap, ui, p);
        let b = seq![MarkView::Unclip];
        let held = damage[n - 1].covers(x, y);
        let inner = none.push(held);
        assert(before + a + frame + b =~= before + (a + (frame + b)));
        seen_both(before, a + (frame + b), x, y, none);
        seen_both(a, frame + b, x, y, none);
        seen_both(frame, b, x, y, inner);
        frame_seen(bounds, layout, snap, ui, p, x, y, inner);
        frame_seen(bounds, layout, snap, ui, p, x, y, none);
        reveal_with_fuel(seen, 2);
        reveal_with_fuel(left_open, 2);
        assert(a.drop_first() =~= Seq::empty());
        assert(b.drop_first() =~= Seq::empty());
        assert(inner.drop_last() =~= none);
        if held {
            assert(inner =~= seq![true]);
            held_frame(bounds, layout, snap, ui, p, x, y);
        } else {
            assert(!inner[0]);
        }
        assert(seen(a + (frame + b), x, y, none) =~= seen(frame, x, y, inner));
    }
}

/// A clip that holds a point changes nothing of what the point shows.
proof fn held_frame(
    bounds: Rect,
    layout: LayoutModel,
    snap: SnapshotModel,
    ui: UiModel,
    p: Palette,
    x: int,
    y: int,
)
    ensures
        seen(paint::frame_marks(bounds, layout, snap, ui, p), x, y, seq![true]) == seen(
            paint::frame_marks(bounds, layout, snap, ui, p),
            x,
            y,
            Seq::empty(),
        ),
{
    let none = Seq::<bool>::empty();
    let held = seq![true];
    let strip = layout.strip.covers(x, y);
    frame_plain(bounds, layout, snap, ui, p);
    frame_seen(bounds, layout, snap, ui, p, x, y, none);
    frame_seen(bounds, layout, snap, ui, p, x, y, held);
    assert(clear(none) && clear(held));
    assert(none.push(strip)[0] == strip && held.push(strip)[1] == strip);
    assert(clear(none.push(strip)) == strip);
    assert(clear(held.push(strip)) == strip);
    plain_alike(under_columns(bounds, layout, snap, ui, p), x, y, none, held);
    plain_alike(of_columns(layout, snap, ui, p), x, y, none.push(strip), held.push(strip));
    plain_alike(over_columns(layout, snap, ui, p), x, y, none, held);
}

/// After a step of the meters, painting the damaged rectangles alone over the
/// frame before leaves every point as a full repaint would: a point in some of
/// them gets the whole of the new frame, its background first, once for each;
/// and what any other point shows has not changed.
pub proof fn a_meters_repaint_matches_a_full_one(
    bounds: Rect,
    layout: LayoutModel,
    snap: SnapshotModel,
    before: UiModel,
    after: UiModel,
    p: Palette,
    x: int,
    y: int,
)
    requires
        after == (UiModel { meters: after.meters, dirty: after.dirty, ..before }),
        paint::near(layout.strip),
        meters_fit(layout.columns, before),
        meters_fit(layout.columns, after),
    ensures
        ({
            let none = Seq::<bool>::empty();
            let damage = layout::damage(
                layout.columns,
                layout.strip,
                layout.columns.len() as int,
            );
            let n = damage.len() as int;
            let then = seen(paint::frame_marks(bounds, layout, snap, before, p), x, y, none);
            let now = seen(paint::frame_marks(bounds, layout, snap, after, p), x, y, none);
            let again = seen(
                paint::meters_marks(bounds, layout, snap, after, p, damage, n),
                x,
                y,
                none,
            );
            &&& again == times(now, covering(damage, x, y, n))
            &&& covering(damage, x, y, n) == 0 ==> then == now
            &&& bounds.covers(x, y) ==> now.len() > 0 && now[0] == (MarkView::Fill {
                rect: bounds,
                color: p.bg,
            })
        }),
{
    let none = Seq::<bool>::empty();
    let columns = layout.columns;
    let damage = layout::damage(columns, layout.strip, columns.len() as int);
    repaint_seen(bounds, layout, snap, after, p, damage, damage.len() as int, x, y);
    frame_seen(bounds, layout, snap, before, p, x, y, none);
    frame_seen(bounds, layout, snap, after, p, x, y, none);
    if covering(damage, x, y, damage.len() as int) == 0 {
        let open = none.push(layout.strip.covers(x, y));
        assert(open[0] == layout.strip.covers(x, y));
        if layout.strip.covers(x, y) {
            assert forall|k: int| 0 <= k < columns.len() implies !(
            #[trigger] columns[k]).meter.covers(x, y) by {
                assert(meter_fits(columns[k], before));
                undamaged(layout, x, y, k);
            }
        }
        columns_keep(columns, snap, before, after, p, columns.len() as int, x, y, open);
        surroundings_keep(bounds, layout, snap, before, after, p);
    }
    if bounds.covers(x, y) {
        background_first(bounds, layout, snap, after, p, x, y);
    }
}

/// The background is the first thing any point in the bounds shows.
proof fn background_first(
    bounds: Rect,
    layout: LayoutModel,
    snap: SnapshotModel,
    ui: UiModel,
    p: Palette,
    x: int,
    y: int,
)
    requires
        bounds.covers(x, y),
    ensures
        ({
            let now = seen(
                paint::frame_marks(bounds, layout, snap, ui, p),
                x,
                y,
                Seq::<bool>::empty(),
            );
            now.len() > 0 && now[0] == (MarkView::Fill { rect: bounds, color: p.bg })
        }),
{
    let frame = paint::frame_marks(bounds, layout, snap, ui, p);
    let under = under_columns(bounds, layout, snap, ui, p);
    let fill = MarkView::Fill { rect: bounds, color: p.bg };
    frame_parts(bounds, layout, snap, ui, p);
    assert(under[0] == fill);
    assert(frame[0] == fill);
}

} // verus!
