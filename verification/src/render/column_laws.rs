//! What a column tells of its row.

use crate::domain::Gain;
use crate::render::buffer::Color;
use crate::render::paint;
use crate::render::paint::MarkView;
use crate::render::primitives::Rect;
use crate::ui::layout::{ColumnModel, HitTargetView, LayoutModel, RowIdView};
use crate::ui::meter;
use crate::ui::meter::Tier;
use crate::ui::row;
use crate::ui::theme::Palette;
use crate::ui::UiModel;
use crate::view::snapshot::{AppRowModel, DeviceRowModel, SinkOptionModel, SnapshotModel};
use vstd::prelude::*;

verus! {

// --- The meter ----------------------------------------------------------------------------

/// How many bars a meter shows: one a channel, two before any is reported.
pub open spec fn bar_count(channels: Seq<Gain>) -> int {
    if channels.len() == 0 {
        2
    } else {
        channels.len() as int
    }
}

proof fn cells_in_order(
    area: Rect,
    x: int,
    w: int,
    peak: Gain,
    total: int,
    p: Palette,
    k: int,
    i: int,
)
    requires
        0 <= i < k,
    ensures
        ({
            let list = paint::cells_marks(area, x, w, peak, total, p, k);
            &&& list.len() == 2 * k
            &&& list[2 * i] == (MarkView::Fill {
                rect: paint::cell(area, x, w, i),
                color: p.dim_grid,
            })
            &&& list[2 * i + 1] == (MarkView::Level {
                rect: paint::cell(area, x, w, i),
                peak,
                index: i as i32,
                total: total as i32,
                color: paint::tier_ink(meter::tier(i, total), p),
            })
        }),
    decreases k,
{
    if k > 1 {
        let inner = if i < k - 1 {
            i
        } else {
            0
        };
        cells_in_order(area, x, w, peak, total, p, k - 1, inner);
    } else {
        assert(paint::cells_marks(area, x, w, peak, total, p, 0).len() == 0);
    }
}

proof fn bars_in_order(
    area: Rect,
    channels: Seq<Gain>,
    n: int,
    p: Palette,
    bars: int,
    b: int,
    j: int,
)
    requires
        0 <= b < bars,
        0 <= j < 2 * meter::cells(area.h as int),
    ensures
        ({
            let total = meter::cells(area.h as int);
            let w = paint::bar_width(area.w as int, n);
            let list = paint::bars_marks(area, channels, n, p, bars);
            &&& list.len() == 2 * bars * total
            &&& 0 <= 2 * b * total + j < list.len()
            &&& list[2 * b * total + j] == paint::cells_marks(
                area,
                area.x + b * (w + 1),
                w,
                paint::peak_of(channels, b),
                total,
                p,
                total,
            )[j]
        }),
    decreases bars,
{
    let total = meter::cells(area.h as int);
    let w = paint::bar_width(area.w as int, n);
    let last = paint::cells_marks(
        area,
        area.x + (bars - 1) * (w + 1),
        w,
        paint::peak_of(channels, bars - 1),
        total,
        p,
        total,
    );
    cells_in_order(
        area,
        area.x + (bars - 1) * (w + 1),
        w,
        paint::peak_of(channels, bars - 1),
        total,
        p,
        total,
        0,
    );
    assert(last.len() == 2 * total);
    let rest = paint::bars_marks(area, channels, n, p, bars - 1);
    if bars > 1 {
        let inner = if b < bars - 1 {
            b
        } else {
            0
        };
        bars_in_order(area, channels, n, p, bars - 1, inner, j);
    } else {
        assert(rest.len() == 0);
        assert(2 * (bars - 1) * total == 0) by (nonlinear_arith)
            requires
                bars == 1,
        ;
    }
    assert(rest.len() == 2 * (bars - 1) * total);
    assert(2 * bars * total == 2 * (bars - 1) * total + 2 * total) by (nonlinear_arith);
    if b < bars - 1 {
        assert(2 * b * total + j < 2 * (bars - 1) * total) by (nonlinear_arith)
            requires
                b + 1 <= bars - 1,
                j < 2 * total,
                total >= 1,
        ;
    }
    assert(0 <= 2 * b * total) by (nonlinear_arith)
        requires
            0 <= b,
            1 <= total,
    ;
}

/// A meter's bars are its channels, in order from the left: cell `i` from the bottom
/// of bar `b` is lit by what channel `b` reads, a bar without a channel by nothing.
/// The bars stand a pixel apart, as wide as they fit, and their cells on one pitch,
/// in the ink of their tier. Nothing else is drawn.
pub proof fn bars_stand_for_channels_in_order(
    area: Rect,
    channels: Seq<Gain>,
    p: Palette,
    b: int,
    i: int,
)
    requires
        paint::near(area),
        0 <= area.w <= 0x1_0000,
        area.h <= 0x100_0000,
        channels.len() <= 0x1000,
        0 <= b < bar_count(channels),
        0 <= i < meter::cells(area.h as int),
    ensures
        ({
            let n = bar_count(channels);
            let total = meter::cells(area.h as int);
            let list = paint::meter_marks(area, channels, p);
            let under = list[2 * b * total + 2 * i];
            let lit = list[2 * b * total + 2 * i + 1];
            &&& list.len() == 2 * n * total
            &&& under is Fill
            &&& under->Fill_color == p.dim_grid
            &&& under->Fill_rect == lit->Level_rect
            &&& lit is Level
            &&& lit->peak == if b < channels.len() {
                channels[b]
            } else {
                Gain { bits: 0 }
            }
            &&& lit->index == i
            &&& lit->total == total
            &&& ({
                let r = lit->Level_rect;
                &&& r.w >= 1
                &&& r.h == 3
                &&& r.x == area.x + b * (r.w + 1)
                &&& r.y + r.h == area.y + area.h - 4 * i
                &&& r.w > 1 ==> n * (r.w + 1) - 1 <= area.w
                &&& area.w < n * (r.w + 2)
            })
            &&& match meter::tier(i, total) {
                Tier::Neutral => lit->Level_color == p.meter_neutral,
                Tier::Green => lit->Level_color == p.meter_green,
                Tier::Amber => lit->Level_color == p.meter_amber,
                Tier::Red => lit->Level_color == p.meter_red,
            }
        }),
{
    let n = bar_count(channels);
    let total = meter::cells(area.h as int);
    let w = paint::bar_width(area.w as int, n);
    let x = area.x + b * (w + 1);
    bars_in_order(area, channels, n, p, n, b, 2 * i);
    bars_in_order(area, channels, n, p, n, b, 2 * i + 1);
    cells_in_order(area, x, w, paint::peak_of(channels, b), total, p, total, i);
    widths_fit(area.w as int, n);
    assert(0 <= b * (w + 1) <= 0x1000 * 0x1_0001) by (nonlinear_arith)
        requires
            0 <= b <= 0x1000,
            1 <= w <= 0x1_0000,
    ;
}

proof fn widths_fit(width: int, n: int)
    requires
        0 <= width <= 0x1_0000,
        1 <= n,
    ensures
        ({
            let w = paint::bar_width(width, n);
            &&& 1 <= w <= 0x1_0000
            &&& w > 1 ==> n * (w + 1) - 1 <= width
            &&& width < n * (w + 2)
        }),
{
    let room = width - (n - 1);
    let w = paint::bar_width(width, n);
    if room >= n {
        vstd::arithmetic::div_mod::lemma_fundamental_div_mod(room, n);
        vstd::arithmetic::div_mod::lemma_mod_bound(room, n);
        assert(room == n * w + room % n);
        assert(n * (w + 1) == n * w + n) by (nonlinear_arith);
        assert(n * (w + 2) == n * w + n + n) by (nonlinear_arith);
        assert(1 <= w) by (nonlinear_arith)
            requires
                n * w + room % n == room,
                room % n < n,
                room >= n,
                1 <= n,
        ;
        assert(w <= n * w) by (nonlinear_arith)
            requires
                1 <= w,
                1 <= n,
        ;
    } else {
        assert(n * 3 == n + n + n) by (nonlinear_arith);
    }
}

// --- What stands in a column ----------------------------------------------------------------

/// Whether a list of marks has a text in a place.
pub open spec fn says(list: Seq<MarkView>, rect: Rect, text: Seq<char>) -> bool {
    exists|j: int|
        0 <= j < list.len() && (#[trigger] list[j]) is Text && list[j]->Text_rect == rect
            && list[j]->Text_text == text
}

/// Whether a list of marks has a text in a place and a color.
pub open spec fn says_in(list: Seq<MarkView>, rect: Rect, text: Seq<char>, color: Color) -> bool {
    exists|j: int|
        0 <= j < list.len() && (#[trigger] list[j]) is Text && list[j]->Text_rect == rect
            && list[j]->Text_text == text && list[j]->style.color == color
}

/// Whether a list of marks has a mark.
pub open spec fn has(list: Seq<MarkView>, mark: MarkView) -> bool {
    exists|j: int| 0 <= j < list.len() && #[trigger] list[j] == mark
}

/// Whether a list of marks has another in it, whole and in order.
#[verifier::opaque]
pub open spec fn has_all(list: Seq<MarkView>, part: Seq<MarkView>) -> bool {
    exists|at: int|
        0 <= at && at + part.len() <= list.len() && #[trigger] list.subrange(
            at,
            at + part.len(),
        ) == part
}

pub proof fn part_between(a: Seq<MarkView>, part: Seq<MarkView>, b: Seq<MarkView>)
    ensures
        has_all(a + part + b, part),
{
    reveal(has_all);
    let list = a + part + b;
    assert(list.subrange(a.len() as int, a.len() as int + part.len()) =~= part);
}

pub proof fn part_of_part(list: Seq<MarkView>, part: Seq<MarkView>, inner: Seq<MarkView>)
    requires
        has_all(list, part),
        has_all(part, inner),
    ensures
        has_all(list, inner),
{
    reveal(has_all);
    let a = choose|at: int|
        0 <= at && at + part.len() <= list.len() && #[trigger] list.subrange(
            at,
            at + part.len(),
        ) == part;
    let b = choose|at: int|
        0 <= at && at + inner.len() <= part.len() && #[trigger] part.subrange(
            at,
            at + inner.len(),
        ) == inner;
    assert(list.subrange(a + b, a + b + inner.len()) =~= inner) by {
        assert(list.subrange(a, a + part.len()) == part);
        assert forall|i: int| 0 <= i < inner.len() implies list.subrange(
            a + b,
            a + b + inner.len(),
        )[i] == inner[i] by {
            assert(part[b + i] == part.subrange(b, b + inner.len())[i]);
            assert(list[a + b + i] == list.subrange(a, a + part.len())[b + i]);
        }
    }
}

pub proof fn in_part(list: Seq<MarkView>, part: Seq<MarkView>, j: int)
    requires
        has_all(list, part),
        0 <= j < part.len(),
    ensures
        has(list, part[j]),
{
    reveal(has_all);
    let a = choose|at: int|
        0 <= at && at + part.len() <= list.len() && #[trigger] list.subrange(
            at,
            at + part.len(),
        ) == part;
    assert(list.subrange(a, a + part.len())[j] == part[j]);
    assert(list[a + j] == part[j]);
}

pub proof fn has_is_said(list: Seq<MarkView>, mark: MarkView)
    requires
        has(list, mark),
        mark is Text,
    ensures
        says(list, mark->Text_rect, mark->Text_text),
        says_in(list, mark->Text_rect, mark->Text_text, mark->style.color),
{
    let j = choose|j: int| 0 <= j < list.len() && #[trigger] list[j] == mark;
    assert(list[j] is Text);
}

/// The parts of a column.
proof fn column_parts(
    col: ColumnModel,
    row: paint::RowDrawModel,
    ui: UiModel,
    sinks: Seq<SinkOptionModel>,
    p: Palette,
)
    ensures
        ({
            let list = paint::column_marks(col, row, ui, sinks, p);
            &&& has_all(
                list,
                if row.is_app {
                    paint::app_header(col, row, p)
                } else {
                    paint::device_header(col, row, p)
                },
            )
            &&& has_all(
                list,
                paint::meter_marks(col.meter, meter::bars(ui.meters, col.id), p),
            )
            &&& has_all(
                list,
                paint::slider_marks(col.slider, row.warning, ui.halo.strength(col.id), p),
            )
            &&& has_all(list, seq![paint::readout_mark(col, row, p)])
            &&& has_all(list, paint::buttons_marks(col, row, ui, sinks, p))
        }),
{
    let list = paint::column_marks(col, row, ui, sinks, p);
    let a = paint::marks_if(
        col.id is AppMember,
        seq![MarkView::Fill { rect: col.rect, color: p.wash_4 }],
    );
    let b = if row.is_app {
        paint::app_header(col, row, p)
    } else {
        paint::device_header(col, row, p)
    };
    let c = paint::meter_marks(col.meter, meter::bars(ui.meters, col.id), p);
    let d = paint::slider_marks(col.slider, row.warning, ui.halo.strength(col.id), p);
    let e = seq![paint::readout_mark(col, row, p)];
    let f = paint::buttons_marks(col, row, ui, sinks, p);
    let g = seq![MarkView::Fill { rect: col.separator, color: p.wash_6 }];
    assert(list == a + b + c + d + e + f + g);
    middle_parts(a, b, c, d, e, f, g);
}

/// Of seven parts put one behind another, each of the five in the middle is there.
proof fn middle_parts(
    a: Seq<MarkView>,
    b: Seq<MarkView>,
    c: Seq<MarkView>,
    d: Seq<MarkView>,
    e: Seq<MarkView>,
    f: Seq<MarkView>,
    g: Seq<MarkView>,
)
    ensures
        has_all(a + b + c + d + e + f + g, b),
        has_all(a + b + c + d + e + f + g, c),
        has_all(a + b + c + d + e + f + g, d),
        has_all(a + b + c + d + e + f + g, e),
        has_all(a + b + c + d + e + f + g, f),
{
    part_between(a + b + c + d + e, f, g);
    ends_with(a + b + c + d, e);
    goes_on(a + b + c + d + e, e, f);
    goes_on(a + b + c + d + e + f, e, g);
    ends_with(a + b + c, d);
    goes_on(a + b + c + d, d, e);
    goes_on(a + b + c + d + e, d, f);
    goes_on(a + b + c + d + e + f, d, g);
    ends_with(a + b, c);
    goes_on(a + b + c, c, d);
    goes_on(a + b + c + d, c, e);
    goes_on(a + b + c + d + e, c, f);
    goes_on(a + b + c + d + e + f, c, g);
    ends_with(a, b);
    goes_on(a + b, b, c);
    goes_on(a + b + c, b, d);
    goes_on(a + b + c + d, b, e);
    goes_on(a + b + c + d + e, b, f);
    goes_on(a + b + c + d + e + f, b, g);
}

pub proof fn ends_with(a: Seq<MarkView>, part: Seq<MarkView>)
    ensures
        has_all(a + part, part),
{
    part_between(a, part, Seq::empty());
    assert(a + part + Seq::<MarkView>::empty() =~= a + part);
}

pub proof fn goes_on(list: Seq<MarkView>, part: Seq<MarkView>, more: Seq<MarkView>)
    requires
        has_all(list, part),
    ensures
        has_all(list + more, part),
{
    part_between(Seq::empty(), list, more);
    assert(Seq::<MarkView>::empty() + list + more =~= list + more);
    part_of_part(list + more, list, part);
}

proof fn columns_are_parts(
    columns: Seq<ColumnModel>,
    snap: SnapshotModel,
    ui: UiModel,
    p: Palette,
    n: int,
    k: int,
    row: paint::RowDrawModel,
)
    requires
        0 <= k < n <= columns.len(),
        paint::draw_of(snap, columns[k].id) == Some(row),
    ensures
        has_all(
            paint::columns_marks(columns, snap, ui, p, n),
            paint::column_marks(columns[k], row, ui, snap.sink_options, p),
        ),
    decreases n,
{
    let list = paint::columns_marks(columns, snap, ui, p, n);
    let rest = paint::columns_marks(columns, snap, ui, p, n - 1);
    let own = match paint::draw_of(snap, columns[n - 1].id) {
        Some(row) => paint::column_marks(columns[n - 1], row, ui, snap.sink_options, p),
        None => Seq::empty(),
    };
    assert(list == rest + own);
    if k == n - 1 {
        part_between(rest, own, Seq::empty());
        assert(rest + own + Seq::<MarkView>::empty() =~= list);
    } else {
        columns_are_parts(columns, snap, ui, p, n - 1, k, row);
        part_between(Seq::empty(), rest, own);
        assert(Seq::<MarkView>::empty() + rest + own =~= list);
        part_of_part(
            list,
            rest,
            paint::column_marks(columns[k], row, ui, snap.sink_options, p),
        );
    }
}

proof fn frame_has_its_columns(
    bounds: Rect,
    layout: LayoutModel,
    snap: SnapshotModel,
    ui: UiModel,
    p: Palette,
    k: int,
    row: paint::RowDrawModel,
)
    requires
        0 <= k < layout.columns.len(),
        paint::draw_of(snap, layout.columns[k].id) == Some(row),
    ensures
        has_all(
            paint::frame_marks(bounds, layout, snap, ui, p),
            paint::column_marks(layout.columns[k], row, ui, snap.sink_options, p),
        ),
{
    let list = paint::frame_marks(bounds, layout, snap, ui, p);
    let n = layout.columns.len() as int;
    let mid = paint::columns_marks(layout.columns, snap, ui, p, n);
    let a = seq![MarkView::Fill { rect: bounds, color: p.bg }] + (match layout.titlebar {
        Some(bar) => paint::titlebar_marks(bar, ui, p),
        None => Seq::empty(),
    }) + paint::chrome_marks(layout, snap, ui, p) + seq![MarkView::Clip(layout.strip)];
    let b = seq![MarkView::Unclip] + paint::bar_marks(layout, ui, p) + paint::over_marks(
        layout,
        snap,
        ui,
        p,
    ) + paint::marks_if(
        ui.settings.show_window_border,
        seq![MarkView::Border { rect: layout.window, color: p.border }],
    );
    part_between(a, mid, b);
    assert(a + mid + b =~= list);
    columns_are_parts(layout.columns, snap, ui, p, n, k, row);
    part_of_part(
        list,
        mid,
        paint::column_marks(layout.columns[k], row, ui, snap.sink_options, p),
    );
}

/// What every column shows of its row, wherever in the frame it stands: its level on
/// its own meter, its gain on its own fader in whole percent, and its mute button lit
/// if and only if it is muted.
pub open spec fn column_tells(
    list: Seq<MarkView>,
    col: ColumnModel,
    ui: UiModel,
    p: Palette,
    cubic: Gain,
    muted: bool,
    warning: bool,
) -> bool {
    &&& has_all(list, paint::meter_marks(col.meter, meter::bars(ui.meters, col.id), p))
    &&& says(list, col.slider.thumb, row::readout(cubic))
    &&& has(
        list,
        MarkView::Rounded {
            rect: col.slider.fill,
            radius: 3,
            color: if warning {
                p.scale_fill_warning
            } else {
                p.scale_fill
            },
        },
    )
    &&& says_in(
        list,
        col.mute,
        "M"@,
        if muted {
            p.on_filled
        } else {
            p.text_subtle
        },
    )
    &&& muted ==> exists|radius: i32|
        has(list, #[trigger] mark_rounded(col.mute, radius, p.warning))
}

/// A rounded rectangle.
pub open spec fn mark_rounded(rect: Rect, radius: i32, color: Color) -> MarkView {
    MarkView::Rounded { rect, radius, color }
}

proof fn column_tells_its_row(
    list: Seq<MarkView>,
    col: ColumnModel,
    row: paint::RowDrawModel,
    ui: UiModel,
    sinks: Seq<SinkOptionModel>,
    p: Palette,
)
    requires
        has_all(list, paint::column_marks(col, row, ui, sinks, p)),
    ensures
        column_tells(list, col, ui, p, row.cubic, row.muted, row.warning),
{
    let own = paint::column_marks(col, row, ui, sinks, p);
    column_parts(col, row, ui, sinks, p);
    let meters = paint::meter_marks(col.meter, meter::bars(ui.meters, col.id), p);
    part_of_part(list, own, meters);
    let read = seq![paint::readout_mark(col, row, p)];
    part_of_part(list, own, read);
    in_part(list, read, 0);
    has_is_said(list, read[0]);
    let fader = paint::slider_marks(col.slider, row.warning, ui.halo.strength(col.id), p);
    part_of_part(list, own, fader);
    in_part(list, fader, 1);
    let buttons = paint::buttons_marks(col, row, ui, sinks, p);
    part_of_part(list, own, buttons);
    buttons_tell_mute(list, col, row, ui, sinks, p);
}

proof fn buttons_tell_mute(
    list: Seq<MarkView>,
    col: ColumnModel,
    row: paint::RowDrawModel,
    ui: UiModel,
    sinks: Seq<SinkOptionModel>,
    p: Palette,
)
    requires
        has_all(list, paint::buttons_marks(col, row, ui, sinks, p)),
    ensures
        says_in(
            list,
            col.mute,
            "M"@,
            if row.muted {
                p.on_filled
            } else {
                p.text_subtle
            },
        ),
        row.muted ==> exists|radius: i32|
            has(list, #[trigger] mark_rounded(col.mute, radius, p.warning)),
{
    let buttons = paint::buttons_marks(col, row, ui, sinks, p);
    let mute = paint::mute_marks(col, row, ui, p);
    let ahead = paint::marks_if(
        row.is_app && row.can_expand,
        paint::expand_marks(col, row, ui, p),
    ) + paint::marks_if(
        row.is_app,
        paint::pins_marks(col, row, ui, sinks, p, col.targets.len() as int),
    );
    part_between(ahead, mute, Seq::empty());
    assert(ahead + mute + Seq::<MarkView>::empty() =~= buttons);
    part_of_part(list, buttons, mute);
    in_part(list, mute, mute.len() - 1);
    has_is_said(list, mute[mute.len() - 1]);
    if row.muted {
        in_part(list, mute, 0);
        assert(has(list, mark_rounded(col.mute, mute[0]->Rounded_radius, p.warning)));
    }
}

proof fn device_row_is_drawn(rows: Seq<DeviceRowModel>, i: int, from: int)
    requires
        0 <= from <= i < rows.len(),
        forall|j: int| 0 <= j < i ==> (#[trigger] rows[j]).id != rows[i].id,
    ensures
        paint::device_with(rows, rows[i].id, from) == Some(i),
    decreases i - from,
{
    if from < i {
        device_row_is_drawn(rows, i, from + 1);
    }
}

proof fn no_device_row(rows: Seq<DeviceRowModel>, id: RowIdView, from: int)
    requires
        0 <= from,
        forall|j: int| 0 <= j < rows.len() ==> (#[trigger] rows[j]).id != id,
    ensures
        paint::device_with(rows, id, from) is None,
    decreases rows.len() - from,
{
    if from < rows.len() {
        no_device_row(rows, id, from + 1);
    }
}

proof fn app_row_is_drawn(rows: Seq<AppRowModel>, i: int, from: int)
    requires
        0 <= from <= i < rows.len(),
        forall|j: int| 0 <= j < i ==> (#[trigger] rows[j]).id != rows[i].id,
    ensures
        paint::app_with(rows, rows[i].id, from) == Some(i),
    decreases i - from,
{
    if from < i {
        app_row_is_drawn(rows, i, from + 1);
    }
}

/// A device's column says what the device is: its form for a heading and its name under
/// it, its level, its gain and its mute.
pub proof fn a_device_column_tells_its_device(
    bounds: Rect,
    layout: LayoutModel,
    snap: SnapshotModel,
    ui: UiModel,
    p: Palette,
    k: int,
    rows: Seq<DeviceRowModel>,
    i: int,
)
    requires
        0 <= k < layout.columns.len(),
        rows == snap.sinks || rows == snap.sources && forall|j: int|
            0 <= j < snap.sinks.len() ==> (#[trigger] snap.sinks[j]).id != layout.columns[k].id,
        0 <= i < rows.len(),
        rows[i].id == layout.columns[k].id,
        forall|j: int| 0 <= j < i ==> (#[trigger] rows[j]).id != rows[i].id,
    ensures
        ({
            let list = paint::frame_marks(bounds, layout, snap, ui, p);
            let col = layout.columns[k];
            &&& says(list, col.name, rows[i].sublabel)
            &&& says(list, col.sub, row::name_shown(rows[i].label, false, 1))
            &&& column_tells(list, col, ui, p, rows[i].cubic, rows[i].muted, rows[i].warning)
        }),
{
    let col = layout.columns[k];
    device_row_is_drawn(rows, i, 0);
    if rows != snap.sinks {
        no_device_row(snap.sinks, col.id, 0);
    }
    let row = paint::device_draw(rows[i]);
    let list = paint::frame_marks(bounds, layout, snap, ui, p);
    frame_has_its_columns(bounds, layout, snap, ui, p, k, row);
    column_tells_its_row(list, col, row, ui, snap.sink_options, p);
    column_parts(col, row, ui, snap.sink_options, p);
    let head = paint::device_header(col, row, p);
    part_of_part(list, paint::column_marks(col, row, ui, snap.sink_options, p), head);
    in_part(list, head, 0);
    has_is_said(list, head[0]);
    in_part(list, head, 1);
    has_is_said(list, head[1]);
}

/// A pin of an application's column: the letter of the output it stands for, `A` for
/// none in particular, in the accent if and only if the row is pinned there.
pub open spec fn pin_tells(
    list: Seq<MarkView>,
    rect: Rect,
    letter: char,
    chosen: bool,
    p: Palette,
) -> bool {
    &&& says(list, rect, seq![letter])
    &&& edged(
        list,
        rect,
        if chosen {
            p.accent
        } else {
            p.wash_18
        },
    )
}

/// Whether a list of marks has a place outlined in a color.
pub open spec fn edged(list: Seq<MarkView>, rect: Rect, color: Color) -> bool {
    exists|radius: i32| has(list, #[trigger] mark_outline(rect, radius, color))
}

pub open spec fn mark_outline(rect: Rect, radius: i32, color: Color) -> MarkView {
    MarkView::Outline { rect, radius, color }
}

proof fn pins_are_parts(
    col: ColumnModel,
    row: paint::RowDrawModel,
    ui: UiModel,
    sinks: Seq<SinkOptionModel>,
    p: Palette,
    n: int,
    t: int,
)
    requires
        0 <= t < n,
    ensures
        has_all(
            paint::pins_marks(col, row, ui, sinks, p, n),
            paint::pin_marks(col, row, ui, sinks, p, t),
        ),
    decreases n,
{
    let list = paint::pins_marks(col, row, ui, sinks, p, n);
    let rest = paint::pins_marks(col, row, ui, sinks, p, n - 1);
    let own = paint::pin_marks(col, row, ui, sinks, p, n - 1);
    assert(list == rest + own);
    if t == n - 1 {
        part_between(rest, own, Seq::empty());
        assert(rest + own + Seq::<MarkView>::empty() =~= list);
    } else {
        pins_are_parts(col, row, ui, sinks, p, n - 1, t);
        part_between(Seq::empty(), rest, own);
        assert(Seq::<MarkView>::empty() + rest + own =~= list);
        part_of_part(list, rest, paint::pin_marks(col, row, ui, sinks, p, t));
    }
}

proof fn option_is_found(sinks: Seq<SinkOptionModel>, o: int, from: int)
    requires
        0 <= from <= o < sinks.len(),
        forall|j: int| 0 <= j < o ==> (#[trigger] sinks[j]).id != sinks[o].id,
    ensures
        paint::option_with(sinks, sinks[o].id, from) == Some(o),
    decreases o - from,
{
    if from < o {
        option_is_found(sinks, o, from + 1);
    }
}

proof fn buttons_tell_pins(
    list: Seq<MarkView>,
    col: ColumnModel,
    row: paint::RowDrawModel,
    ui: UiModel,
    sinks: Seq<SinkOptionModel>,
    p: Palette,
    t: int,
)
    requires
        row.is_app,
        0 <= t < col.targets.len(),
        has_all(list, paint::buttons_marks(col, row, ui, sinks, p)),
    ensures
        pin_tells(
            list,
            col.targets[t].0,
            paint::pin_letter(sinks, col.targets[t].1),
            col.targets[t].1 == row.target_sink,
            p,
        ),
{
    let n = col.targets.len() as int;
    let pins = paint::pins_marks(col, row, ui, sinks, p, n);
    let buttons = paint::buttons_marks(col, row, ui, sinks, p);
    let expand = paint::marks_if(
        row.is_app && row.can_expand,
        paint::expand_marks(col, row, ui, p),
    );
    let mute = paint::mute_marks(col, row, ui, p);
    part_between(expand, pins, mute);
    assert(expand + pins + mute =~= buttons);
    part_of_part(list, buttons, pins);
    pins_are_parts(col, row, ui, sinks, p, n, t);
    let pin = paint::pin_marks(col, row, ui, sinks, p, t);
    part_of_part(list, pins, pin);
    let last = pin.len() - 1;
    in_part(list, pin, last);
    has_is_said(list, pin[last]);
    in_part(list, pin, last - 1);
    let edge = pin[last - 1];
    let (rect, sink) = col.targets[t];
    let state = paint::PickState {
        lit: false,
        hovered: ui.hover == Some(HitTargetView::AppTarget { row: col.id, sink }),
        accent: sink == row.target_sink,
    };
    let frame = paint::pick_frame(rect, p, state);
    assert(pin.drop_last() =~= frame);
    assert(edge == frame.last());
    assert(edge is Outline);
    assert(pin[last]->Text_text == seq![paint::pin_letter(sinks, sink)]);
    assert(says(list, rect, seq![paint::pin_letter(sinks, sink)]));
    let color = if sink == row.target_sink {
        p.accent
    } else {
        p.wash_18
    };
    assert(edge->Outline_color == color);
    assert(edge->Outline_rect == rect);
    assert(edge == mark_outline(rect, edge->Outline_radius, color));
    assert(has(list, mark_outline(rect, edge->Outline_radius, color)));
    assert(edged(list, rect, color));
}

/// An application's column says whose it is: its icon and its name, its level, its
/// gain and its mute, and on its pins where it goes.
pub proof fn an_app_column_tells_its_app(
    bounds: Rect,
    layout: LayoutModel,
    snap: SnapshotModel,
    ui: UiModel,
    p: Palette,
    k: int,
    i: int,
    t: int,
    o: int,
)
    requires
        0 <= k < layout.columns.len(),
        0 <= i < snap.app_rows.len(),
        snap.app_rows[i].id == layout.columns[k].id,
        forall|j: int| 0 <= j < i ==> (#[trigger] snap.app_rows[j]).id != snap.app_rows[i].id,
        forall|j: int|
            0 <= j < snap.sinks.len() ==> (#[trigger] snap.sinks[j]).id != snap.app_rows[i].id,
        forall|j: int|
            0 <= j < snap.sources.len() ==> (#[trigger] snap.sources[j]).id
                != snap.app_rows[i].id,
        0 <= t < layout.columns[k].targets.len(),
        0 <= o < snap.sink_options.len(),
        forall|j: int|
            0 <= j < o ==> (#[trigger] snap.sink_options[j]).id != snap.sink_options[o].id,
    ensures
        ({
            let list = paint::frame_marks(bounds, layout, snap, ui, p);
            let col = layout.columns[k];
            let a = snap.app_rows[i];
            let (rect, sink) = col.targets[t];
            &&& has(list, MarkView::Icon { rect: col.icon, path: a.icon_path, key: a.icon_key })
            &&& says(list, col.name, row::name_shown(a.label, a.tombstoned, a.member_count))
            &&& column_tells(list, col, ui, p, a.cubic, a.muted, a.warning)
            &&& sink is None ==> pin_tells(list, rect, 'A', a.target_sink is None, p)
            &&& sink == Some(snap.sink_options[o].id) ==> pin_tells(
                list,
                rect,
                snap.sink_options[o].short,
                a.target_sink == sink,
                p,
            )
        }),
{
    let col = layout.columns[k];
    app_row_is_drawn(snap.app_rows, i, 0);
    no_device_row(snap.sinks, col.id, 0);
    no_device_row(snap.sources, col.id, 0);
    let row = paint::app_draw(snap.app_rows[i]);
    let list = paint::frame_marks(bounds, layout, snap, ui, p);
    let own = paint::column_marks(col, row, ui, snap.sink_options, p);
    frame_has_its_columns(bounds, layout, snap, ui, p, k, row);
    column_tells_its_row(list, col, row, ui, snap.sink_options, p);
    column_parts(col, row, ui, snap.sink_options, p);
    let head = paint::app_header(col, row, p);
    part_of_part(list, own, head);
    in_part(list, head, 0);
    in_part(list, head, 1);
    has_is_said(list, head[1]);
    part_of_part(list, own, paint::buttons_marks(col, row, ui, snap.sink_options, p));
    buttons_tell_pins(list, col, row, ui, snap.sink_options, p, t);
    option_is_found(snap.sink_options, o, 0);
}

} // verus!
