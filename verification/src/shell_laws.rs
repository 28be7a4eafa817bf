//! What a step of the meters does to every row's bars.

use crate::domain::Gain;
use crate::gain;
use crate::ordered;
use crate::shell;
use crate::shell::Report;
use crate::ui::layout::RowIdView;
use crate::ui::meter;
use crate::ui::meter::MeterRowView;
use crate::view::snapshot::MeterRoutes;
use vstd::prelude::*;

verus! {

proof fn row_is_found(rows: Seq<MeterRowView>, row: RowIdView)
    ensures
        match meter::find_row(rows, row) {
            Some(i) => 0 <= i < rows.len() && rows[i].row == row && forall|k: int|
                i < k < rows.len() ==> (#[trigger] rows[k]).row != row,
            None => forall|i: int| 0 <= i < rows.len() ==> (#[trigger] rows[i]).row != row,
        },
    decreases rows.len(),
{
    if rows.len() > 0 && rows.last().row != row {
        let rest = rows.drop_last();
        row_is_found(rest, row);
        assert forall|k: int|
            (match meter::find_row(rows, row) {
                Some(i) => i,
                None => -1,
            }) < k < rows.len() implies (#[trigger] rows[k]).row != row by {
            if k < rows.len() - 1 {
                assert(rest[k] == rows[k]);
            }
        }
    }
}

proof fn last_is_found(rows: Seq<MeterRowView>, row: RowIdView, i: int)
    requires
        0 <= i < rows.len(),
        rows[i].row == row,
        forall|k: int| i < k < rows.len() ==> (#[trigger] rows[k]).row != row,
    ensures
        meter::find_row(rows, row) == Some(i),
{
    row_is_found(rows, row);
    if let Some(j) = meter::find_row(rows, row) {
        if j < i {
            assert(rows[i].row != row);
        } else if i < j {
            assert(rows[j].row != row);
        }
    } else {
        assert(rows[i].row != row);
    }
}

/// Peaks folded into one row change that row's bars and no other's.
proof fn peaks_are_folded(rows: Seq<MeterRowView>, at: RowIdView, peaks: Seq<Gain>, row: RowIdView)
    ensures
        meter::bars(meter::with_peaks(rows, at, peaks), row) == if row == at {
            meter::folded(meter::bars(rows, at), peaks)
        } else {
            meter::bars(rows, row)
        },
{
    let after = meter::with_peaks(rows, at, peaks);
    row_is_found(rows, at);
    row_is_found(rows, row);
    match meter::find_row(rows, at) {
        Some(i) => {
            assert forall|k: int| 0 <= k < rows.len() implies (#[trigger] after[k]).row
                == rows[k].row by {}
            if row == at {
                last_is_found(after, at, i);
            } else {
                match meter::find_row(rows, row) {
                    Some(j) => {
                        assert forall|k: int| j < k < after.len() implies (
                        #[trigger] after[k]).row != row by {
                            assert(rows[k].row != row);
                        }
                        last_is_found(after, row, j);
                    },
                    None => {
                        row_is_found(after, row);
                        if let Some(j) = meter::find_row(after, row) {
                            assert(rows[j].row != row);
                        }
                    },
                }
            }
        },
        None => {
            let n = rows.len() as int;
            if row == at {
                last_is_found(after, at, n);
            } else {
                match meter::find_row(rows, row) {
                    Some(j) => {
                        assert forall|k: int| j < k < after.len() implies (
                        #[trigger] after[k]).row != row by {
                            if k < n {
                                assert(rows[k].row != row);
                            }
                        }
                        last_is_found(after, row, j);
                    },
                    None => {
                        row_is_found(after, row);
                        if let Some(j) = meter::find_row(after, row) {
                            if j < n {
                                assert(rows[j].row != row);
                            }
                        }
                    },
                }
            }
        },
    }
}

/// Whether bars reach what was reported: as many of them as there are channels, none
/// below its channel's peak.
pub open spec fn reach(bars: Seq<Gain>, peaks: Seq<Gain>) -> bool {
    &&& bars.len() == peaks.len()
    &&& forall|k: int| 0 <= k < peaks.len() ==> !gain::greater(#[trigger] peaks[k], bars[k])
}

/// Whether every bar is one that was there or one that was reported.
pub open spec fn of_either(bars: Seq<Gain>, were: Seq<Gain>, peaks: Seq<Gain>) -> bool {
    forall|k: int|
        0 <= k < bars.len() ==> (#[trigger] bars[k]) == meter::bar_at(were, k) || bars[k]
            == peaks[k]
}

proof fn folding_reaches(were: Seq<Gain>, peaks: Seq<Gain>)
    ensures
        reach(meter::folded(were, peaks), peaks),
        of_either(meter::folded(were, peaks), were, peaks),
{
}

proof fn fold_feeds(
    m: (Seq<MeterRowView>, bool),
    rows: Seq<RowIdView>,
    peaks: Seq<Gain>,
    n: int,
    row: RowIdView,
)
    requires
        0 <= n <= rows.len(),
    ensures
        ({
            let after = meter::bars(shell::folded_into(m, rows, peaks, n).0, row);
            &&& rows.take(n).contains(row) ==> reach(after, peaks) && of_either(
                after,
                meter::bars(m.0, row),
                peaks,
            )
            &&& !rows.take(n).contains(row) ==> after == meter::bars(m.0, row)
        }),
    decreases n,
{
    if n > 0 {
        fold_feeds(m, rows, peaks, n - 1, row);
        let before = shell::folded_into(m, rows, peaks, n - 1).0;
        peaks_are_folded(before, rows[n - 1], peaks, row);
        folding_reaches(meter::bars(before, rows[n - 1]), peaks);
        let a = rows.take(n - 1);
        let b = rows.take(n);
        if a.contains(row) {
            let k = choose|k: int| 0 <= k < a.len() && a[k] == row;
            assert(b[k] == row);
        }
        if rows[n - 1] == row {
            assert(b[n - 1] == row);
        }
        if b.contains(row) && rows[n - 1] != row {
            let k = choose|k: int| 0 <= k < b.len() && b[k] == row;
            assert(a[k] == row);
        }
    } else {
        assert(rows.take(0).len() == 0);
    }
}

/// Whether a report feeds a row.
pub open spec fn feeds(routes: MeterRoutes, report: Report, row: RowIdView) -> bool {
    ordered::lookup(routes, report.node) matches Some(rows) && rows.contains(row)
}

proof fn reports_feed(
    m: (Seq<MeterRowView>, bool),
    routes: MeterRoutes,
    reports: Seq<Report>,
    n: int,
    row: RowIdView,
    i: int,
)
    requires
        0 <= n <= reports.len(),
        -1 <= i < n,
        i >= 0 ==> feeds(routes, reports[i], row),
        forall|k: int| i < k < n ==> !feeds(routes, #[trigger] reports[k], row),
    ensures
        ({
            let after = meter::bars(shell::fed(m, routes, reports, n).0, row);
            &&& i >= 0 ==> reach(after, reports[i].peaks@)
            &&& i >= 0 && (forall|k: int| 0 <= k < i ==> !feeds(routes, #[trigger] reports[k], row))
                ==> of_either(after, meter::bars(m.0, row), reports[i].peaks@)
            &&& i < 0 ==> after == meter::bars(m.0, row)
        }),
    decreases n,
{
    if n > 0 {
        let before = shell::fed(m, routes, reports, n - 1);
        if i < n - 1 {
            reports_feed(m, routes, reports, n - 1, row, i);
            assert(!feeds(routes, reports[n - 1], row));
        } else if forall|k: int| 0 <= k < i ==> !feeds(routes, #[trigger] reports[k], row) {
            reports_feed(m, routes, reports, n - 1, row, -1);
        }
        if let Some(rows) = ordered::lookup(routes, reports[n - 1].node) {
            fold_feeds(before, rows, reports[n - 1].peaks@, rows.len() as int, row);
            assert(rows.take(rows.len() as int) =~= rows);
        }
    }
}

proof fn decay_is_each_rows_own(rows: Seq<MeterRowView>, row: RowIdView)
    ensures
        meter::bars(meter::all_decayed(rows), row) == meter::bars_decayed(
            meter::bars(rows, row),
        ),
{
    let after = meter::all_decayed(rows);
    row_is_found(rows, row);
    match meter::find_row(rows, row) {
        Some(i) => {
            assert forall|k: int| i < k < after.len() implies (#[trigger] after[k]).row != row by {
                assert(rows[k].row != row);
            }
            last_is_found(after, row, i);
        },
        None => {
            row_is_found(after, row);
            if let Some(j) = meter::find_row(after, row) {
                assert(rows[j].row != row);
            }
            assert(meter::bars_decayed(Seq::empty()) =~= Seq::empty());
        },
    }
}

/// A step of the meters lifts a row's bars to what the last report that feeds it says,
/// channel by channel, and no further: where it is the only one, every bar is what it
/// sank to or what was reported. The bars of a row that nothing feeds only sink.
pub proof fn a_report_lifts_the_rows_it_feeds(
    meters: Seq<MeterRowView>,
    routes: MeterRoutes,
    reports: Seq<Report>,
    row: RowIdView,
    i: int,
)
    requires
        -1 <= i < reports.len(),
        i >= 0 ==> feeds(routes, reports[i], row),
        forall|k: int| i < k < reports.len() ==> !feeds(routes, #[trigger] reports[k], row),
    ensures
        ({
            let after = meter::bars(shell::stepped(meters, routes, reports).0, row);
            let were = meter::bars(meters, row);
            &&& i >= 0 ==> reach(after, reports[i].peaks@)
            &&& i >= 0 && (forall|k: int| 0 <= k < i ==> !feeds(routes, #[trigger] reports[k], row))
                ==> of_either(after, meter::bars_decayed(were), reports[i].peaks@)
            &&& i < 0 ==> after.len() == were.len() && forall|k: int|
                0 <= k < after.len() ==> (#[trigger] after[k]) == meter::decayed(were[k])
        }),
{
    let start = (meter::all_decayed(meters), meter::moves(meters));
    reports_feed(start, routes, reports, reports.len() as int, row, i);
    decay_is_each_rows_own(meters, row);
}

} // verus!
