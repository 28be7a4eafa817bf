//! The half of a running window that does not depend on where its events came
//! from: the core, the retained UI, the current projection, and the ticks whose
//! timing is the same either way.
//!
//! A shell owns one of these and keeps for itself only its event source and the
//! path a painted frame takes to the screen.

use crate::domain::Gain;
use crate::ordered;
use crate::ordered::OrderedMap;
use crate::runtime::Runtime;
use crate::settings::Settings;
use crate::state::empty;
use crate::text;
use crate::ui::layout::{RowId, RowIdView};
use crate::ui::meter;
use crate::ui::meter::{MeterRowView, MeterState};
use crate::ui::{Dirty, UiModel, UiState};
use crate::view::rows::Levels;
use crate::view::snapshot;
use crate::view::snapshot::{build_snapshot, MeterRoute, MeterRoutes, ViewSnapshot};
use vstd::prelude::*;

verus! {

/// The shared half of a running window.
pub struct Shell {
    pub runtime: Runtime,
    pub ui: UiState,
    pub snapshot: ViewSnapshot,
}

/// The rows the first `n` routes feed.
pub open spec fn live_rows(routes: MeterRoutes, n: int) -> Seq<RowIdView>
    decreases n,
{
    if n <= 0 {
        Seq::empty()
    } else {
        live_rows(routes, n - 1) + routes[n - 1].1
    }
}

fn rows_alive(routes: &OrderedMap<u32, MeterRoute>) -> (live: Vec<RowId>)
    ensures
        meter::row_views(live@) == live_rows(routes@, routes@.len() as int),
{
    let mut live: Vec<RowId> = Vec::new();
    let ghost all = routes@;
    let mut i: usize = 0;
    assert(meter::row_views(live@) =~= live_rows(all, 0));
    while i < routes.entries.len()
        invariant
            i <= routes.entries@.len() == all.len(),
            all == routes@,
            meter::row_views(live@) == live_rows(all, i as int),
        decreases routes.entries@.len() - i,
    {
        let route = &routes.entries[i].1.rows;
        assert(all[i as int].1 == routes.entries@[i as int].1@);
        let ghost before = meter::row_views(live@);
        let ghost mine = all[i as int].1;
        let mut k: usize = 0;
        assert(before =~= before + mine.take(0));
        while k < route.len()
            invariant
                k <= route@.len() == mine.len(),
                forall|j: int| 0 <= j < mine.len() ==> #[trigger] mine[j] == route@[j]@,
                meter::row_views(live@) == before + mine.take(k as int),
            decreases route@.len() - k,
        {
            let ghost so_far = meter::row_views(live@);
            let row = route[k].clone();
            assert(mine[k as int] == row@);
            let ghost view = row@;
            live.push(row);
            assert(meter::row_views(live@) =~= so_far.push(view));
            assert(mine.take(k + 1) =~= mine.take(k as int).push(mine[k as int]));
            k = k + 1;
            assert(meter::row_views(live@) =~= before + mine.take(k as int));
        }
        assert(mine.take(k as int) =~= mine);
        i = i + 1;
    }
    live
}

/// The retained UI once the projection has been rebuilt. Rows that no longer exist
/// stop being animated and stop being kept: nothing else drops them, and every
/// reconnect mints a fresh node id.
pub open spec fn refreshed(ui: UiModel, routes: MeterRoutes) -> UiModel {
    UiModel {
        meters: meter::kept(
            ui.meters,
            live_rows(routes, routes.len() as int),
            ui.meters.len() as int,
        ),
        dirty: Dirty { layout: true, full: true, ..ui.dirty },
        ..ui
    }
}

/// What each channel of a node has peaked at since the last step.
pub struct Report {
    pub node: u32,
    pub peaks: Vec<Gain>,
}

/// The meters once a report has been folded into the first `n` rows it feeds, and
/// whether anything moved.
pub open spec fn folded_into(
    m: (Seq<MeterRowView>, bool),
    rows: Seq<RowIdView>,
    peaks: Seq<Gain>,
    n: int,
) -> (Seq<MeterRowView>, bool)
    decreases n,
{
    if n <= 0 {
        m
    } else {
        let (before, moved) = folded_into(m, rows, peaks, n - 1);
        let after = meter::with_peaks(before, rows[n - 1], peaks);
        (
            after,
            moved || meter::bars(after, rows[n - 1]) != meter::bars(before, rows[n - 1]),
        )
    }
}

/// The meters once the first `n` reports have been folded in: each into the rows
/// its node feeds, none for a node that feeds nothing.
pub open spec fn fed(
    m: (Seq<MeterRowView>, bool),
    routes: MeterRoutes,
    reports: Seq<Report>,
    n: int,
) -> (Seq<MeterRowView>, bool)
    decreases n,
{
    if n <= 0 {
        m
    } else {
        let before = fed(m, routes, reports, n - 1);
        match ordered::lookup(routes, reports[n - 1].node) {
            Some(rows) => folded_into(
                before,
                rows,
                reports[n - 1].peaks@,
                rows.len() as int,
            ),
            None => before,
        }
    }
}

/// One step of the meters: every bar decays, then the peaks left since the last
/// step are folded in.
pub open spec fn stepped(
    meters: Seq<MeterRowView>,
    routes: MeterRoutes,
    reports: Seq<Report>,
) -> (Seq<MeterRowView>, bool) {
    fed((meter::all_decayed(meters), meter::moves(meters)), routes, reports, reports.len() as int)
}

fn fold_into(meters: &mut MeterState, route: &MeterRoute, peaks: &Vec<Gain>, before: bool) -> (moved:
    bool)
    ensures
        (final(meters)@, moved) == folded_into(
            (old(meters)@, before),
            route@,
            peaks@,
            route@.len() as int,
        ),
{
    let ghost start = (meters@, before);
    let ghost rows = route@;
    let mut moved = before;
    let mut i: usize = 0;
    while i < route.rows.len()
        invariant
            i <= route.rows@.len() == rows.len(),
            rows == route@,
            (meters@, moved) == folded_into(start, rows, peaks@, i as int),
        decreases route.rows@.len() - i,
    {
        assert(rows[i as int] == route.rows@[i as int]@);
        let changed = meters.apply(&route.rows[i], peaks);
        moved = moved || changed;
        i = i + 1;
    }
    moved
}

fn feed(
    meters: &mut MeterState,
    routes: &OrderedMap<u32, MeterRoute>,
    reports: &Vec<Report>,
    before: bool,
) -> (moved: bool)
    requires
        routes.wf(),
    ensures
        (final(meters)@, moved) == fed(
            (old(meters)@, before),
            routes@,
            reports@,
            reports@.len() as int,
        ),
{
    let ghost start = (meters@, before);
    let mut moved = before;
    let mut i: usize = 0;
    while i < reports.len()
        invariant
            i <= reports@.len(),
            routes.wf(),
            (meters@, moved) == fed(start, routes@, reports@, i as int),
        decreases reports@.len() - i,
    {
        if let Some(route) = routes.get(&reports[i].node) {
            moved = fold_into(meters, route, &reports[i].peaks, moved);
        }
        i = i + 1;
    }
    moved
}

impl Shell {
    /// Take ownership of the booted core and project it once, so the first frame
    /// has something to draw.
    pub fn new(runtime: Runtime, settings: Settings, levels: &Levels, commands: Vec<String>) -> (shell:
        Shell)
        requires
            runtime.state.wf(),
            levels.wf(),
        ensures
            shell.wf(),
            shell.runtime == runtime,
            shell.snapshot@ == snapshot::snapshot_of(
                runtime.state@,
                levels@,
                text::texts(commands@),
            ),
            shell.ui@ == refreshed(
                (UiModel { settings, ..UiModel::fresh() }),
                shell.snapshot@.meter_routes,
            ),
    {
        let mut ui = UiState::new();
        ui.settings = settings;
        let snapshot = build_snapshot(&empty(), &Levels::new(), Vec::new());
        let mut shell = Shell { runtime, ui, snapshot };
        shell.refresh(levels, commands);
        shell
    }

    /// A well-formed state, drawn from a well-formed projection.
    pub open spec fn wf(&self) -> bool {
        &&& self.runtime.state.wf()
        &&& self.snapshot.meter_routes.wf()
        &&& self.ui@.wf()
    }

    /// Rebuild the render-ready projection after a state change.
    pub fn refresh(&mut self, levels: &Levels, commands: Vec<String>)
        requires
            old(self).runtime.state.wf(),
            old(self).ui@.wf(),
            levels.wf(),
        ensures
            final(self).wf(),
            final(self).runtime == old(self).runtime,
            final(self).snapshot@ == snapshot::snapshot_of(
                old(self).runtime.state@,
                levels@,
                text::texts(commands@),
            ),
            final(self).ui@ == refreshed(old(self).ui@, final(self).snapshot@.meter_routes),
    {
        self.snapshot = build_snapshot(&self.runtime.state, levels, commands);
        let live = rows_alive(&self.snapshot.meter_routes);
        self.ui.meters.retain(&live);
        self.ui.dirty.mark_layout();
    }

    /// Step the meters: decay every bar, then fold in the peaks the audio threads
    /// have left since the last step. Reports whether anything moved, so a window
    /// whose bars are all at rest skips its repaint.
    pub fn tick_meters(&mut self, reports: &Vec<Report>) -> (moved: bool)
        requires
            old(self).wf(),
        ensures
            final(self).wf(),
            final(self).runtime == old(self).runtime,
            final(self).snapshot == old(self).snapshot,
            final(self).ui@ == (UiModel {
                meters: stepped(
                    old(self).ui@.meters,
                    old(self).snapshot@.meter_routes,
                    reports@,
                ).0,
                ..old(self).ui@
            }),
            moved == stepped(
                old(self).ui@.meters,
                old(self).snapshot@.meter_routes,
                reports@,
            ).1,
    {
        let moved = self.ui.meters.decay();
        feed(&mut self.ui.meters, &self.snapshot.meter_routes, reports, moved)
    }

    /// Ease the knob rings toward wherever the pointer is. Driven by the clock, in
    /// nanoseconds, rather than a step per call, so it is safe on whatever turn the
    /// loop is on. Reports whether anything is still moving.
    pub fn tick_halo(&mut self, now: u64) -> (moving: bool)
        ensures
            final(self).runtime == old(self).runtime,
            final(self).snapshot == old(self).snapshot,
            final(self).ui@ == (UiModel {
                halo: old(self).ui@.halo.advanced(old(self).ui@.lit(), now).0,
                ..old(self).ui@
            }),
            moving == old(self).ui@.halo.advanced(old(self).ui@.lit(), now).1,
    {
        let lit = self.ui.lit_knob();
        match &lit {
            Some(row) => self.ui.halo.advance(Some(row), now),
            None => self.ui.halo.advance(None, now),
        }
    }

    /// Flip the caret, while a field has focus. Reports whether it changed.
    pub fn tick_caret(&mut self) -> (changed: bool)
        ensures
            final(self).runtime == old(self).runtime,
            final(self).snapshot == old(self).snapshot,
            final(self).ui@ == (UiModel {
                caret_visible: old(self).ui@.focus == crate::ui::Focus::Body || !old(
                    self,
                ).ui@.caret_visible,
                ..old(self).ui@
            }),
            changed == (final(self).ui@.caret_visible != old(self).ui@.caret_visible),
    {
        self.ui.blink_caret()
    }
}

/// A refresh keeps no meter whose row is gone, and changes no bar of a row that is
/// still there.
pub proof fn refreshing_drops_only_dead_rows(
    rows: Seq<MeterRowView>,
    live: Seq<RowIdView>,
    n: int,
    i: int,
)
    requires
        0 <= n <= rows.len(),
        0 <= i < meter::kept(rows, live, n).len(),
    ensures
        live.contains(meter::kept(rows, live, n)[i].row),
        exists|k: int| 0 <= k < n && #[trigger] rows[k] == meter::kept(rows, live, n)[i],
    decreases n,
{
    let before = meter::kept(rows, live, n - 1);
    if i < before.len() {
        refreshing_drops_only_dead_rows(rows, live, n - 1, i);
        assert(meter::kept(rows, live, n)[i] == before[i]);
    } else {
        assert(rows[n - 1] == meter::kept(rows, live, n)[i]);
    }
}

} // verus!
