//! Meter visual model: the decayed per-row peaks and the pure math that maps a
//! bar's cells to a color tier.
//!
//! The audio threads fold raw peaks into the shared pool; each frame the shell
//! decays every bar and folds in the newest reading (decay first, so a fresh
//! reading lands at full height).

use crate::domain::Gain;
use crate::gain;
use crate::gain::{is_greater, reached, repeated, INFINITE};
use crate::single;
use crate::single::{faded_by, part_of};
use crate::ui::layout::{same_row, RowId, RowIdView};
use vstd::prelude::*;

verus! {

/// Width of a segmented meter strip, in logical pixels.
pub const METER_WIDTH: i32 = 18;

/// Whole pixels from one cell to the next, its gap included.
///
/// The pitch is kept whole so every rung is the same size with sharp edges. A
/// meter's height varies with the window, so a fixed number of cells would put
/// them on a fractional pitch, which can only be drawn by spreading the edges
/// over partial rows; at this size that reads as blur.
pub const CELL_PITCH: i32 = 4;

/// Rows of background between one cell and the next.
pub const CELL_GAP: i32 = 1;

/// Bars drawn before a stream has reported how many channels it carries.
/// Nearly everything is stereo, and a second bar appearing beside the first
/// once audio starts is more noticeable than one that was always there.
pub const ASSUMED_CHANNELS: usize = 2;

/// Milliseconds between two meter ticks: about 60 Hz.
pub const PEAK_DECAY_INTERVAL_MS: u64 = 16;

/// Decay multiplier per tick, 0.988 in units of two to the minus 24th: fast
/// attack, slow release, dropping the bar to about 10% in roughly 3 seconds.
pub const PEAK_DECAY: u32 = 16575889;

/// The bits of 0.001: below this a bar is treated as fully decayed and snapped
/// to zero.
pub const DECAY_FLOOR: u32 = 0x3a83_126f;

/// Cells of a meter `height` rows tall.
pub open spec fn cells(height: int) -> int {
    if height >= 8 {
        height / 4
    } else {
        1
    }
}

/// How many cells fit a meter `height` rows tall.
pub fn segments_for(height: i32) -> (n: i32)
    ensures
        n == cells(height as int),
{
    if height >= 8 {
        height / CELL_PITCH
    } else {
        1
    }
}

/// Cells are whole pixels whatever the height, they fit any meter tall enough
/// for one, and what they leave over is smaller than a cell.
pub proof fn cells_tile_a_meter(height: int)
    ensures
        cells(height) >= 1,
        height >= CELL_PITCH ==> cells(height) * CELL_PITCH <= height,
        height >= CELL_PITCH ==> height - cells(height) * CELL_PITCH < CELL_PITCH,
{
}

/// How many bars a row's meter shows. A row with no readings yet is drawn as
/// stereo rather than collapsed to one bar it would then have to grow out of.
pub fn bar_count(channels: usize) -> (bars: usize)
    ensures
        bars == if channels == 0 {
            ASSUMED_CHANNELS
        } else {
            channels
        },
{
    if channels == 0 {
        ASSUMED_CHANNELS
    } else {
        channels
    }
}

/// The color tier of a lit segment. Drawing resolves it to a palette color.
#[derive(Clone, Copy, PartialEq, Eq, Debug, Structural)]
pub enum Tier {
    Neutral,
    Green,
    Amber,
    Red,
}

/// A share of a cell count in units of two to the minus 24th, cut to a whole
/// one toward zero.
pub open spec fn threshold(total: int, share: nat) -> int {
    if total < 0 {
        -(single::part((-total) as nat, share) as int)
    } else {
        single::part(total as nat, share) as int
    }
}

/// The tier of a cell: neutral up to 55%, green to 70%, amber to 90%, red above.
pub open spec fn tier(from_bottom: int, total: int) -> Tier {
    if from_bottom >= threshold(total, 15099494) {
        Tier::Red
    } else if from_bottom >= threshold(total, 11744051) {
        Tier::Amber
    } else if from_bottom >= threshold(total, 9227469) {
        Tier::Green
    } else {
        Tier::Neutral
    }
}

/// How much of a cell a lit fraction fills, in 255ths to the nearest. The top lit
/// cell fills proportionally rather than snapping, which avoids stepping.
pub open spec fn coverage(lit: Gain, total: int, from_bottom: int) -> int {
    gain::reach(gain::multiplied(lit, total as nat), from_bottom as nat)
}

/// How much of cell `from_bottom` (0 = quietest) of `total` fills for a lit
/// fraction.
pub fn segment_coverage(lit: Gain, total: i32, from_bottom: i32) -> (alpha: u8)
    requires
        lit.bits <= gain::UNITY,
        0 <= from_bottom < total <= 0x100_0000,
    ensures
        alpha == coverage(lit, total as int, from_bottom as int),
{
    reached(repeated(lit, total as u32), from_bottom as u32)
}

/// Cells fill from the bottom: below one that is lit at all every cell is full, and
/// silence lights none.
pub proof fn cells_fill_from_the_bottom(lit: Gain, total: int, low: int, high: int)
    requires
        0 <= low < high < total,
    ensures
        coverage(lit, total, high) > 0 ==> coverage(lit, total, low) == 255,
        lit.bits == 0 ==> coverage(lit, total, low) == 0,
{
    let p = gain::multiplied(lit, total as nat);
    if gain::power(p) <= 150 {
        let one = single::doubled(1, (150 - gain::power(p)) as nat);
        single::doubled_bound(1, 1, (150 - gain::power(p)) as nat);
        assert(low * one + one <= high * one) by (nonlinear_arith)
            requires
                low < high,
                one >= 1,
        ;
    }
    if lit.bits == 0 {
        reveal(gain::multiplied);
        assert(gain::mantissa(lit) * total as nat == 0) by (nonlinear_arith)
            requires
                gain::mantissa(lit) == 0,
        ;
        assert(p.bits == 0);
        assert(low * single::doubled(1, 149) >= 0) by (nonlinear_arith)
            requires
                low >= 0,
                single::doubled(1, 149) >= 0,
        ;
    }
}

fn threshold_of(total: i32, share: u32) -> (t: i64)
    requires
        share < 0x100_0000,
    ensures
        t == threshold(total as int, share as nat),
{
    if total < 0 {
        -part_of((-(total as i64)) as u32, share)
    } else {
        part_of(total as u32, share)
    }
}

/// The tier of segment `from_bottom` (0 = quietest) of `total`. Neutral up to
/// 55%, green to 70%, amber to 90%, red above.
pub fn segment_tier(from_bottom: i32, total: i32) -> (t: Tier)
    ensures
        t == tier(from_bottom as int, total as int),
{
    let at: i64 = from_bottom as i64;
    if at >= threshold_of(total, 15099494) {
        Tier::Red
    } else if at >= threshold_of(total, 11744051) {
        Tier::Amber
    } else if at >= threshold_of(total, 9227469) {
        Tier::Green
    } else {
        Tier::Neutral
    }
}

/// Going up a meter never steps a tier down.
pub proof fn tiers_only_step_up(lower: int, upper: int, total: int)
    requires
        lower <= upper,
    ensures
        tier(lower, total) is Red ==> tier(upper, total) is Red,
        tier(lower, total) is Amber ==> tier(upper, total) is Red || tier(upper, total) is Amber,
        tier(upper, total) is Neutral ==> tier(lower, total) is Neutral,
{
}

/// A bar one decay step on: snapped to zero under the floor, and otherwise the
/// decayed number. A zero stays as it is, and so does what does not decay.
pub open spec fn decayed(v: Gain) -> Gain {
    if v.bits < DECAY_FLOOR || gain::below_nothing(v) {
        Gain { bits: 0 }
    } else if v.bits >= 0x7f80_0000 {
        v
    } else {
        let next = single::faded(v, PEAK_DECAY as nat);
        if next.bits < DECAY_FLOOR {
            Gain { bits: 0 }
        } else {
            next
        }
    }
}

/// One decay step for a single bar value.
fn decay_bar(v: Gain) -> (next: Gain)
    ensures
        next == decayed(v),
{
    if v.bits < DECAY_FLOOR || (v.bits > 0x8000_0000 && v.bits <= 0xff80_0000) {
        Gain { bits: 0 }
    } else if v.bits >= 0x7f80_0000 {
        v
    } else {
        let next = faded_by(v, PEAK_DECAY);
        if next.bits < DECAY_FLOOR {
            Gain { bits: 0 }
        } else {
            next
        }
    }
}

/// The bars of one row's meter.
#[derive(Debug, PartialEq, Eq)]
pub struct MeterRow {
    pub row: RowId,
    pub channels: Vec<Gain>,
}

#[verifier::ext_equal]
pub struct MeterRowView {
    pub row: RowIdView,
    pub channels: Seq<Gain>,
}

impl View for MeterRow {
    type V = MeterRowView;

    open spec fn view(&self) -> MeterRowView {
        MeterRowView { row: self.row@, channels: self.channels@ }
    }
}

/// Per-row decayed peaks: the meter's retained visual state.
#[derive(Debug, PartialEq, Eq)]
pub struct MeterState {
    pub rows: Vec<MeterRow>,
}

impl View for MeterState {
    type V = Seq<MeterRowView>;

    open spec fn view(&self) -> Seq<MeterRowView> {
        Seq::new(self.rows@.len(), |i: int| self.rows@[i]@)
    }
}

/// Where a row's meter stands.
pub open spec fn find_row(rows: Seq<MeterRowView>, row: RowIdView) -> Option<int>
    decreases rows.len(),
{
    if rows.len() == 0 {
        None
    } else if rows.last().row == row {
        Some(rows.len() - 1)
    } else {
        find_row(rows.drop_last(), row)
    }
}

/// The bars of a row, none where it has no readings yet.
pub open spec fn bars(rows: Seq<MeterRowView>, row: RowIdView) -> Seq<Gain> {
    match find_row(rows, row) {
        Some(i) => rows[i].channels,
        None => Seq::empty(),
    }
}

/// Every bar one decay step on.
pub open spec fn all_decayed(rows: Seq<MeterRowView>) -> Seq<MeterRowView> {
    Seq::new(
        rows.len(),
        |i: int| MeterRowView { channels: bars_decayed(rows[i].channels), ..rows[i] },
    )
}

pub open spec fn bars_decayed(channels: Seq<Gain>) -> Seq<Gain> {
    Seq::new(channels.len(), |k: int| decayed(channels[k]))
}

/// Whether a bar holds what is no number. Such a bar never comes to rest.
pub open spec fn restless(channels: Seq<Gain>) -> bool {
    exists|k: int| 0 <= k < channels.len() && gain::is_none(#[trigger] channels[k])
}

/// Whether a decay step moves any bar.
pub open spec fn moves(rows: Seq<MeterRowView>) -> bool {
    exists|i: int| 0 <= i < rows.len() && bars_move((#[trigger] rows[i]).channels)
}

pub open spec fn bars_move(channels: Seq<Gain>) -> bool {
    bars_decayed(channels) != channels || restless(channels)
}

/// A bar, at rest where there is none.
pub open spec fn bar_at(channels: Seq<Gain>, k: int) -> Gain {
    if k < channels.len() {
        channels[k]
    } else {
        Gain { bits: 0 }
    }
}

/// Bars with fresh peaks folded in: as many bars as peaks, each the louder of
/// what it was and what came in.
pub open spec fn folded(channels: Seq<Gain>, peaks: Seq<Gain>) -> Seq<Gain> {
    Seq::new(
        peaks.len(),
        |k: int|
            if gain::greater(peaks[k], bar_at(channels, k)) {
                peaks[k]
            } else {
                bar_at(channels, k)
            },
    )
}

/// Whatever came in, a bar that shows a number from zero on goes on showing one,
/// and never a lower one; and so it does after a decay step.
pub proof fn bars_stay_numbers(bar: Gain, peak: Gain)
    requires
        bar.bits <= gain::INFINITE,
    ensures
        folded(seq![bar], seq![peak])[0].bits <= gain::INFINITE,
        folded(seq![bar], seq![peak])[0].bits >= bar.bits,
        folded(Seq::empty(), seq![peak])[0].bits <= gain::INFINITE,
        decayed(Gain { bits: 0 }) == (Gain { bits: 0 }),
{
}

/// Meters with a row's fresh peaks folded in.
pub open spec fn with_peaks(rows: Seq<MeterRowView>, row: RowIdView, peaks: Seq<Gain>) -> Seq<
    MeterRowView,
> {
    match find_row(rows, row) {
        Some(i) => rows.update(
            i,
            MeterRowView { row, channels: folded(rows[i].channels, peaks) },
        ),
        None => rows.push(MeterRowView { row, channels: folded(Seq::empty(), peaks) }),
    }
}

/// The meters of rows that are still there, among the first `n`.
pub open spec fn kept(rows: Seq<MeterRowView>, live: Seq<RowIdView>, n: int) -> Seq<MeterRowView>
    decreases n,
{
    if n <= 0 {
        Seq::empty()
    } else if live.contains(rows[n - 1].row) {
        kept(rows, live, n - 1).push(rows[n - 1])
    } else {
        kept(rows, live, n - 1)
    }
}

pub open spec fn row_views(rows: Seq<RowId>) -> Seq<RowIdView> {
    Seq::new(rows.len(), |i: int| rows[i]@)
}

proof fn find_row_at(rows: Seq<MeterRowView>, row: RowIdView)
    ensures
        match find_row(rows, row) {
            Some(i) => 0 <= i < rows.len() && rows[i].row == row,
            None => forall|i: int| 0 <= i < rows.len() ==> (#[trigger] rows[i]).row != row,
        },
    decreases rows.len(),
{
    if rows.len() > 0 && rows.last().row != row {
        find_row_at(rows.drop_last(), row);
        if find_row(rows, row) is None {
            assert forall|i: int| 0 <= i < rows.len() implies (#[trigger] rows[i]).row
                != row by {
                if i < rows.len() - 1 {
                    assert(rows.drop_last()[i] == rows[i]);
                }
            }
        }
    }
}

impl MeterState {
    pub fn new() -> (m: Self)
        ensures
            m@ == Seq::<MeterRowView>::empty(),
    {
        let m = MeterState { rows: Vec::new() };
        assert(m@ =~= Seq::<MeterRowView>::empty());
        m
    }

    fn position(&self, row: &RowId) -> (at: Option<usize>)
        ensures
            match at {
                Some(i) => find_row(self@, row@) == Some(i as int) && i < self.rows@.len(),
                None => find_row(self@, row@) is None,
            },
    {
        let ghost all = self@;
        let mut i: usize = self.rows.len();
        assert(all.take(i as int) =~= all);
        while i > 0
            invariant
                i <= self.rows@.len(),
                all == self@,
                find_row(all, row@) == find_row(all.take(i as int), row@),
            decreases i,
        {
            assert(all.take(i as int).last() == self.rows@[i - 1]@);
            assert(all.take(i as int).drop_last() =~= all.take(i - 1));
            if same_row(&self.rows[i - 1].row, row) {
                return Some(i - 1);
            }
            i = i - 1;
        }
        None
    }

    /// Ease every bar of every row toward zero. Runs once per tick, before the
    /// fresh readings are folded in. Reports whether any bar moved, so a silent
    /// window can skip repainting entirely.
    pub fn decay(&mut self) -> (changed: bool)
        ensures
            final(self)@ == all_decayed(old(self)@),
            changed == moves(old(self)@),
    {
        let ghost all = self@;
        let n: usize = self.rows.len();
        let mut changed = false;
        let mut i: usize = 0;
        while i < n
            invariant
                i <= n == all.len(),
                self.rows@.len() == n,
                all == old(self)@,
                forall|k: int|
                    0 <= k < i ==> (#[trigger] self.rows@[k])@ == all_decayed(all)[k],
                forall|k: int| i <= k < n ==> (#[trigger] self.rows@[k])@ == all[k],
                changed == (exists|k: int| 0 <= k < i && bars_move((#[trigger] all[k]).channels)),
            decreases n - i,
        {
            let moved = decay_bars(&mut self.rows[i].channels);
            assert(self.rows@[i as int]@ =~= all_decayed(all)[i as int]);
            assert(moved == bars_move(all[i as int].channels));
            changed = changed || moved;
            i = i + 1;
        }
        assert(self@ =~= all_decayed(all));
        changed
    }

    /// Fold fresh per-channel peaks into a row, keeping the louder of current
    /// and incoming. Resizes on a channel-count change. Reports whether any bar
    /// rose or the number of bars changed.
    pub fn apply(&mut self, row: &RowId, peaks: &Vec<Gain>) -> (changed: bool)
        ensures
            final(self)@ == with_peaks(old(self)@, row@, peaks@),
            changed == (bars(final(self)@, row@) != bars(old(self)@, row@)),
    {
        let ghost all = self@;
        proof {
            find_row_at(all, row@);
        }
        match self.position(row) {
            Some(at) => {
                let changed = fold_peaks(&mut self.rows[at].channels, peaks);
                proof {
                    assert(self@ =~= with_peaks(all, row@, peaks@));
                    same_place(all, self@, row@, at as int);
                }
                changed
            },
            None => {
                let mut channels: Vec<Gain> = Vec::new();
                let changed = fold_peaks(&mut channels, peaks);
                let fresh = MeterRow { row: row.clone(), channels };
                let ghost model = fresh@;
                self.rows.push(fresh);
                proof {
                    assert(self@ =~= all.push(model));
                    assert(self@.last().row == row@);
                }
                changed
            },
        }
    }

    /// The current per-channel peaks for a row, empty if it has none yet.
    pub fn channels(&self, row: &RowId) -> (out: Vec<Gain>)
        ensures
            out@ == bars(self@, row@),
    {
        match self.position(row) {
            Some(at) => {
                let bars = &self.rows[at].channels;
                let mut out: Vec<Gain> = Vec::new();
                let mut i: usize = 0;
                while i < bars.len()
                    invariant
                        i <= bars@.len(),
                        out@ =~= bars@.take(i as int),
                    decreases bars@.len() - i,
                {
                    out.push(bars[i]);
                    i = i + 1;
                }
                assert(out@ =~= bars@);
                out
            },
            None => Vec::new(),
        }
    }

    /// Drop rows that are not live any more, freeing meter state for vanished
    /// rows.
    pub fn retain(&mut self, live: &Vec<RowId>)
        ensures
            final(self)@ == kept(old(self)@, row_views(live@), old(self)@.len() as int),
    {
        let ghost all = self@;
        let ghost alive = row_views(live@);
        let mut left: Vec<MeterRow> = Vec::new();
        let mut out = MeterState { rows: Vec::new() };
        std::mem::swap(&mut left, &mut self.rows);
        let ghost mut n: int = 0;
        assert(out@ =~= Seq::<MeterRowView>::empty());
        while left.len() > 0
            invariant
                0 <= n <= all.len(),
                n + left@.len() == all.len(),
                alive == row_views(live@),
                forall|k: int| 0 <= k < left@.len() ==> (#[trigger] left@[k])@ == all[n + k],
                out@ == kept(all, alive, n),
            decreases left@.len(),
        {
            let ghost before = left@;
            let one = left.remove(0);
            assert(one@ == before[0]@);
            assert forall|k: int| 0 <= k < left@.len() implies (#[trigger] left@[k])@ == all[n + 1
                + k] by {
                assert(before[k + 1]@ == all[n + (k + 1)]);
            }
            if is_live(live, &one.row) {
                let ghost so_far = out@;
                let ghost model = one@;
                out.rows.push(one);
                assert(out@ =~= so_far.push(model));
            }
            proof {
                n = n + 1;
            }
        }
        std::mem::swap(&mut out.rows, &mut self.rows);
        assert(self@ =~= kept(all, alive, n));
    }
}

/// Changing a row's bars leaves it where it stands.
proof fn same_place(before: Seq<MeterRowView>, after: Seq<MeterRowView>, row: RowIdView, at: int)
    requires
        before.len() == after.len(),
        find_row(before, row) == Some(at),
        0 <= at < before.len(),
        forall|i: int|
            0 <= i < before.len() ==> (#[trigger] before[i]).row == (#[trigger] after[i]).row,
    ensures
        find_row(after, row) == Some(at),
    decreases before.len(),
{
    assert(before[before.len() - 1].row == after[after.len() - 1].row);
    if before.last().row != row {
        find_row_at(before.drop_last(), row);
        assert forall|i: int| 0 <= i < before.len() - 1 implies (
        #[trigger] before.drop_last()[i]).row == (#[trigger] after.drop_last()[i]).row by {
            assert(before[i].row == after[i].row);
        }
        same_place(before.drop_last(), after.drop_last(), row, at);
    }
}

fn is_live(live: &Vec<RowId>, row: &RowId) -> (b: bool)
    ensures
        b == row_views(live@).contains(row@),
{
    let ghost alive = row_views(live@);
    let mut i: usize = 0;
    while i < live.len()
        invariant
            i <= live@.len() == alive.len(),
            alive == row_views(live@),
            forall|k: int| 0 <= k < i ==> alive[k] != row@,
        decreases live@.len() - i,
    {
        assert(alive[i as int] == live@[i as int]@);
        if same_row(&live[i], row) {
            return true;
        }
        i = i + 1;
    }
    false
}

fn decay_bars(channels: &mut Vec<Gain>) -> (changed: bool)
    ensures
        final(channels)@ == bars_decayed(old(channels)@),
        changed == bars_move(old(channels)@),
{
    let ghost all = channels@;
    let n: usize = channels.len();
    let mut changed = false;
    let mut i: usize = 0;
    while i < n
        invariant
            i <= n == all.len(),
            channels@.len() == n,
            all == old(channels)@,
            forall|k: int| 0 <= k < i ==> channels@[k] == decayed(#[trigger] all[k]),
            forall|k: int| i <= k < n ==> channels@[k] == #[trigger] all[k],
            changed == (exists|k: int|
                0 <= k < i && (decayed(all[k]) != #[trigger] all[k] || gain::is_none(all[k]))),
        decreases n - i,
    {
        let v: Gain = channels[i];
        assert(v == all[i as int]);
        let next = decay_bar(v);
        if next != v || v.bits % 0x8000_0000 > INFINITE {
            channels[i] = next;
            changed = true;
        }
        i = i + 1;
    }
    assert(channels@ =~= bars_decayed(all));
    proof {
        if changed {
            let k = choose|k: int|
                0 <= k < n && (decayed(all[k]) != #[trigger] all[k] || gain::is_none(all[k]));
            assert(bars_decayed(all)[k] == decayed(all[k]));
            assert(bars_move(all));
        } else {
            assert(bars_decayed(all) =~= all);
        }
    }
    changed
}

fn fold_peaks(channels: &mut Vec<Gain>, peaks: &Vec<Gain>) -> (changed: bool)
    ensures
        final(channels)@ == folded(old(channels)@, peaks@),
        changed == (final(channels)@ != old(channels)@),
{
    let ghost all = channels@;
    let n: usize = peaks.len();
    let mut out: Vec<Gain> = Vec::new();
    let mut changed = channels.len() != n;
    let mut i: usize = 0;
    while i < n
        invariant
            i <= n == peaks@.len(),
            channels@ == all,
            out@.len() == i,
            forall|k: int| 0 <= k < i ==> #[trigger] out@[k] == folded(all, peaks@)[k],
            changed == (all.len() != n || exists|k: int|
                0 <= k < i && folded(all, peaks@)[k] != #[trigger] all[k]),
        decreases n - i,
    {
        let incoming: Gain = peaks[i];
        let slot: Gain = if i < channels.len() {
            channels[i]
        } else {
            Gain { bits: 0 }
        };
        if is_greater(incoming, slot) {
            out.push(incoming);
            if i < channels.len() {
                assert(folded(all, peaks@)[i as int] != all[i as int]);
            }
            changed = true;
        } else {
            out.push(slot);
        }
        i = i + 1;
    }
    *channels = out;
    assert(channels@ =~= folded(all, peaks@));
    proof {
        if changed && all.len() == n {
            let k = choose|k: int| 0 <= k < n && folded(all, peaks@)[k] != #[trigger] all[k];
            assert(channels@[k] != all[k]);
        } else if !changed {
            assert(channels@ =~= all);
        }
    }
    changed
}

/// Fresh peaks reach their own row and no other. There they lift each bar that is
/// lower, bar by bar, and lower none.
pub proof fn peaks_lift_their_own_row(
    rows: Seq<MeterRowView>,
    row: RowIdView,
    peaks: Seq<Gain>,
    other: RowIdView,
    k: int,
)
    requires
        forall|i: int, j: int|
            0 <= i < j < rows.len() ==> (#[trigger] rows[i]).row != (#[trigger] rows[j]).row,
        0 <= k < peaks.len(),
    ensures
        other != row ==> bars(with_peaks(rows, row, peaks), other) == bars(rows, other),
        bars(with_peaks(rows, row, peaks), row).len() == peaks.len(),
        ({
            let was = if k < bars(rows, row).len() {
                bars(rows, row)[k]
            } else {
                Gain { bits: 0 }
            };
            let is = bars(with_peaks(rows, row, peaks), row)[k];
            &&& is == was || is == peaks[k]
            &&& !gain::is_none(was) && !gain::is_none(peaks[k]) ==> gain::place(is) >= gain::place(
                was,
            ) && gain::place(is) >= gain::place(peaks[k])
            &&& gain::is_none(peaks[k]) ==> is == was
        }),
{
    let next = with_peaks(rows, row, peaks);
    find_row_at(rows, row);
    find_row_at(next, row);
    find_row_at(rows, other);
    find_row_at(next, other);
    match find_row(rows, row) {
        Some(i) => {
            assert(next[i].row == row);
        },
        None => {
            assert(next.last().row == row);
        },
    }
    if other != row {
        if let Some(j) = find_row(rows, other) {
            assert(next[j] == rows[j]);
        }
    }
}

} // verus!
