//! The knob's hover ring, and how it fades.
//!
//! The ring is not switched on and off: it eases in while the pointer is over a
//! knob and eases back out when it leaves, so moving across a row of faders does
//! not flash. One row rises while another falls, which is why this holds a value
//! per row rather than a single lit one.
//!
//! Progress is driven by the clock rather than by a step per tick, so the fade
//! takes the same time however often the loop happens to wake.

use crate::ui::layout;
use crate::ui::layout::{same_row, RowId, RowIdView};
use vstd::prelude::*;

verus! {

/// How many nanoseconds the ring takes to reach full strength, and to fall back
/// from it. Shorter, and it is there before the eye catches it moving.
pub const FADE: u64 = 220_000_000;

/// This near to an end of the fade a ring has reached it: the thousandth part.
pub const EPSILON: u64 = 220_000;

/// How far one row's ring has risen, in nanoseconds of the fade.
#[derive(Debug, PartialEq, Eq)]
pub struct HaloRow {
    pub row: RowId,
    pub rise: u64,
}

/// Per-row rings.
#[derive(Debug, PartialEq, Eq)]
pub struct HaloState {
    pub rows: Vec<HaloRow>,
    /// When the last advance ran, so the next one knows how much time passed.
    pub last: Option<u64>,
}

pub type Rises = Seq<(RowIdView, u64)>;

#[verifier::ext_equal]
pub struct HaloModel {
    pub rows: Rises,
    pub last: Option<u64>,
}

pub open spec fn rises(rows: Seq<HaloRow>) -> Rises {
    Seq::new(rows.len(), |i: int| (rows[i].row@, rows[i].rise))
}

impl View for HaloState {
    type V = HaloModel;

    open spec fn view(&self) -> HaloModel {
        HaloModel { rows: rises(self.rows@), last: self.last }
    }
}

/// Whether a row is among the first `n` that are animated.
pub open spec fn animated(rows: Rises, row: RowIdView, n: int) -> bool
    decreases n,
{
    n > 0 && (rows[n - 1].0 == row || animated(rows, row, n - 1))
}

/// How far a row's ring has risen, by the last of the first `n` entries for it.
pub open spec fn rise_of(rows: Rises, row: RowIdView, n: int) -> u64
    decreases n,
{
    if n <= 0 {
        0
    } else if rows[n - 1].0 == row {
        rows[n - 1].1
    } else {
        rise_of(rows, row, n - 1)
    }
}

/// Where a row's ring is going.
pub open spec fn target(lit: Option<RowIdView>, row: RowIdView) -> u64 {
    if lit == Some(row) {
        FADE
    } else {
        0
    }
}

/// A ring some nanoseconds on.
pub open spec fn moved(rise: u64, target: u64, step: nat) -> u64 {
    if rise <= target + EPSILON && target <= rise + EPSILON {
        target
    } else if target > rise {
        if rise + step < target {
            (rise + step) as u64
        } else {
            target
        }
    } else if rise - step > target {
        (rise - step) as u64
    } else {
        target
    }
}

/// The rows with the lit one among them, so it has something to rise from.
pub open spec fn with_lit(rows: Rises, lit: Option<RowIdView>) -> Rises {
    match lit {
        Some(row) => if animated(rows, row, rows.len() as int) {
            rows
        } else {
            rows.push((row, 0))
        },
        None => rows,
    }
}

/// The first `n` rings some nanoseconds on. A row is kept while it still shows
/// something or still has somewhere to go.
pub open spec fn all_moved(rows: Rises, lit: Option<RowIdView>, step: nat, n: int) -> Rises
    decreases n,
{
    if n <= 0 {
        Seq::empty()
    } else {
        let (row, rise) = rows[n - 1];
        let next = moved(rise, target(lit, row), step);
        let rest = all_moved(rows, lit, step, n - 1);
        if next > EPSILON || target(lit, row) > 0 {
            rest.push((row, next))
        } else {
            rest
        }
    }
}

/// Whether any of the first `n` rings moves.
pub open spec fn any_moved(rows: Rises, lit: Option<RowIdView>, step: nat, n: int) -> bool
    decreases n,
{
    n > 0 && (any_moved(rows, lit, step, n - 1) || moved(
        rows[n - 1].1,
        target(lit, rows[n - 1].0),
        step,
    ) != rows[n - 1].1)
}

impl HaloModel {
    /// The rings at a moment, and whether anything moved since the last one: the
    /// lit row's toward full, the rest toward nothing. The first time, nothing has
    /// had time to move yet.
    pub open spec fn advanced(self, lit: Option<RowIdView>, now: u64) -> (HaloModel, bool) {
        let rows = with_lit(self.rows, lit);
        let n = rows.len() as int;
        let fresh = rows != self.rows;
        match self.last {
            None => (HaloModel { rows, last: Some(now) }, fresh),
            Some(last) => {
                let step = if now > last {
                    (now - last) as nat
                } else {
                    0
                };
                (
                    HaloModel { rows: all_moved(rows, lit, step, n), last: Some(now) },
                    fresh || any_moved(rows, lit, step, n),
                )
            },
        }
    }

    pub open spec fn blank() -> HaloModel {
        HaloModel { rows: Seq::empty(), last: None }
    }

    /// How strongly a row's ring shows, in nanoseconds of the fade: eased, so it
    /// leaves quickly and settles gently rather than running at one speed.
    pub open spec fn strength(self, row: RowIdView) -> u64 {
        ease(rise_of(self.rows, row, self.rows.len() as int))
    }
}

/// Cubic ease-out: fast at the start, slow at the finish.
pub open spec fn ease(rise: u64) -> u64 {
    if rise >= FADE {
        FADE
    } else {
        let left = (FADE - rise) as int;
        (FADE - left * left / (FADE as int) * left / (FADE as int)) as u64
    }
}

/// How strongly a ring shows that has risen this far.
pub fn ease_out(rise: u64) -> (s: u64)
    ensures
        s == ease(rise),
        s <= FADE,
{
    if rise >= FADE {
        return FADE;
    }
    let left: u64 = FADE - rise;
    assert(left * left <= FADE * FADE) by (nonlinear_arith)
        requires
            left <= FADE,
    ;
    let square: u64 = left * left / FADE;
    assert(square <= FADE);
    assert(square * left <= FADE * FADE) by (nonlinear_arith)
        requires
            left <= FADE,
            square <= FADE,
    ;
    FADE - square * left / FADE
}

fn move_ring(rise: u64, target: u64, step: u64) -> (next: u64)
    requires
        target <= FADE,
    ensures
        next == moved(rise, target, step as nat),
{
    let near = if rise <= target {
        target - rise <= EPSILON
    } else {
        rise - target <= EPSILON
    };
    if near {
        target
    } else if target > rise {
        if step < target - rise {
            rise + step
        } else {
            target
        }
    } else if step < rise - target {
        rise - step
    } else {
        target
    }
}

fn goal(lit: Option<&RowId>, row: &RowId) -> (t: u64)
    ensures
        t == target(layout::row_ref_view(lit), row@),
        t <= FADE,
{
    match lit {
        Some(r) => if same_row(r, row) {
            FADE
        } else {
            0
        },
        None => 0,
    }
}

impl HaloState {
    pub fn new() -> (halo: Self)
        ensures
            halo@ == HaloModel::blank(),
    {
        let halo = HaloState { rows: Vec::new(), last: None };
        assert(halo@.rows =~= Seq::empty());
        halo
    }

    fn is_animated(&self, row: &RowId) -> (there: bool)
        ensures
            there == animated(self@.rows, row@, self@.rows.len() as int),
    {
        let mut there = false;
        let mut i: usize = 0;
        while i < self.rows.len()
            invariant
                i <= self.rows@.len(),
                there == animated(self@.rows, row@, i as int),
            decreases self.rows@.len() - i,
        {
            assert(self@.rows[i as int] == (self.rows@[i as int].row@, self.rows@[i as int].rise));
            if same_row(&self.rows[i].row, row) {
                there = true;
            }
            i = i + 1;
        }
        there
    }

    /// Make sure the lit row is being animated, so it has something to rise from.
    /// Reports whether it had to be added.
    fn sync_target(&mut self, lit: Option<&RowId>) -> (fresh: bool)
        ensures
            final(self)@ == (HaloModel {
                rows: with_lit(old(self)@.rows, layout::row_ref_view(lit)),
                ..old(self)@
            }),
            fresh == (final(self)@.rows != old(self)@.rows),
    {
        if let Some(row) = lit {
            if !self.is_animated(row) {
                let ghost before = self@.rows;
                self.rows.push(HaloRow { row: row.clone(), rise: 0 });
                assert(self@.rows =~= before.push((row@, 0u64)));
                assert(self@.rows.len() == before.len() + 1);
                return true;
            }
        }
        false
    }

    /// Move every row toward its target: the lit row toward full, the rest toward
    /// nothing. Reports whether anything moved, so a still window can skip
    /// repainting.
    pub fn advance(&mut self, lit: Option<&RowId>, now: u64) -> (changed: bool)
        ensures
            final(self)@ == old(self)@.advanced(layout::row_ref_view(lit), now).0,
            changed == old(self)@.advanced(layout::row_ref_view(lit), now).1,
    {
        let ghost on = layout::row_ref_view(lit);
        let last = self.last;
        let mut changed = self.sync_target(lit);
        self.last = Some(now);
        let then: u64 = match last {
            Some(then) => then,
            None => {
                return changed;
            },
        };
        let step: u64 = now.saturating_sub(then);
        let ghost rows = self@.rows;
        let ghost fresh = changed;
        let mut out: Vec<HaloRow> = Vec::new();
        let mut i: usize = 0;
        assert(rises(out@) =~= Seq::empty());
        while i < self.rows.len()
            invariant
                i <= self.rows@.len(),
                rows == rises(self.rows@),
                on == layout::row_ref_view(lit),
                rises(out@) == all_moved(rows, on, step as nat, i as int),
                changed == (fresh || any_moved(rows, on, step as nat, i as int)),
            decreases self.rows@.len() - i,
        {
            let one = &self.rows[i];
            assert(rows[i as int] == (one.row@, one.rise));
            let goal: u64 = goal(lit, &one.row);
            let next: u64 = move_ring(one.rise, goal, step);
            if next != one.rise {
                changed = true;
            }
            if next > EPSILON || goal > 0 {
                let ghost before = rises(out@);
                out.push(HaloRow { row: one.row.clone(), rise: next });
                assert(rises(out@) =~= before.push((one.row@, next)));
            }
            i = i + 1;
        }
        self.rows = out;
        changed
    }

    /// How strongly a row's ring shows, in nanoseconds of the fade.
    pub fn strength(&self, row: &RowId) -> (s: u64)
        ensures
            s == self@.strength(row@),
            s <= FADE,
    {
        let mut rise: u64 = 0;
        let mut i: usize = 0;
        while i < self.rows.len()
            invariant
                i <= self.rows@.len(),
                rise == rise_of(self@.rows, row@, i as int),
            decreases self.rows@.len() - i,
        {
            assert(self@.rows[i as int] == (self.rows@[i as int].row@, self.rows@[i as int].rise));
            if same_row(&self.rows[i].row, row) {
                rise = self.rows[i].rise;
            }
            i = i + 1;
        }
        ease_out(rise)
    }
}

// --- Laws ------------------------------------------------------------------------------------

/// The ease runs from nothing to full, never backwards.
pub proof fn the_ease_never_turns_back(a: u64, b: u64)
    requires
        a <= b,
    ensures
        ease(0) == 0,
        ease(FADE) == FADE,
        ease(a) <= ease(b) <= FADE,
{
    assert(FADE * FADE / (FADE as int) == FADE) by (nonlinear_arith);
    let f = FADE as int;
    if b < FADE {
        let (x, y) = (f - a, f - b);
        assert(y * y <= x * x && 0 <= y * y) by (nonlinear_arith)
            requires
                0 <= y <= x,
        ;
        let (p, q) = (x * x / f, y * y / f);
        assert(0 <= q <= p) by {
            vstd::arithmetic::div_mod::lemma_div_is_ordered(y * y, x * x, f);
        }
        assert(q * y <= p * x && 0 <= q * y) by (nonlinear_arith)
            requires
                0 <= q <= p,
                0 <= y <= x,
        ;
        vstd::arithmetic::div_mod::lemma_div_is_ordered(q * y, p * x, f);
        assert(x * x <= f * f) by (nonlinear_arith)
            requires
                0 <= x <= f,
        ;
        vstd::arithmetic::div_mod::lemma_div_is_ordered(x * x, f * f, f);
        assert(p * x <= f * f) by (nonlinear_arith)
            requires
                0 <= p <= f,
                0 <= x <= f,
        ;
        vstd::arithmetic::div_mod::lemma_div_is_ordered(p * x, f * f, f);
    } else if a < FADE {
        let x = f - a;
        assert(x * x <= f * f && 0 <= x * x) by (nonlinear_arith)
            requires
                0 <= x <= f,
        ;
        let p = x * x / f;
        vstd::arithmetic::div_mod::lemma_div_is_ordered(x * x, f * f, f);
        assert(p * x <= f * f && 0 <= p * x) by (nonlinear_arith)
            requires
                0 <= p <= f,
                0 <= x <= f,
        ;
        vstd::arithmetic::div_mod::lemma_div_is_ordered(p * x, f * f, f);
    }
}

/// The fade takes the same time however often the loop happens to wake: two steps
/// go as far as one of both their lengths, unless the first comes to rest by being
/// near enough to its end.
pub proof fn the_fade_goes_by_the_clock(rise: u64, target: u64, a: nat, b: nat)
    requires
        target <= FADE,
        rise <= FADE,
        ({
            let half = moved(rise, target, a);
            half == target || half > target + EPSILON || target > half + EPSILON
        }),
    ensures
        moved(moved(rise, target, a), target, b) == moved(rise, target, a + b),
{
}

/// A ring that has had the whole fade to get there is where it was going.
pub proof fn a_fade_ends(rise: u64, target: u64, step: nat)
    requires
        target <= FADE,
        rise <= FADE,
        step >= FADE,
    ensures
        moved(rise, target, step) == target,
{
}

/// Rings never overshoot: each step leaves them between where they were and where
/// they are going.
pub proof fn rings_never_overshoot(rise: u64, target: u64, step: nat)
    ensures
        rise <= target ==> rise <= moved(rise, target, step) <= target,
        rise >= target ==> target <= moved(rise, target, step) <= rise,
{
}

} // verus!
