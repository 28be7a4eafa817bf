//! The command palette's window: how many rows of a list are on show, and which.

use vstd::prelude::*;

verus! {

/// Rows of the list on show at once; the rest scrolls.
pub const VISIBLE_ROWS: usize = 10;

/// Most rows the list ever holds, however many commands match.
pub const MAX_VISIBLE: usize = 50;

/// How many of the commands that match are listed.
pub open spec fn listed(matching: int) -> int {
    if matching < MAX_VISIBLE {
        matching
    } else {
        MAX_VISIBLE as int
    }
}

pub fn listed_of(matching: usize) -> (n: usize)
    ensures
        n == listed(matching as int),
{
    if matching < MAX_VISIBLE {
        matching
    } else {
        MAX_VISIBLE
    }
}

/// The first row on show once the selection has been brought into a window of
/// `capacity` rows that began at `first`: no further than it takes.
pub open spec fn into_view(first: int, selected: int, capacity: int) -> int {
    if selected < first {
        selected
    } else if capacity > 0 && selected >= first + capacity {
        selected - capacity + 1
    } else {
        first
    }
}

pub fn scroll_into_view(first: usize, selected: usize, capacity: usize) -> (at: usize)
    ensures
        at == into_view(first as int, selected as int, capacity as int),
{
    if selected < first {
        selected
    } else if capacity > 0 && selected - first >= capacity {
        selected - capacity + 1
    } else {
        first
    }
}

/// The selected row is on show, and a window that showed it already stays put.
pub proof fn the_selection_stays_on_show(first: int, selected: int, capacity: int)
    requires
        0 <= first,
        0 <= selected,
        0 < capacity,
    ensures
        into_view(first, selected, capacity) <= selected < into_view(first, selected, capacity)
            + capacity,
        first <= selected < first + capacity ==> into_view(first, selected, capacity) == first,
        0 <= into_view(first, selected, capacity),
{
}

} // verus!
