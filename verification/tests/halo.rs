//! The rings around the knobs.

use bnksound::ui::halo::{ease_out, HaloState, FADE};
use bnksound::ui::layout::RowId;

fn row(n: u32) -> RowId {
    RowId::Sink(n)
}

/// Advance by a slice of the fade, as the loop would.
fn tick(state: &mut HaloState, lit: Option<&RowId>, at: u64) -> bool {
    state.advance(lit, at)
}

#[test]
fn a_ring_rises_to_full_over_the_fade_and_no_sooner() {
    let mut state = HaloState::new();
    let start = 5_000_000_000;
    let r = row(1);

    tick(&mut state, Some(&r), start);
    assert_eq!(state.strength(&r), 0, "it starts from nothing");

    // Halfway through the fade it is partway up, not there yet.
    tick(&mut state, Some(&r), start + FADE / 2);
    let mid = state.strength(&r);
    assert!(mid > 0 && mid < FADE, "partway up, got {mid}");

    tick(&mut state, Some(&r), start + FADE * 2);
    assert_eq!(state.strength(&r), FADE, "full once the fade has passed");
}

#[test]
fn a_ring_falls_back_to_nothing_once_the_pointer_leaves() {
    let mut state = HaloState::new();
    let start = 5_000_000_000;
    let r = row(1);

    tick(&mut state, Some(&r), start);
    tick(&mut state, Some(&r), start + FADE * 2);
    assert_eq!(state.strength(&r), FADE);

    tick(&mut state, None, start + FADE * 2 + FADE / 2);
    let mid = state.strength(&r);
    assert!(mid > 0 && mid < FADE, "partway down, got {mid}");

    tick(&mut state, None, start + FADE * 4);
    assert_eq!(state.strength(&r), 0, "gone once the fade has passed");
}

#[test]
fn moving_between_knobs_crossfades_rather_than_snapping() {
    let mut state = HaloState::new();
    let start = 5_000_000_000;
    let (a, b) = (row(1), row(2));

    tick(&mut state, Some(&a), start);
    tick(&mut state, Some(&a), start + FADE * 2);
    assert_eq!(state.strength(&a), FADE);

    // The pointer moves to b: a has to still be visible on the way down.
    tick(&mut state, Some(&b), start + FADE * 2 + FADE / 4);
    assert!(state.strength(&a) > 0, "the old ring is still fading");
    assert!(state.strength(&b) > 0, "the new ring has started");
    assert!(
        state.strength(&a) > state.strength(&b),
        "the one being left is still the brighter of the two",
    );
}

#[test]
fn a_finished_ring_stops_being_tracked() {
    let mut state = HaloState::new();
    let start = 5_000_000_000;
    let r = row(1);

    tick(&mut state, Some(&r), start);
    tick(&mut state, Some(&r), start + FADE * 2);
    tick(&mut state, None, start + FADE * 4);
    assert!(
        state.rows.is_empty(),
        "a row at rest is dropped rather than animated forever",
    );
    assert_eq!(state.strength(&r), 0, "and still reads as nothing");
}

#[test]
fn a_still_window_reports_no_movement() {
    let mut state = HaloState::new();
    let start = 5_000_000_000;
    let r = row(1);

    tick(&mut state, Some(&r), start);
    tick(&mut state, Some(&r), start + FADE * 2);
    assert!(
        !tick(&mut state, Some(&r), start + FADE * 3),
        "a ring already at full is not a reason to repaint",
    );
    tick(&mut state, None, start + FADE * 5);
    assert!(
        !tick(&mut state, None, start + FADE * 6),
        "nor is an empty state",
    );
}

#[test]
fn an_untracked_row_reads_as_nothing() {
    let state = HaloState::new();
    assert_eq!(state.strength(&row(9)), 0);
}

#[test]
fn the_ease_runs_from_nothing_to_full_without_overshooting() {
    assert_eq!(ease_out(0), 0);
    assert_eq!(ease_out(FADE), FADE);
    assert_eq!(ease_out(2 * FADE), FADE, "clamped above");
    // Eased out, so it is past halfway by the midpoint.
    assert!(ease_out(FADE / 2) > FADE / 2);
    assert_eq!(ease_out(FADE / 2), FADE / 8 * 7);
    let mut prev = 0;
    for i in 0..=10 {
        let v = ease_out(i * FADE / 10);
        assert!(v >= prev, "never goes backwards");
        prev = v;
    }
}

#[test]
fn the_fade_does_not_care_how_often_it_is_stepped() {
    let r = row(1);
    let (mut often, mut once) = (HaloState::new(), HaloState::new());
    often.advance(Some(&r), 0);
    once.advance(Some(&r), 0);
    for k in 1..=10 {
        often.advance(Some(&r), k * FADE / 20);
    }
    once.advance(Some(&r), FADE / 2);
    assert_eq!(often.strength(&r), once.strength(&r));
}

#[test]
fn a_clock_that_stands_still_moves_nothing() {
    let mut state = HaloState::new();
    let r = row(1);
    state.advance(Some(&r), 100);
    assert!(!state.advance(Some(&r), 100));
    assert!(!state.advance(Some(&r), 50));
    assert_eq!(state.strength(&r), 0);
}
