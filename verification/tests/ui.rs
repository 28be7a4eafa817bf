//! The interface's own state.
use bnksound::ui::{ClickTracker, Dirty, Focus, UiState, CLICK_RADIUS, SUBPIXELS};

#[test]
fn a_fresh_ui_state_paints_its_first_frame() {
    let ui = UiState::new();
    assert!(ui.dirty.needs_paint());
    assert!(ui.dirty.full);
    assert_eq!(ui.focus, Focus::Body);
    assert!(!ui.overlay_focused());
}

#[test]
fn dirty_marks_and_clears() {
    let mut d = Dirty::default();
    assert!(!d.needs_paint());
    d.mark_meters();
    assert!(d.needs_paint() && d.meters && !d.full);
    d.clear();
    d.mark_layout();
    assert!(d.layout && d.full);
    d.clear();
    assert!(!d.needs_paint());
}

#[test]
fn clicks_chain_when_near_and_quick_and_reset_otherwise() {
    let mut c = ClickTracker::default();
    assert_eq!(c.press(1000, 10 * SUBPIXELS, 10 * SUBPIXELS), 1);
    assert_eq!(c.press(1100, 10 * SUBPIXELS, 11 * SUBPIXELS), 2); // near and soon
    assert_eq!(c.press(1150, 11 * SUBPIXELS, 10 * SUBPIXELS), 3);
    // Far away resets.
    assert_eq!(c.press(1200, 80 * SUBPIXELS, 80 * SUBPIXELS), 1);
    // Too slow resets.
    assert_eq!(c.press(5000, 80 * SUBPIXELS, 80 * SUBPIXELS), 1);
}

#[test]
fn overlay_focus_reflects_the_focus_field() {
    let mut ui = UiState::new();
    ui.focus = Focus::Palette;
    assert!(ui.overlay_focused());
    ui.focus = Focus::Modal;
    assert!(ui.overlay_focused());
    ui.focus = Focus::Body;
    assert!(!ui.overlay_focused());
}
#[test]
fn clicks_chain_only_inside_the_interval() {
    let mut c = ClickTracker::default();
    c.press(1000, 0, 0);
    assert_eq!(c.press(1400, 0, 0), 2);
    assert_eq!(c.press(1801, 0, 0), 1);
}

#[test]
fn clicks_chain_up_to_the_radius_and_no_further() {
    let mut c = ClickTracker::default();
    c.press(1000, 50 * SUBPIXELS, 50 * SUBPIXELS);
    assert_eq!(c.press(1100, (50 + CLICK_RADIUS) * SUBPIXELS, 50 * SUBPIXELS), 2);
    assert_eq!(c.press(1200, (50 + 2 * CLICK_RADIUS) * SUBPIXELS + 1, 50 * SUBPIXELS), 1);
}
