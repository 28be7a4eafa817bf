//! What a row says and where its parts go.

use bnksound::domain::{DeviceForm, Gain, Stream, StreamKind};
use bnksound::render::primitives::Rect;
use bnksound::ui::layout::RowId;
use bnksound::ui::row::{
    is_loud, knob_place, leave_row, name_text, pick_label, readout_text, side_place, sink_picker,
    BUTTONS_SLIDER_OVERLAP, MAX_NAME_CHARS,
};

fn g(v: f32) -> Gain {
    Gain { bits: v.to_bits() }
}

fn sink(id: u32, form: Option<&str>) -> Stream {
    Stream {
        id,
        kind: StreamKind::Sink,
        name: format!("Sink {id}"),
        app_id: None,
        binary: None,
        pid: None,
        node_name: Some(format!("node.{id}")),
        media_name: None,
        media_role: None,
        volume: g(0.5),
        muted: false,
        xdg: None,
        form: form.map(|label| DeviceForm {
            rank: 0,
            label: label.to_string(),
        }),
        is_default: false,
        target_sink_name: None,
    }
}

#[test]
fn names_carry_their_suffixes_inside_the_cap() {
    assert_eq!(name_text("Firefox", false, 1), "Firefox");
    assert_eq!(name_text("Firefox", false, 3), "Firefox ×3");
    assert_eq!(name_text("mpv", true, 1), "mpv · idle");
    assert_eq!(name_text("mpv", true, 2), "mpv ×2 · idle");
    let long = name_text("A very long application name", true, 12);
    assert_eq!(long, "A very long ap");
    assert_eq!(long.chars().count(), MAX_NAME_CHARS);
    assert_eq!(name_text("ééééééééééééééé", false, 1).chars().count(), MAX_NAME_CHARS);
}

#[test]
fn the_readout_is_in_percent() {
    assert_eq!(readout_text(g(0.0)), "0");
    assert_eq!(readout_text(g(0.333)), "33");
    assert_eq!(readout_text(g(1.0)), "100");
    assert_eq!(readout_text(g(1.5)), "150");
    assert_eq!(readout_text(g(-0.5)), "-50");
    assert_eq!(readout_text(g(f32::NAN)), "0");
}

#[test]
fn only_well_over_unity_is_loud() {
    assert!(!is_loud(g(1.0)));
    assert!(!is_loud(g(1.09)));
    assert!(!is_loud(g(1.1)), "the threshold itself is not above it");
    assert!(is_loud(g(1.11)));
    assert!(!is_loud(g(-2.0)));
    assert!(!is_loud(g(f32::NAN)));
}

#[test]
fn small_labels_are_cut() {
    assert_eq!(pick_label("HEADPHONES"), "HEADPHON");
    assert_eq!(pick_label("TV"), "TV");
}

#[test]
fn a_picker_needs_two_sinks_to_choose_from() {
    let (a, b, c) = (sink(1, Some("SPEAKER")), sink(2, Some("HEADSET")), sink(3, None));
    assert!(sink_picker(&vec![&a], &None).is_empty());
    assert!(sink_picker(&vec![&a, &c], &None).is_empty());

    let picks = sink_picker(&vec![&a, &b, &c], &Some("node.2".to_string()));
    let shown: Vec<(Option<u32>, Option<char>, bool)> =
        picks.iter().map(|p| (p.sink, p.label, p.active)).collect();
    assert_eq!(
        shown,
        vec![
            (None, Some('A'), false),
            (Some(1), Some('S'), false),
            (Some(2), Some('H'), true),
        ]
    );
    assert!(sink_picker(&vec![&a, &b], &None)[0].active);
}

#[test]
fn leaving_a_row_forgets_only_that_row() {
    let mut hovered = Some(RowId::Sink(2));
    leave_row(&mut hovered, &RowId::Sink(1));
    assert_eq!(hovered, Some(RowId::Sink(2)));
    leave_row(&mut hovered, &RowId::Sink(2));
    assert_eq!(hovered, None);
}

#[test]
fn the_buttons_lap_over_the_fader() {
    assert_eq!(side_place(Rect::new(0, 0, 0, 100), 40, 22), None);
    let place = side_place(Rect::new(10, 5, 100, 140), 40, 22).expect("a place");
    assert_eq!(place, Rect::new(10 + 70 - BUTTONS_SLIDER_OVERLAP, 5, 22, 140));
}

#[test]
fn the_readout_sits_on_its_knob() {
    assert_eq!(knob_place(50, 80, 28, 14), Rect::new(36, 73, 28, 14));
}
