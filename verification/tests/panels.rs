//! The palette and the modals.

use bnksound::command_palette::{scroll_into_view, VISIBLE_ROWS};
use bnksound::state::Message;
use bnksound::ui::input::{Key, Request};
use bnksound::ui::panels::{activate_row, command_parts, modal_key, palette_key};

#[test]
fn arrows_move_the_selection_and_escape_closes() {
    assert_eq!(palette_key(Key::Up, 4), Some(Message::PaletteSelectPrev { rows: 4 }));
    assert_eq!(palette_key(Key::Down, 4), Some(Message::PaletteSelectNext { rows: 4 }));
    assert_eq!(palette_key(Key::Escape, 4), Some(Message::TogglePalette));
    assert_eq!(palette_key(Key::Char('x'), 4), None);
}

#[test]
fn activating_a_row_closes_the_palette_and_runs_it() {
    assert_eq!(
        activate_row(2, 3),
        vec![Request::Send(Message::TogglePalette), Request::Command(2)]
    );
    assert!(activate_row(3, 3).is_empty());
}

#[test]
fn escape_dismisses_a_modal() {
    assert_eq!(modal_key(Key::Escape), Some(Message::ModalDismiss));
    assert_eq!(modal_key(Key::Enter), None);
}

#[test]
fn a_command_splits_behind_its_namespace() {
    let split = |s: &str| command_parts(s);
    assert_eq!(
        split("profile: apply -> p0"),
        ("profile: ".to_string(), "apply -> p0".to_string())
    );
    assert_eq!(split("mute"), (String::new(), "mute".to_string()));
    assert_eq!(split("a:b:c"), (String::new(), "a:b:c".to_string()));
    assert_eq!(split("a: b: c"), ("a: ".to_string(), "b: c".to_string()));
}

#[test]
fn the_window_follows_the_selection_no_further_than_it_must() {
    assert_eq!(scroll_into_view(0, 3, VISIBLE_ROWS), 0);
    assert_eq!(scroll_into_view(0, 10, VISIBLE_ROWS), 1);
    assert_eq!(scroll_into_view(5, 4, VISIBLE_ROWS), 4);
    assert_eq!(scroll_into_view(5, 14, VISIBLE_ROWS), 5);
    assert_eq!(scroll_into_view(0, 7, 0), 0);
}
