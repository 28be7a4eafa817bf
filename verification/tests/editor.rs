//! The one-line text field.

use bnksound::ui::editor::{Editor, MAX_LEN};

fn editor(text: &str) -> Editor {
    let mut e = Editor::new();
    for c in text.chars() {
        assert!(e.insert(c), "insert {c}");
    }
    e
}

#[test]
fn typing_appends_and_moves_the_caret() {
    let e = editor("abc");
    assert_eq!(e.text(), "abc");
    assert_eq!(e.cursor(), 3);
    assert_eq!(e.selection(), None);
}

#[test]
fn set_text_seeds_the_field_with_caret_at_end() {
    let mut e = editor("old");
    e.set_text("New Name");
    assert_eq!(e.text(), "New Name");
    assert_eq!(e.cursor(), 8);
    assert_eq!(e.selection(), None);
}

#[test]
fn a_full_field_refuses_the_character_and_leaves_the_caret_alone() {
    let mut e = Editor::new();
    for _ in 0..MAX_LEN {
        assert!(e.insert('x'));
    }
    assert!(!e.insert('y'), "the field is full");
    assert_eq!(e.cursor(), MAX_LEN, "the caret did not run past the text");
    assert_eq!(e.len(), MAX_LEN);
    e.backspace();
    assert_eq!(e.len(), MAX_LEN - 1);
}

/// Shift+Left then Shift+Right leaves the anchor sitting on the cursor,
/// which is not a selection. If backspace left it standing, the caret it
/// then moves would read as a one-character selection nobody made.
#[test]
fn backspace_clears_an_anchor_that_is_not_a_selection() {
    let mut e = editor("abcd");
    e.left(true);
    e.right(true);
    assert_eq!(
        e.selection(),
        None,
        "an anchor on the cursor is no selection"
    );
    e.backspace();
    assert_eq!(e.text(), "abc");
    assert_eq!(e.selection(), None, "no phantom selection is left behind");
    e.insert('x');
    assert_eq!(e.text(), "abcx", "typing did not eat a second character");
}

#[test]
fn backspace_and_delete_take_the_selection_when_there_is_one() {
    let mut e = editor("abcd");
    e.home(false);
    e.right(true);
    e.right(true);
    e.backspace();
    assert_eq!(e.text(), "cd");
    assert_eq!(e.cursor(), 0);

    let mut e = editor("abcd");
    e.select_all();
    e.delete();
    assert!(e.text().is_empty());
}

#[test]
fn a_multibyte_caret_moves_by_character_not_by_byte() {
    let mut e = editor("aéb");
    assert_eq!(e.cursor(), 3);
    e.left(false);
    e.backspace(); // deletes 'é', which is two bytes
    assert_eq!(e.text(), "ab");
    assert_eq!(e.cursor(), 1);
    e.insert('é');
    assert_eq!(e.text(), "aéb");
}

#[test]
fn selection_extends_and_collapses() {
    let mut e = editor("hello");
    e.home(false);
    e.right(true);
    e.right(true);
    assert_eq!(e.selection(), Some((0, 2)));
    assert_eq!(e.selected_text().as_deref(), Some("he"));

    e.left(false);
    assert_eq!(e.selection(), None);
    assert_eq!(e.cursor(), 0);

    e.end(true);
    assert_eq!(e.selection(), Some((0, 5)));
    e.right(false);
    assert_eq!(e.cursor(), 5);
    assert_eq!(e.selection(), None);
}

#[test]
fn typing_over_a_selection_replaces_it() {
    let mut e = editor("abcd");
    e.select_all();
    e.insert('x');
    assert_eq!(e.text(), "x");
    assert_eq!(e.cursor(), 1);
}

#[test]
fn paste_replaces_the_selection() {
    let mut e = editor("abcd");
    e.home(false);
    e.right(true);
    e.right(true);
    assert!(e.paste("XY"));
    assert_eq!(e.text(), "XYcd");
    assert_eq!(e.cursor(), 2);
}

#[test]
fn a_paste_that_does_not_fit_changes_nothing() {
    let mut e = editor("abc");
    e.select_all();
    let huge = "x".repeat(MAX_LEN + 1);
    assert!(!e.paste(&huge));
    assert_eq!(e.text(), "abc", "the selection survives");
    assert_eq!(e.selection(), Some((0, 3)), "and is still selected");
}

#[test]
fn a_double_click_selects_the_word_under_it() {
    let mut e = editor("hello wide world");
    e.click(7, 2);
    assert_eq!(e.selection(), Some((6, 10)));
    assert_eq!(e.selected_text().as_deref(), Some("wide"));
}

#[test]
fn a_triple_click_selects_everything() {
    let mut e = editor("hello world");
    e.click(3, 3);
    assert_eq!(e.selection(), Some((0, 11)));
}

#[test]
fn a_single_click_places_the_caret_and_clears_the_selection() {
    let mut e = editor("hello");
    e.select_all();
    e.click(2, 1);
    assert_eq!(e.cursor(), 2);
    assert_eq!(e.selection(), None);
    e.click(99, 1);
    assert_eq!(e.cursor(), 5);
}

#[test]
fn a_drag_extends_from_where_it_began() {
    let mut e = editor("hello");
    e.click(1, 1);
    e.drag(4);
    assert_eq!(e.selection(), Some((1, 4)));
    assert_eq!(e.selected_text().as_deref(), Some("ell"));
    e.drag(0);
    assert_eq!(e.selection(), Some((0, 1)));
}

#[test]
fn clear_resets_everything() {
    let mut e = editor("abc");
    e.select_all();
    e.clear();
    assert!(e.text().is_empty());
    assert_eq!(e.cursor(), 0);
    assert_eq!(e.selection(), None);
}

#[test]
fn a_double_click_between_words_takes_no_word() {
    let mut e = editor("one, two");
    e.click(3, 2);
    assert_eq!(e.selected_text().as_deref(), Some(", "));
}

#[test]
fn words_are_told_by_their_letters_in_any_script() {
    let mut e = editor("na\u{ef}ve caf\u{e9}");
    e.click(1, 2);
    assert_eq!(e.selected_text().as_deref(), Some("na\u{ef}ve"));
    e.click(8, 2);
    assert_eq!(e.selected_text().as_deref(), Some("caf\u{e9}"));
}

#[test]
fn an_empty_field_has_nothing_to_take() {
    let mut e = Editor::new();
    e.backspace();
    e.delete();
    e.left(true);
    e.right(true);
    assert!(e.is_empty());
    assert_eq!(e.cursor(), 0);
    assert!(!e.delete_selection());
    assert_eq!(e.selected_text(), None);
}

#[test]
fn delete_takes_the_character_after_the_caret() {
    let mut e = editor("a\u{1f600}b");
    e.home(false);
    e.right(false);
    e.delete();
    assert_eq!(e.text(), "ab");
    assert_eq!(e.cursor(), 1);
    assert_eq!(e.len(), 2);
}

#[test]
fn a_full_field_ignores_typing_and_keeps_its_selection() {
    let mut e = Editor::new();
    for _ in 0..MAX_LEN {
        assert!(e.insert('x'));
    }
    e.select_all();
    e.right(false);
    e.left(true);
    assert_eq!(e.selection(), Some((MAX_LEN - 1, MAX_LEN)));
    // What takes the selected byte's place needs three.
    assert!(!e.insert('\u{20ac}'));
    assert_eq!(e.len(), MAX_LEN);
    assert_eq!(e.selection(), Some((MAX_LEN - 1, MAX_LEN)));
    // One that fits takes it.
    assert!(e.insert('y'));
    assert_eq!(e.len(), MAX_LEN);
    assert_eq!(e.selection(), None);
}
