//! The settings file.

use bnksound::settings::{
    load, load_from, parse_lines, settings_path, Decorations, Error, GtkChrome, Settings,
};

#[test]
fn empty_file_returns_defaults() {
    assert_eq!(parse_lines("").unwrap(), Settings::default());
}

#[test]
fn blank_lines_are_ignored() {
    let txt = "

        show_window_border true

    ";
    let s = parse_lines(txt).unwrap();
    assert!(s.show_window_border);
}

#[test]
fn only_literal_true_and_false_accepted() {
    let ok_cases = [("true", true), ("false", false)];
    for (input, expected) in ok_cases {
        let s = parse_lines(&format!("show_window_border {input}")).unwrap();
        assert_eq!(s.show_window_border, expected, "input `{input}`");
    }
    for bad in ["True", "FALSE", "yes", "no", "1", "0", "on", "off", "maybe"] {
        let err = parse_lines(&format!("show_window_border {bad}"))
            .expect_err("should reject non-literal");
        matches!(err, Error::BadLine { .. });
    }
}

#[test]
fn unknown_fields_are_tolerated() {
    let txt = "
        future_option whatever
        show_window_border true
        mystery 42
    ";
    let s = parse_lines(txt).unwrap();
    assert!(s.show_window_border);
}

#[test]
fn missing_fields_fall_back_to_default() {
    let txt = "unrelated something\n";
    let s = parse_lines(txt).unwrap();
    assert_eq!(s, Settings::default());
}

#[test]
fn line_with_only_a_field_is_an_error() {
    let err = parse_lines("show_window_border").expect_err("should reject");
    match err {
        Error::BadLine { line_no, .. } => assert_eq!(line_no, 1),
        other => panic!("unexpected error variant: {other:?}"),
    }
}

#[test]
fn multiple_spaces_between_field_and_value_are_tolerated() {
    for spacing in [
        "show_window_border true",
        "show_window_border  true",
        "show_window_border\ttrue",
        "   show_window_border   true   ",
    ] {
        let s = parse_lines(spacing).unwrap();
        assert!(s.show_window_border, "input `{spacing}`");
    }
}

#[test]
fn sidebar_and_buttons_default_on() {
    let d = Settings::default();
    assert!(d.show_sidebar);
    assert!(d.show_input_button);
    assert!(d.show_output_button);
    assert!(d.show_apps_button);
    assert!(d.show_mute_button);
    assert!(d.show_reset_button);
}

#[test]
fn parses_sidebar_button_toggles() {
    let txt = "
        show_sidebar false
        show_input_button false
        show_mute_button false
    ";
    let s = parse_lines(txt).unwrap();
    assert!(!s.show_sidebar);
    assert!(!s.show_input_button);
    assert!(!s.show_mute_button);
    // Unmentioned toggles keep their default (on).
    assert!(s.show_output_button);
    assert!(s.show_apps_button);
    assert!(s.show_reset_button);
}

#[test]
fn decorations_default_to_server_side() {
    assert_eq!(Settings::default().decorations, Decorations::Server);
    assert_eq!(parse_lines("").unwrap().decorations, Decorations::Server);
}

#[test]
fn parses_decorations() {
    for (input, expected) in [
        ("server", Decorations::Server),
        ("client", Decorations::Client),
    ] {
        let s = parse_lines(&format!("decorations {input}")).unwrap();
        assert_eq!(s.decorations, expected, "input `{input}`");
    }
    for bad in ["Server", "CLIENT", "headerbar", "true", "none", "1"] {
        let err =
            parse_lines(&format!("decorations {bad}")).expect_err("should reject unknown mode");
        assert!(matches!(err, Error::BadLine { .. }), "input `{bad}`");
    }
}

/// The two shells look like one app out of the box, so handing the chrome
/// back to the desktop takes an explicit `theme`.
#[test]
fn gtk_chrome_defaults_to_the_mixer_palette() {
    assert_eq!(Settings::default().gtk_chrome, GtkChrome::Palette);
    assert_eq!(parse_lines("").unwrap().gtk_chrome, GtkChrome::Palette);
}

#[test]
fn parses_gtk_chrome() {
    for (input, expected) in [("theme", GtkChrome::Theme), ("palette", GtkChrome::Palette)] {
        let s = parse_lines(&format!("gtk_chrome {input}")).unwrap();
        assert_eq!(s.gtk_chrome, expected, "input `{input}`");
    }
    for bad in ["Theme", "PALETTE", "native", "true", "dark", "1"] {
        let err =
            parse_lines(&format!("gtk_chrome {bad}")).expect_err("should reject unknown mode");
        assert!(matches!(err, Error::BadLine { .. }), "input `{bad}`");
    }
}

/// A config written before `decorations` existed still says what chrome the
/// user wanted, so it keeps working without them editing anything.
#[test]
fn the_retired_titlebar_field_migrates_to_decorations() {
    // A header bar was chrome the app drew; a bare strip left it to the
    // compositor. Getting this backwards hands the window the wrong chrome.
    for (input, expected) in [
        ("headerbar", Decorations::Client),
        ("strip", Decorations::Server),
    ] {
        let s = parse_lines(&format!("titlebar {input}")).unwrap();
        assert_eq!(s.decorations, expected, "input `{input}`");
    }
    // An unreadable legacy value is tolerated, not fatal.
    let s = parse_lines("titlebar nonsense").expect("legacy junk does not refuse to start");
    assert_eq!(s.decorations, Decorations::Server);
    // An explicit `decorations` line wins when both appear.
    let s = parse_lines("titlebar headerbar\ndecorations server").unwrap();
    assert_eq!(s.decorations, Decorations::Server);
}

/// Nor does it matter which of the two comes first.
#[test]
fn an_explicit_decorations_line_wins_in_either_order() {
    let chosen = |text: &str| parse_lines(text).unwrap().decorations;
    assert_eq!(chosen("decorations server\ntitlebar headerbar"), Decorations::Server);
    assert_eq!(chosen("decorations client\ntitlebar strip"), Decorations::Client);
    assert_eq!(
        chosen("decorations server\ntitlebar headerbar\ndecorations client\ntitlebar strip"),
        Decorations::Client
    );
    // Of several old lines the last readable one counts.
    assert_eq!(chosen("titlebar strip\ntitlebar headerbar\ntitlebar junk"), Decorations::Client);
}

#[test]
fn load_from_missing_file_returns_default() {
    let s = load_from(None).expect("missing file ok");
    assert_eq!(s, Settings::default());
}

#[test]
fn a_file_that_does_not_parse_falls_back_and_says_so() {
    let (s, err) = load(Some("show_sidebar perhaps"));
    assert_eq!(s, Settings::default());
    assert!(matches!(err, Some(Error::BadLine { .. })));
    let (s, err) = load(Some("show_sidebar false"));
    assert!(!s.show_sidebar);
    assert!(err.is_none());
}

#[test]
fn the_file_lies_in_the_configuration_directory() {
    assert_eq!(settings_path(None), None);
    assert_eq!(
        settings_path(Some("/home/x/.config/bnksound")),
        Some(String::from("/home/x/.config/bnksound/settings.conf"))
    );
}

#[test]
fn a_bad_line_is_named_with_its_number() {
    let err = parse_lines("\n\nshow_sidebar nope\n").expect_err("rejected");
    assert!(err.message().contains("3"), "{}", err.message());
    assert!(err.message().contains("show_sidebar"), "{}", err.message());
}

#[test]
fn later_lines_win() {
    let s = parse_lines("show_sidebar false\nshow_sidebar true").unwrap();
    assert!(s.show_sidebar);
}
