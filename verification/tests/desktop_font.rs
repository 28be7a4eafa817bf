//! The desktop's configured font.

use bnksound::render::desktop_font::{family, gtk_setting, parse_family, reads_as_number, FALLBACK_FAMILY};

#[test]
fn a_family_and_size_splits_on_the_size() {
    assert_eq!(parse_family("Cantarell 11"), "Cantarell");
    assert_eq!(parse_family("Inter 10"), "Inter");
}

/// A comma ends the family. Keeping it attached yields a name fontconfig
/// matches nothing for, and the lookup then falls back to a default sans
/// without reporting anything, so the app quietly draws in the wrong
/// typeface.
#[test]
fn a_comma_ends_the_family() {
    assert_eq!(parse_family("Segoe UI Variable,  10"), "Segoe UI Variable");
    assert_eq!(parse_family("Cantarell, 11"), "Cantarell");
    assert_eq!(parse_family("Inter,Bold 10"), "Inter");
    // No comma is still handled by the size and style stripping.
    assert_eq!(parse_family("Segoe UI Variable 10"), "Segoe UI Variable");
}

#[test]
fn a_multi_word_family_keeps_all_its_words() {
    // The real value on the machine this was written for, double space and
    // all, which split_whitespace collapses.
    assert_eq!(parse_family("Segoe UI Variable  10"), "Segoe UI Variable");
    assert_eq!(parse_family("Noto Sans Display 12"), "Noto Sans Display");
}

#[test]
fn a_fractional_size_is_still_a_size() {
    assert_eq!(parse_family("Cantarell 11.5"), "Cantarell");
}

#[test]
fn style_words_are_not_part_of_the_family() {
    assert_eq!(
        parse_family("Segoe UI Variable Bold 10"),
        "Segoe UI Variable"
    );
    assert_eq!(parse_family("Cantarell Italic 11"), "Cantarell");
    assert_eq!(parse_family("Inter Semibold"), "Inter");
}

#[test]
fn a_family_with_no_size_is_taken_whole() {
    assert_eq!(parse_family("Cantarell"), "Cantarell");
    assert_eq!(parse_family("Segoe UI Variable"), "Segoe UI Variable");
}

#[test]
fn a_family_whose_name_ends_in_a_number_keeps_it_only_when_it_is_not_the_size() {
    // "Source Sans 3 11" is the family "Source Sans 3" at size 11. Dropping
    // one trailing number is what separates them.
    assert_eq!(parse_family("Source Sans 3 11"), "Source Sans 3");
}

#[test]
fn an_empty_description_yields_nothing_so_the_caller_falls_back() {
    assert_eq!(parse_family(""), "");
    assert_eq!(parse_family("   "), "");
}

#[test]
fn family_always_names_something_usable() {
    // Whatever the desktop reports, the result is never empty, which is what
    // keeps font loading from having a no-family case.
    for portal in [None, Some(""), Some("   "), Some("11"), Some("Bold 11"), Some("Inter 11")] {
        for settings in [None, Some(""), Some("gtk-font-name=\n"), Some("gtk-font-name=Inter 9\n")] {
            assert!(!family(portal, settings).is_empty());
        }
    }
}

#[test]
fn the_portal_wins_over_the_settings_file() {
    let ini = "[Settings]\ngtk-xft-dpi=98304\ngtk-font-name = Cantarell Bold 11\n";
    assert_eq!(family(Some("Inter 10"), Some(ini)), "Inter");
    assert_eq!(family(None, Some(ini)), "Cantarell");
    assert_eq!(family(None, None), FALLBACK_FAMILY);
    assert_eq!(family(Some("Bold 11"), Some(ini)), "sans-serif");
}

#[test]
fn a_setting_is_read_off_its_first_line() {
    let ini = "[Settings]\r\n a = 1 \r\nb=2=3\na=9\nnoise\n";
    assert_eq!(gtk_setting(ini, "a"), Some(String::from("1")));
    assert_eq!(gtk_setting(ini, "b"), Some(String::from("2=3")));
    assert_eq!(gtk_setting(ini, "noise"), None);
}

/// What reads as a number is what a float parses from.
#[test]
fn numbers_are_what_floats_parse_from() {
    for s in [
        "", "1", "11", "11.5", ".5", "5.", ".", "+1", "-1", "+-1", "1e3", "1E3", "1e", "1e+", "1e-3",
        "e3", ".e3", "1.e3", "inf", "-INF", "infinity", "Infinit", "nan", "NaN", "+nan", "1x", "x1",
        "1 ", "0x10", "1_0", "--1", "1.2.3", "1e3.5", "+", "-", "१",
    ] {
        assert_eq!(reads_as_number(s), s.parse::<f32>().is_ok(), "{s:?}");
    }
}
