//! Where text goes.

use bnksound::number::Number;
use bnksound::render::buffer::Color;
use bnksound::render::lettering::{
    caret_box, caret_offset, fit, line_in, line_in_field, line_of_initial, lines_of_command,
    selection_band, style_of_initial, Measure,
};
use bnksound::render::primitives::Rect;
use bnksound::render::text::{Cluster, TextStyle};

const WHITE: Color = Color { r: 255, g: 255, b: 255, a: 255 };

fn px(v: f32) -> Number {
    Number { bits: v.to_bits() }
}

fn style() -> TextStyle {
    TextStyle::new(px(13.0), WHITE)
}

/// Every character a unit, each as wide as given in pixels; an ellipsis is eight
/// wide and a line ten tall.
fn measured(text: &str, width: f64) -> Measure {
    let run = text
        .chars()
        .map(|c| Cluster {
            chars: 1,
            bytes: c.len_utf8(),
            advance: (width * 65536.0) as u32,
        })
        .collect();
    Measure {
        run,
        dots: 8 << 16,
        height: 10,
    }
}

#[test]
fn a_text_that_fits_is_left_alone() {
    let m = measured("Master", 7.0);
    assert_eq!(fit("Master", &m, style(), 42), ("Master".to_string(), 42 << 16));
}

#[test]
fn a_text_that_does_not_fit_ends_in_an_ellipsis() {
    let m = measured("Master", 7.0);
    // 41 pixels hold four letters and the ellipsis: 28 + 8.
    assert_eq!(fit("Master", &m, style(), 41), ("Mast…".to_string(), 36 << 16));
    assert_eq!(fit("Master", &m, style(), 15), ("M…".to_string(), 15 << 16));
    // Nothing but the ellipsis where not even one letter goes with it.
    assert_eq!(fit("Master", &m, style(), 3), ("…".to_string(), 8 << 16));
    assert_eq!(fit("Master", &m, style(), -3), ("…".to_string(), 8 << 16));
}

/// Advances are fractional, and a run almost a pixel too wide does not fit.
#[test]
fn fitting_compares_fractions() {
    let m = measured("abcd", 5.1875);
    assert_eq!(fit("abcd", &m, style(), 20).0, "ab…");
    assert_eq!(fit("abcd", &m, style(), 21).0, "abcd");
}

/// A unit is never cut in two.
#[test]
fn cutting_keeps_units_whole() {
    let m = Measure {
        run: vec![
            Cluster { chars: 1, bytes: 1, advance: 10 << 16 },
            Cluster { chars: 2, bytes: 3, advance: 10 << 16 },
            Cluster { chars: 1, bytes: 1, advance: 10 << 16 },
        ],
        dots: 8 << 16,
        height: 10,
    };
    assert_eq!(fit("ae\u{301}b", &m, style(), 29).0, "ae\u{301}…");
    assert_eq!(fit("ae\u{301}b", &m, style(), 27).0, "a…");
}

#[test]
fn spacing_counts_towards_the_width() {
    let m = measured("OUT", 8.0);
    let spread = style().spread(1);
    assert_eq!(fit("OUT", &m, spread, 27).1, 27 << 16);
    assert_eq!(fit("OUT", &m, spread, 26).0, "OU…");
}

#[test]
fn lines_stand_in_the_middle_of_their_height() {
    let m = measured("Chip", 6.0);
    let rect = Rect::new(10, 20, 50, 31);
    let line = line_in(rect, "Chip", &m, style(), false);
    assert_eq!((line.x, line.y, line.width), (10, 30, 50));
    assert_eq!(line.clip, Some(rect));
    assert_eq!(line.text, "Chip");
    // A line taller than its rectangle hangs over both edges alike.
    let low = line_in(Rect::new(10, 20, 50, 5), "Chip", &m, style(), false);
    assert_eq!(low.y, 18);
}

#[test]
fn centered_lines_share_what_is_left() {
    let m = measured("Chip", 6.0);
    let line = line_in(Rect::new(10, 20, 51, 31), "Chip", &m, style(), true);
    assert_eq!(line.x, 10 + (51 - 24) / 2);
    // Cut text is centered by what is left of it: three letters and the ellipsis.
    let long = measured("Chipmunks", 6.0);
    let cut = line_in(Rect::new(10, 20, 31, 31), "Chipmunks", &long, style(), true);
    assert_eq!(cut.text, "Chi…");
    assert_eq!(cut.x, 10 + (31 - 26) / 2);
    // One that fills its rectangle starts at its left.
    let full = line_in(Rect::new(10, 20, 24, 31), "Chip", &m, style(), true);
    assert_eq!(full.x, 10);
}

#[test]
fn an_action_stands_right_behind_its_namespace() {
    let (a, b) = (measured("profile: ", 5.5), measured("create", 6.0));
    let rect = Rect::new(8, 40, 200, 30);
    let dim = TextStyle::new(px(13.0), Color::rgb(9, 9, 9));
    let lines = lines_of_command(rect, "profile: ", "create", dim, style(), &a, &b);
    assert_eq!(lines.len(), 2);
    assert_eq!((lines[0].text.as_str(), lines[0].x, lines[0].width), ("profile: ", 8, 200));
    // Nine times five and a half is forty-nine and a half, which rounds up.
    assert_eq!((lines[1].text.as_str(), lines[1].x, lines[1].width), ("create", 58, 150));
    assert_eq!(lines[0].style, dim);
    assert_eq!(lines[1].style, style());
    assert_eq!(lines[1].clip, Some(Rect::new(58, 40, 150, 30)));

    let none = measured("", 5.5);
    let alone = lines_of_command(rect, "", "create", dim, style(), &none, &b);
    assert_eq!(alone.len(), 1);
    assert_eq!((alone[0].x, alone[0].width), (8, 200));
}

#[test]
fn a_field_keeps_its_padding() {
    let line = line_in_field(Rect::new(100, 50, 90, 30), "Movies", WHITE);
    assert_eq!((line.x, line.y, line.width), (108, 57, 74));
    assert_eq!(line.clip, Some(Rect::new(100, 50, 90, 30)));
    assert_eq!(line.style, style());
}

#[test]
fn an_initial_sits_in_the_middle_of_its_tile() {
    let tile = Rect::new(30, 8, 26, 26);
    let style = style_of_initial(tile);
    assert_eq!(style, TextStyle::new(px(13.0), WHITE));
    let line = line_of_initial(tile, 'F', &measured("F", 9.0));
    assert_eq!((line.x, line.y, line.text.as_str()), (38, 16, "F"));
    assert_eq!(line.clip, None);
    assert_eq!(line.width, 26);
}

/// Half of an odd tile is half a pixel more.
#[test]
fn an_initial_is_half_as_tall_as_its_tile() {
    for h in [0, 1, 26, 27, 28, 33, 0x100_0001] {
        let style = style_of_initial(Rect::new(0, 0, 10, h));
        assert_eq!(style.size, px(h as f32 * 0.5), "{h}");
    }
}

#[test]
fn carets_and_selections_stand_on_the_text() {
    let field = Rect::new(100, 50, 90, 30);
    let m = measured("Movies", 6.5);
    assert_eq!(caret_box(field, &m, 0), Rect::new(108, 57, 2, 10));
    assert_eq!(caret_box(field, &m, 2), Rect::new(121, 57, 2, 10));
    assert_eq!(caret_box(field, &m, 99), Rect::new(147, 57, 2, 10));
    assert_eq!(selection_band(field, &m, (2, 6)), Rect::new(121, 57, 26, 10));
    // An empty one still shows.
    assert_eq!(selection_band(field, &m, (2, 2)), Rect::new(121, 57, 1, 10));
}

#[test]
fn a_click_goes_to_the_nearest_caret() {
    let field = Rect::new(100, 50, 90, 30);
    let m = measured("Movies", 6.5);
    // Positions are in 256ths of a pixel.
    let at = |x: f64| caret_offset(field, &m, (x * 256.0) as i32);
    assert_eq!(at(90.0), 0, "left of the field");
    assert_eq!(at(108.0), 0);
    assert_eq!(at(111.0), 0);
    assert_eq!(at(112.0), 1);
    assert_eq!(at(120.9), 2);
    assert_eq!(at(500.0), 6, "right of the text");
    for offset in 0..=6 {
        let caret = caret_box(field, &m, offset);
        assert_eq!(at(caret.x as f64), offset);
    }
}
