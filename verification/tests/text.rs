//! The sizes text is rasterized at.

use bnksound::number::Number;
use bnksound::render::buffer::Color;
use bnksound::render::text::{
    char_offset_at_x, drawn_run, text_width, truncate_to_width, x_at_char_offset, Cluster,
    RasterSize, TextStyle,
};
use bnksound::text::trim;

fn number(v: f32) -> Number {
    Number { bits: v.to_bits() }
}

fn raster(size: f32, scale: f32, dpi: f32) -> RasterSize {
    RasterSize::new(number(size), number(scale), number(dpi))
}

/// The optical size follows the logical size, not the device pixels. A run
/// on a scaled surface rasterizes larger while still being displayed at the
/// same apparent size, so tying the axis to the device size would reshape
/// letters on a HiDPI monitor.
#[test]
fn optical_size_ignores_the_surface_scale() {
    let one = raster(13.0, 1.0, 96.0);
    let two = raster(13.0, 2.0, 96.0);
    assert_eq!(one.optical, two.optical);
    assert_eq!(two.px, one.px * 2);
}

/// Two runs can rasterize at the same pixel size while being displayed at
/// different sizes, and their outlines then differ. Keying the cache on
/// pixels alone would serve one the other's glyphs.
#[test]
fn the_same_pixel_size_at_different_scales_is_a_different_key() {
    let scaled = raster(10.0, 2.0, 96.0);
    let plain = raster(20.0, 1.0, 96.0);
    assert_eq!(scaled.px, plain.px);
    assert_ne!(scaled, plain);
}

/// The axis is measured in points, so the same pixel size asks for a
/// different optical size on a desktop configured for a different font DPI.
#[test]
fn optical_size_is_points_not_pixels() {
    // 10px at 96 DPI is 7.5pt, which is what the desktop's text stack asks
    // for at that size.
    let at_96 = raster(10.0, 1.0, 96.0);
    assert_eq!(at_96.optical, (7.5 * 64.0) as u32);
    let at_192 = raster(10.0, 1.0, 192.0);
    assert_eq!(at_192.optical, (3.75 * 64.0) as u32);
}

/// Both sizes are what single-precision arithmetic gives.
#[test]
fn sizes_agree_with_single_precision() {
    let sizes = [
        0.0f32, 0.015, 0.5, 9.0, 9.7, 10.0, 11.0, 12.0, 13.0, 13.5, 15.625, 64.3, 1e6, 3e9, 1e12, -4.0,
    ];
    for size in sizes {
        for scale in [0.5f32, 1.0, 1.1, 1.25, 1.5, 1.6666666, 2.0, 3.0] {
            for dpi in [72.0f32, 96.0, 100.5, 120.0, 192.0] {
                let points = size * 72.0 / dpi;
                let got = raster(size, scale, dpi);
                assert_eq!(got.px, ((size * scale + 0.5) as u32).max(1), "{size} at {scale}");
                assert_eq!(
                    got.optical,
                    (points * 64.0).round().max(0.0) as u32,
                    "{size} at {dpi}"
                );
            }
        }
    }
}

#[test]
fn styles_change_one_thing_at_a_time() {
    let plain = TextStyle::new(number(12.0), Color::rgb(1, 2, 3));
    assert_eq!((plain.size, plain.tracking, plain.bold), (number(12.0), 0, false));
    assert_eq!(plain.spread(2).tracking, 2);
    assert!(plain.bold().bold);
    assert_eq!(plain.bold().color, plain.color);
}

/// One pixel.
const PX: u32 = 0x1_0000;

fn unit(chars: usize, bytes: usize, advance: u32) -> Cluster {
    Cluster {
        chars,
        bytes,
        advance,
    }
}

/// "Mute" and a family of four that is drawn as one picture.
fn run() -> Vec<Cluster> {
    vec![
        unit(1, 1, 10 * PX),
        unit(1, 1, 7 * PX),
        unit(1, 1, 4 * PX + PX / 2),
        unit(1, 1, 7 * PX),
        unit(7, 25, 16 * PX),
    ]
}

#[test]
fn caret_x_grows_with_offset() {
    let run = run();
    let mut prev = 0;
    for offset in 0..=12 {
        let x = x_at_char_offset(&run, offset);
        assert!(x >= prev);
        prev = x;
    }
    assert_eq!(x_at_char_offset(&run, 0), 0);
    assert_eq!(x_at_char_offset(&run, 2), 17 * PX as u64);
}

#[test]
fn char_offset_round_trips_to_ends() {
    let run = run();
    for offset in [0, 1, 2, 3, 4, 11] {
        let x = x_at_char_offset(&run, offset);
        assert_eq!(char_offset_at_x(&run, x as i64), offset);
    }
    assert_eq!(char_offset_at_x(&run, -5), 0);
    assert_eq!(char_offset_at_x(&run, 1000 * PX as i64), 11);
}

#[test]
fn the_caret_measures_clusters_the_way_the_text_draws_them() {
    let run = run();
    let left = x_at_char_offset(&run, 4);
    for inside in 5..11 {
        assert_eq!(x_at_char_offset(&run, inside), left, "a caret cannot sit inside one");
    }
    assert_eq!(x_at_char_offset(&run, 11), left + 16 * PX as u64);
}

#[test]
fn truncating_stops_on_a_cluster_boundary() {
    let run = run();
    let whole = text_width(&run, 0) as i64;
    assert_eq!(truncate_to_width(&run, 0, whole), 29);
    assert_eq!(truncate_to_width(&run, 0, whole - 1), 4);
    assert_eq!(truncate_to_width(&run, 0, 0), 0);
}

#[test]
fn text_width_matches_full_offset() {
    let run = run();
    assert_eq!(x_at_char_offset(&run, 11), text_width(&run, 0));
    assert_eq!(text_width(&run, PX), text_width(&run, 0) + 5 * PX as u64);
    assert_eq!(text_width(&vec![], PX), 0);
}

#[test]
fn draw_text_stops_at_max_width() {
    let run = run();
    assert_eq!(drawn_run(&run, 0, 17 * PX as i64), (2, 17 * PX as u64));
    assert_eq!(drawn_run(&run, 0, 17 * PX as i64 - 1), (1, 10 * PX as u64));
    // The spacing after the last unit may cross the end; the unit may not.
    assert_eq!(drawn_run(&run, PX, 18 * PX as i64), (2, 19 * PX as u64));
}

#[test]
fn white_space_is_what_unicode_says() {
    for code in 0..0x1_1000u32 {
        let Some(c) = char::from_u32(code) else {
            continue;
        };
        let text = format!("{c}a{c}");
        assert_eq!(trim(&text), text.trim(), "U+{code:04X}");
    }
}
