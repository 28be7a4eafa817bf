//! Icons: scaling, caching, and the tile that stands in for one.

use bnksound::render::buffer::Color;
use bnksound::render::image::{
    fallback_color, first_upper, hsl_to_rgb, icon_initial, load, resample, IconCache,
};
use bnksound::render::png::encode_rgb;

fn argb(a: u32, r: u32, g: u32, b: u32) -> u32 {
    (a << 24) | (r << 16) | (g << 8) | b
}

#[test]
fn resample_to_the_same_size_is_a_copy() {
    let src = vec![
        argb(255, 1, 2, 3),
        argb(128, 4, 5, 6),
        0,
        argb(255, 7, 8, 9),
    ];
    assert_eq!(resample(&src, 2, 2, 2, 2), src);
}

#[test]
fn resample_averages_an_opaque_block() {
    // Four opaque pixels averaging to 100 in every channel.
    let src = vec![
        argb(255, 40, 40, 40),
        argb(255, 80, 80, 80),
        argb(255, 120, 120, 120),
        argb(255, 160, 160, 160),
    ];
    let out = resample(&src, 2, 2, 1, 1);
    assert_eq!(out.len(), 1);
    assert_eq!(out[0] >> 24, 255, "opaque input stays opaque");
    assert_eq!(out[0] & 0xff, 100);
}

#[test]
fn resample_weights_colour_by_alpha() {
    // One opaque white beside a transparent black. Averaging straight would
    // halve the colour to grey; weighting by alpha keeps it white and only
    // drops the alpha.
    let src = vec![argb(255, 255, 255, 255), argb(0, 0, 0, 0)];
    let out = resample(&src, 2, 1, 1, 1);
    assert_eq!(out[0] >> 24, 128, "alpha is the mean of 255 and 0");
    assert_eq!(out[0] & 0xff_ffff, 0xff_ffff, "colour must not darken");
}

#[test]
fn resample_fully_transparent_stays_clear() {
    let src = vec![0u32; 4];
    assert_eq!(resample(&src, 2, 2, 1, 1), vec![0]);
}

#[test]
fn resample_rejects_degenerate_sizes() {
    let src = vec![argb(255, 1, 2, 3)];
    assert!(resample(&src, 0, 1, 1, 1).is_empty());
    assert!(resample(&src, 1, 1, 0, 1).is_empty());
    // Source shorter than its declared dimensions.
    assert!(resample(&src, 4, 4, 2, 2).is_empty());
}

#[test]
fn resample_upscale_covers_every_destination_pixel() {
    let src = vec![argb(255, 10, 20, 30)];
    let out = resample(&src, 1, 1, 3, 3);
    assert_eq!(out.len(), 9);
    assert!(out.iter().all(|&p| p == argb(255, 10, 20, 30)));
}







#[test]
fn fallback_color_is_deterministic_and_varies() {
    assert_eq!(fallback_color("Spotify"), fallback_color("Spotify"));
    assert_ne!(fallback_color("Spotify"), fallback_color("Firefox"));
}

#[test]
fn icon_initial_picks_first_alphanumeric_uppercased() {
    assert_eq!(icon_initial("firefox"), 'F');
    assert_eq!(icon_initial("  spotify"), 'S');
    assert_eq!(icon_initial("· YouTube"), 'Y');
    assert_eq!(icon_initial("123"), '1');
    assert_eq!(icon_initial(""), '?');
    assert_eq!(icon_initial("··"), '?');
}

/// The bytes of an opaque single-colour PNG.
fn png_of(width: u32, height: u32, color: u32) -> Vec<u8> {
    encode_rgb(&vec![color; (width * height) as usize], width, height)
}

#[test]
fn cache_decodes_once_and_scales_to_the_requested_side() {
    let path = String::from("app.png");
    let bytes = png_of(48, 48, 0xff20_4060);
    let mut cache = IconCache::new();

    let icon = cache.get(&path, 24, Some(&bytes)).expect("decodes");
    assert_eq!((icon.width, icon.height), (24, 24));
    // Held now, so nothing has to be read again.
    assert!(cache.holds(&path, 24));
    cache.get(&path, 24, None).expect("still decodes");
    assert_eq!(cache.entries.len(), 1, "second get must not add an entry");

    // A scale change rebuilds the entry at the new side.
    assert!(!cache.holds(&path, 48));
    let icon = cache.get(&path, 48, Some(&bytes)).expect("decodes");
    assert_eq!((icon.width, icon.height), (48, 48));
    assert_eq!(cache.entries.len(), 1);
}

#[test]
fn cache_remembers_a_failed_decode() {
    let path = String::from("app.svg");
    let mut cache = IconCache::new();
    assert!(cache.get(&path, 24, Some(b"<svg/>")).is_none());
    assert!(cache.holds(&path, 24), "not to be read again");
    assert!(cache.get(&path, 24, None).is_none());
    assert_eq!(cache.entries.len(), 1, "failure is cached, not retried");
}

#[test]
fn cache_misses_a_path_that_is_not_there() {
    let mut cache = IconCache::new();
    assert!(cache
        .get(&String::from("/nonexistent/app.png"), 24, None)
        .is_none());
}

#[test]
fn load_keeps_the_aspect_of_a_non_square_icon() {
    let icon = load(Some(&png_of(40, 20, 0xff00_ff00)), 20).expect("decodes");
    assert_eq!((icon.width, icon.height), (20, 10));
}

#[test]
fn load_fits_as_single_precision_does() {
    for (w, h) in [(7u32, 5u32), (48, 48), (100, 3), (31, 64), (1, 90)] {
        let bytes = png_of(w, h, 0xff10_2030);
        for side in [1u32, 3, 16, 24, 26, 39] {
            let fit = (side as f32 / w as f32).min(side as f32 / h as f32);
            let width = ((w as f32 * fit).round() as u32).max(1);
            let height = ((h as f32 * fit).round() as u32).max(1);
            let icon = load(Some(&bytes), side).expect("decodes");
            assert_eq!((icon.width, icon.height), (width, height));
            assert_eq!(icon.pixels.len(), (width * height) as usize);
        }
        assert!(load(Some(&bytes), 0).is_none());
    }
}

#[test]
fn shrinking_counts_every_pixel_once() {
    // Three by one into two: the first takes one pixel, the second two.
    let src = vec![argb(255, 0, 0, 0), argb(255, 100, 100, 100), argb(255, 200, 200, 200)];
    let out = resample(&src, 3, 1, 2, 1);
    assert_eq!(out[0] & 0xff, 0);
    assert_eq!(out[1] & 0xff, 150);
}

#[test]
fn hsl_endpoints_are_sane() {
    // Zero saturation is a gray at the lightness.
    let gray = hsl_to_rgb(0, 0, 50);
    assert_eq!(gray.r, gray.g);
    assert_eq!(gray.g, gray.b);
}

/// The tint of every hue is what single-precision arithmetic gives.
#[test]
fn tints_agree_with_single_precision() {
    for hue in 0..360u32 {
        let (h, s, l) = (hue as f32, 0.42f32, 0.46f32);
        let c = (1.0 - (2.0 * l - 1.0).abs()) * s;
        let hp = h / 60.0;
        let x = c * (1.0 - (hp % 2.0 - 1.0).abs());
        let (r, g, b) = match hp as i32 {
            0 => (c, x, 0.0),
            1 => (x, c, 0.0),
            2 => (0.0, c, x),
            3 => (0.0, x, c),
            4 => (x, 0.0, c),
            _ => (c, 0.0, x),
        };
        let m = l - c / 2.0;
        let to_u8 = |v: f32| ((v + m) * 255.0).round().clamp(0.0, 255.0) as u8;
        assert_eq!(
            hsl_to_rgb(hue, 42, 46),
            Color::rgb(to_u8(r), to_u8(g), to_u8(b)),
            "hue {hue}"
        );
    }
}

#[test]
fn a_tint_is_the_hash_of_its_name() {
    let mut h: u32 = 0x811c_9dc5;
    for b in "Spotify".bytes() {
        h ^= b as u32;
        h = h.wrapping_mul(0x0100_0193);
    }
    assert_eq!(fallback_color("Spotify"), hsl_to_rgb(h % 360, 42, 46));
}

#[test]
fn an_initial_is_upper_case_even_where_that_takes_more_letters() {
    assert_eq!(first_upper('ß'), 'S');
    assert_eq!(icon_initial("élan"), 'É');
}
