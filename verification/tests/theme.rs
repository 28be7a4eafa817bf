//! The palette.
use bnksound::render::buffer::Color;
use bnksound::ui::theme::Palette;

#[test]
fn opaque_roles_are_fully_opaque() {
    let p = Palette::dark();
    assert_eq!(p.bg, Color::rgb(0x1f, 0x21, 0x24));
    assert_eq!(p.accent, Color::rgb(0xff, 0x00, 0xaa));
    assert_eq!(p.text.a, 255);
}

#[test]
fn washes_round_alpha_to_eight_bits() {
    let p = Palette::dark();
    // 0.08 * 255 = 20.4 -> 20; 0.30 * 255 = 76.5 -> 77.
    assert_eq!(p.wash_8.a, 20);
    assert_eq!(p.wash_30.a, 77);
    assert_eq!(p.backdrop, Color::rgba(0, 0, 0, 128));
}

#[test]
fn meter_tints_round_channels() {
    let p = Palette::dark();
    // 0.30 -> 77, 0.80 -> 204, 0.45 -> 115, 0.95 -> 242.
    assert_eq!(p.meter_green, Color::rgba(77, 204, 115, 242));
}
