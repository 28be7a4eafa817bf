//! Colors and pixel buffers.

use bnksound::render::buffer::{over, Color, PixelBuffer};

#[test]
fn opaque_over_replaces() {
    assert_eq!(over(0xff00_0000, Color::rgb(0x12, 0x34, 0x56)), 0xff12_3456);
}

#[test]
fn transparent_over_keeps_destination() {
    assert_eq!(over(0xff11_2233, Color::rgba(0, 0, 0, 0)), 0xff11_2233);
}

#[test]
fn half_alpha_is_midpoint() {
    // White at 50% over black lands near mid-gray, result stays opaque.
    let out = over(0xff00_0000, Color::rgba(255, 255, 255, 128));
    assert_eq!(out & 0xff00_0000, 0xff00_0000);
    let r = (out >> 16) & 0xff;
    assert!((127..=129).contains(&r), "r was {r}");
}

#[test]
fn scale_alpha_combines_with_coverage() {
    assert_eq!(Color::rgb(10, 20, 30).scale_alpha(0).a, 0);
    assert_eq!(Color::rgb(10, 20, 30).scale_alpha(255).a, 255);
    assert_eq!(Color::rgba(1, 2, 3, 128).scale_alpha(128).a, 64);
}

#[test]
fn new_is_opaque_black_and_sized() {
    let buf = PixelBuffer::new(4, 3);
    assert_eq!(buf.width(), 4);
    assert_eq!(buf.height(), 3);
    assert_eq!(buf.pixels().len(), 12);
    assert!(buf.pixels().iter().all(|&p| p == 0xff00_0000));
}

#[test]
fn resize_reallocates_only_on_count_change() {
    let mut buf = PixelBuffer::new(4, 4);
    buf.resize(8, 2); // same 16 pixels
    assert_eq!(buf.pixels().len(), 16);
    assert_eq!((buf.width(), buf.height()), (8, 2));
    buf.resize(8, 3);
    assert_eq!(buf.pixels().len(), 24);
}

#[test]
fn bytes_are_little_endian_words() {
    let mut buf = PixelBuffer::new(2, 1);
    buf.clear(Color::rgb(0x12, 0x34, 0x56));
    assert_eq!(
        buf.bytes(),
        vec![0x56, 0x34, 0x12, 0xff, 0x56, 0x34, 0x12, 0xff]
    );
}

#[test]
fn compositing_keeps_a_pixel_opaque_whatever_the_ink() {
    for a in [0u8, 1, 17, 128, 254, 255] {
        let out = over(0xff80_4020, Color::rgba(9, 200, 77, a));
        assert_eq!(out >> 24, 0xff);
    }
}

#[test]
fn opaque_words_hold_their_channels() {
    assert_eq!(Color::rgb(0x12, 0x34, 0x56).to_opaque_u32(), 0xff12_3456);
    assert_eq!(Color::rgba(1, 2, 3, 4).to_opaque_u32(), 0xff01_0203);
}
