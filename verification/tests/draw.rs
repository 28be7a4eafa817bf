//! Drawing lists.

use bnksound::number::Number;
use bnksound::render::buffer::{Color, PixelBuffer};
use bnksound::render::draw::{
    can_draw, draw, draw_fallback_icon, draw_icon, plain_op, Op, HAIRLINE, STROKE,
};
use bnksound::render::image::{fallback_color, load, IconCache, IconImage};
use bnksound::render::paint::Mark;
use bnksound::render::png::encode_rgb;
use bnksound::render::primitives::{Painter, Rect};
use bnksound::single::Scale;

const RED: Color = Color { r: 255, g: 0, b: 0, a: 255 };
const ONE: Scale = Scale { bits: 0x3f80_0000 };

fn at(buf: &PixelBuffer, x: i32, y: i32) -> u32 {
    buf.pixels()[y as usize * buf.width() as usize + x as usize]
}

fn fill(x: i32, y: i32, w: i32, h: i32) -> Op {
    Op::Fill {
        rect: Rect::new(x, y, w, h),
        color: RED,
    }
}

#[test]
fn clips_nest_and_end() {
    let mut buf = PixelBuffer::new(8, 4);
    let ops = vec![
        Op::Clip(Rect::new(0, 0, 4, 4)),
        Op::Clip(Rect::new(2, 0, 6, 2)),
        fill(0, 0, 8, 1),
        Op::Unclip,
        fill(0, 1, 8, 1),
        Op::Unclip,
        fill(0, 2, 8, 1),
    ];
    draw(&mut buf.painter(), &ops);
    for x in 0..8 {
        let red = |y| at(&buf, x, y) == 0xffff_0000;
        assert_eq!(red(0), (2..4).contains(&x), "both clips at {x}");
        assert_eq!(red(1), x < 4, "the outer one at {x}");
        assert!(red(2), "none at {x}");
        assert!(!red(3));
    }
}

#[test]
fn nothing_escapes_the_painters_own_clip() {
    let mut buf = PixelBuffer::new(16, 16);
    let ops = vec![
        Op::Rounded { rect: Rect::new(-4, -4, 30, 30), radius: 5, color: RED },
        Op::Outline { rect: Rect::new(1, 1, 14, 14), radius: 3, color: RED },
        Op::Border { rect: Rect::new(0, 0, 16, 16), color: RED },
        Op::Line { a: (0, 0), b: (15, 15), color: RED },
        Op::Triangle { a: (0, 0), b: (15, 0), c: (0, 15), color: RED },
        Op::Mask { x: 2, y: 2, w: 12, h: 12, coverage: vec![255; 144], color: RED },
        Op::Picture { x: -3, y: -3, w: 20, h: 20, argb: vec![0xff00_ff00; 400] },
        Op::Clip(Rect::new(-50, -50, 100, 100)),
        fill(-10, -10, 100, 100),
    ];
    assert!(ops.iter().all(|op| can_draw(op, ONE)));
    draw(&mut buf.painter().clipped(Rect::new(4, 5, 6, 7)), &ops);
    for y in 0..16 {
        for x in 0..16 {
            let inside = (4..10).contains(&x) && (5..12).contains(&y);
            let want = if inside { 0xffff_0000 } else { 0xff00_0000 };
            assert_eq!(at(&buf, x, y), want, "at {x},{y}");
        }
    }
}

/// A list draws what the painter's own calls draw.
#[test]
fn a_list_draws_as_the_painter_does() {
    let scale = Scale { bits: 1.5f32.to_bits() };
    let rect = Rect::new(2, 3, 9, 8);
    let ops = vec![
        fill(0, 0, 3, 3),
        Op::Rounded { rect, radius: 3, color: Color::rgba(0, 200, 0, 128) },
        Op::Outline { rect, radius: 3, color: RED },
        Op::Border { rect: Rect::new(0, 0, 13, 13), color: Color::rgb(0, 0, 255) },
        Op::Line { a: (1, 12), b: (12, 2), color: RED },
        Op::Triangle { a: (5, 5), b: (9, 6), c: (6, 11), color: RED },
        Op::Mask { x: 4, y: 4, w: 2, h: 1, coverage: vec![40, 200], color: RED },
        Op::Picture { x: 6, y: 7, w: 1, h: 2, argb: vec![0x8011_2233, 0xff44_5566] },
    ];
    let mut list = PixelBuffer::new(20, 20);
    let mut calls = PixelBuffer::new(20, 20);
    {
        let (pixels, w, h) = list.parts();
        draw(&mut Painter::scaled(pixels, w, h, scale), &ops);
        let (pixels, w, h) = calls.parts();
        let mut p = Painter::scaled(pixels, w, h, scale);
        p.fill(Rect::new(0, 0, 3, 3), RED);
        p.rounded_rect(rect, 3, Color::rgba(0, 200, 0, 128));
        p.rounded_stroke(rect, 3, Number { bits: HAIRLINE }, RED);
        p.stroke_rect(Rect::new(0, 0, 13, 13), 1, Color::rgb(0, 0, 255));
        p.line((1, 12), (12, 2), Number { bits: STROKE }, RED);
        p.triangle((5, 5), (9, 6), (6, 11), RED);
        p.blit_coverage(4, 4, 2, 1, &[40, 200], RED);
        p.blit_argb(6, 7, 1, 2, &[0x8011_2233, 0xff44_5566]);
    }
    assert_eq!(list.pixels(), calls.pixels());
    assert!(list.pixels().iter().any(|p| *p != 0xff00_0000));
}

#[test]
fn what_is_too_far_or_not_there_cannot_be_drawn() {
    assert!(!can_draw(&fill(i32::MAX, 0, 4, 4), ONE));
    assert!(!can_draw(&fill(0x2000_0000, 0, 4, 4), Scale { bits: 4.0f32.to_bits() }));
    assert!(can_draw(&fill(0x2000_0000, 0, 4, 4), ONE));
    let mask = |len: usize| Op::Mask { x: 0, y: 0, w: 3, h: 3, coverage: vec![0; len], color: RED };
    assert!(!can_draw(&mask(8), ONE));
    assert!(can_draw(&mask(9), ONE));
    let line = |x: i32| Op::Line { a: (x, 0), b: (0, 0), color: RED };
    assert!(can_draw(&line(i32::MAX), ONE));
    assert!(can_draw(&Op::Unclip, ONE));
}

#[test]
fn plain_marks_need_no_making() {
    let rule = Mark::Rule { x: 1, y: 2, len: 3, color: RED };
    assert!(matches!(
        plain_op(&rule),
        Some(Op::Fill { rect: Rect { x: 1, y: 2, w: 3, h: 1 }, color: RED })
    ));
    let line = Mark::Line { x0: 1, y0: 2, x1: 3, y1: 4, color: RED };
    assert!(matches!(plain_op(&line), Some(Op::Line { a: (1, 2), b: (3, 4), color: RED })));
    assert!(matches!(plain_op(&Mark::Unclip), Some(Op::Unclip)));
    let field = Mark::Field { rect: Rect::new(0, 0, 1, 1), text: "x".into(), color: RED };
    assert!(plain_op(&field).is_none());
}

/// A square icon file of one color.
fn png_of(side: u32, argb: u32) -> Vec<u8> {
    encode_rgb(&vec![argb; (side * side) as usize], side, side)
}

/// The icon at a path, as a frame asks for it.
fn cached(cache: &mut IconCache, path: &str, side: u32, file: &[u8]) -> Option<IconImage> {
    let icon = cache.get(&path.to_string(), side, Some(file))?;
    Some(IconImage {
        width: icon.width,
        height: icon.height,
        pixels: icon.pixels.clone(),
    })
}

#[test]
fn draw_icon_paints_the_file_and_falls_back_without_one() {
    let file = png_of(28, 0xff20_4060);
    let mut cache = IconCache::new();
    let rect = Rect::new(0, 0, 28, 28);

    let mut buf = PixelBuffer::new(28, 28);
    let icon = cached(&mut cache, "app.png", 28, &file);
    let ops = vec![draw_icon(rect, rect, icon, "Files", 6)];
    draw(&mut buf.painter(), &ops);
    assert_eq!(
        buf.pixels()[14 * 28 + 14],
        0xff20_4060,
        "the icon's own colour should reach the centre"
    );

    // With no path the tinted tile takes over, which is a different colour.
    let mut buf = PixelBuffer::new(28, 28);
    let ops = vec![draw_icon(rect, rect, None, "Files", 6)];
    draw(&mut buf.painter(), &ops);
    assert_eq!(
        buf.pixels()[14 * 28 + 14],
        fallback_color("Files").to_opaque_u32()
    );
}

#[test]
fn draw_fallback_icon_paints_the_square() {
    let mut buf = PixelBuffer::new(28, 28);
    let ops = vec![
        draw_fallback_icon(Rect::new(0, 0, 28, 28), "Files", 6),
        // The initial's ink.
        Op::Mask {
            x: 10,
            y: 8,
            w: 3,
            h: 4,
            coverage: vec![200; 12],
            color: Color::rgb(255, 255, 255),
        },
    ];
    draw(&mut buf.painter(), &ops);
    // The tint fills the center, and the glyph leaves at least one bright
    // pixel distinct from the background.
    let center = buf.pixels()[14 * 28 + 14];
    assert_ne!(center, 0xff00_0000, "icon square should be tinted");
    assert!(buf
        .pixels()
        .iter()
        .any(|&p| p != center && p != 0xff00_0000));
}

/// Keeping the aspect leaves one axis short, so the picture sits in the middle.
#[test]
fn a_picture_sits_in_the_middle_of_its_place() {
    let icon = IconImage { width: 26, height: 12, pixels: vec![0; 312] };
    let rect = Rect::new(10, 20, 26, 26);
    let op = draw_icon(rect, rect, Some(icon), "Files", 6);
    assert!(matches!(op, Op::Picture { x: 10, y: 27, w: 26, h: 12, .. }));
}

#[test]
fn an_icon_draws_in_the_middle_of_its_rectangle() {
    let file = encode_rgb(&vec![0xff20_4060; 800], 40, 20);
    let icon = load(Some(&file), 20);
    let rect = Rect::new(0, 0, 20, 20);
    let mut buf = PixelBuffer::new(20, 20);
    draw(&mut buf.painter(), &vec![draw_icon(rect, rect, icon, "Wide", 6)]);
    let at = |x: usize, y: usize| buf.pixels()[y * 20 + x];
    assert_eq!(at(10, 10), 0xff20_4060);
    assert_eq!(at(0, 5), 0xff20_4060);
    assert_eq!(at(0, 4), 0xff00_0000, "above the icon");
    assert_eq!(at(19, 14), 0xff20_4060);
    assert_eq!(at(19, 15), 0xff00_0000, "below it");
}

/// A glyph drawn near an edge is clipped, not out of bounds.
#[test]
fn glyph_hanging_off_the_edge_is_clipped_not_a_panic() {
    let mut buf = PixelBuffer::new(40, 24);
    let glyph = |x: i32, y: i32| Op::Mask {
        x,
        y,
        w: 12,
        h: 14,
        coverage: vec![255; 168],
        color: Color::rgb(255, 255, 255),
    };
    let ops = vec![glyph(36, -3), glyph(-5, 20), glyph(60, 60), glyph(-40, -40)];
    draw(&mut buf.painter(), &ops);
    assert_eq!(at(&buf, 39, 0), 0xffff_ffff);
    assert_eq!(at(&buf, 0, 23), 0xffff_ffff);
    assert_eq!(at(&buf, 20, 12), 0xff00_0000);
}
