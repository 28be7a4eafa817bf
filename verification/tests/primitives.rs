//! Rectangles and the painter.

use bnksound::number::Number;
use bnksound::render::buffer::{Color, PixelBuffer};
use bnksound::render::primitives::{Painter, Rect};
use bnksound::single::{to_device, to_logical, Scale};

fn scale(v: f32) -> Scale {
    Scale { bits: v.to_bits() }
}

fn at(buf: &PixelBuffer, x: i32, y: i32) -> u32 {
    buf.pixels()[y as usize * buf.width() as usize + x as usize]
}

#[test]
fn rect_intersect_and_contains() {
    let a = Rect::new(0, 0, 10, 10);
    let b = Rect::new(5, 5, 10, 10);
    assert_eq!(a.intersect(b), Rect::new(5, 5, 5, 5));
    assert!(a.intersect(Rect::new(20, 20, 1, 1)).is_empty());
    assert!(a.contains(0, 0));
    assert!(!a.contains(10, 0));
}

#[test]
fn fill_clips_to_bounds_without_panicking() {
    let mut buf = PixelBuffer::new(4, 4);
    // A rect spilling past every edge fills only the buffer.
    buf.painter()
        .fill(Rect::new(-2, -2, 100, 100), Color::rgb(1, 2, 3));
    for p in buf.pixels() {
        assert_eq!(*p, 0xff01_0203);
    }
}

#[test]
fn fill_respects_clip() {
    let mut buf = PixelBuffer::new(8, 8);
    buf.painter()
        .clipped(Rect::new(2, 2, 3, 3))
        .fill(Rect::new(0, 0, 8, 8), Color::rgb(255, 0, 0));
    assert_eq!(at(&buf, 0, 0), 0xff00_0000); // outside clip, untouched
    assert_eq!(at(&buf, 2, 2), 0xffff_0000); // inside clip
    assert_eq!(at(&buf, 4, 4), 0xffff_0000);
    assert_eq!(at(&buf, 5, 5), 0xff00_0000); // just past clip
}

#[test]
fn blended_fill_darkens_toward_source() {
    let mut buf = PixelBuffer::new(2, 2);
    buf.clear(Color::rgb(0, 0, 0));
    buf.painter()
        .fill(Rect::new(0, 0, 2, 2), Color::rgba(255, 255, 255, 128));
    let r = (at(&buf, 0, 0) >> 16) & 0xff;
    assert!((127..=129).contains(&r), "r was {r}");
}

#[test]
fn stroke_rect_draws_four_edges_only() {
    let mut buf = PixelBuffer::new(6, 6);
    buf.painter()
        .stroke_rect(Rect::new(1, 1, 4, 4), 1, Color::rgb(0, 255, 0));
    assert_eq!(at(&buf, 1, 1), 0xff00_ff00); // corner on the border
    assert_eq!(at(&buf, 4, 4), 0xff00_ff00); // opposite corner
    assert_eq!(at(&buf, 2, 2), 0xff00_0000); // interior untouched
}

/// The whole point of the scale: callers keep speaking logical pixels and
/// the ink lands on the matching device pixels.
#[test]
fn a_scaled_painter_maps_logical_rects_onto_device_pixels() {
    let mut buf = PixelBuffer::new(8, 8);
    {
        let (pixels, w, h) = buf.parts();
        let mut p = Painter::scaled(pixels, w, h, scale(2.0));
        // The logical buffer is 4x4, so this is its top-left quarter.
        assert_eq!(p.bounds(), Rect::new(0, 0, 4, 4));
        p.fill(Rect::new(0, 0, 2, 2), Color::rgb(255, 0, 0));
    }
    assert_eq!(at(&buf, 0, 0), 0xffff_0000);
    assert_eq!(at(&buf, 3, 3), 0xffff_0000, "2 logical px is 4 device px");
    assert_eq!(at(&buf, 4, 4), 0xff00_0000, "and no further");
}

/// Adjacent logical rectangles must stay adjacent once scaled, or a seam of
/// background shows through between them.
#[test]
fn abutting_rects_leave_no_seam_at_a_fractional_scale() {
    let mut buf = PixelBuffer::new(32, 8);
    {
        let (pixels, w, h) = buf.parts();
        let mut p = Painter::scaled(pixels, w, h, scale(1.25));
        let white = Color::rgb(255, 255, 255);
        for i in 0..5 {
            p.fill(Rect::new(i * 5, 0, 5, 4), white);
        }
    }
    // 25 logical px at 1.25 covers 31 device columns with no gap.
    for x in 0..31 {
        assert_eq!(at(&buf, x, 0), 0xffff_ffff, "column {x} should be filled");
    }
}

#[test]
fn a_clip_on_a_scaled_painter_is_scaled_too() {
    let mut buf = PixelBuffer::new(8, 8);
    {
        let (pixels, w, h) = buf.parts();
        let mut p = Painter::scaled(pixels, w, h, scale(2.0));
        p.clipped(Rect::new(1, 1, 1, 1))
            .fill(Rect::new(0, 0, 4, 4), Color::rgb(0, 255, 0));
    }
    assert_eq!(at(&buf, 1, 1), 0xff00_0000, "outside the scaled clip");
    assert_eq!(at(&buf, 2, 2), 0xff00_ff00, "inside it");
    assert_eq!(at(&buf, 3, 3), 0xff00_ff00);
    assert_eq!(at(&buf, 4, 4), 0xff00_0000, "just past it");
}

#[test]
fn blit_coverage_scales_alpha() {
    let mut buf = PixelBuffer::new(2, 1);
    buf.clear(Color::rgb(0, 0, 0));
    // Left pixel full coverage, right pixel half.
    let mask = [255u8, 128u8];
    buf.painter()
        .blit_coverage(0, 0, 2, 1, &mask, Color::rgb(255, 255, 255));
    assert_eq!(at(&buf, 0, 0), 0xffff_ffff);
    let r = (at(&buf, 1, 0) >> 16) & 0xff;
    assert!((127..=129).contains(&r), "r was {r}");
}

/// Scaling is that of single-precision numbers, rounded to the nearest pixel.
#[test]
fn scaling_agrees_with_single_precision() {
    for s in [0.5f32, 0.75, 1.0, 1.1, 1.25, 1.3333334, 1.5, 1.75, 2.0, 2.5, 3.0] {
        for v in [-70000i32, -1001, -7, -1, 0, 1, 2, 3, 5, 99, 640, 1079, 16_777_217, 40_000_000] {
            assert_eq!(
                to_device(v, scale(s)),
                (v as f32 * s).round() as i32,
                "{v} at {s}"
            );
            if v >= 0 {
                assert_eq!(
                    to_logical(v, scale(s)),
                    (v as f32 / s).round() as i32,
                    "{v} back from {s}"
                );
            }
        }
    }
}

#[test]
fn a_scale_that_is_not_positive_counts_as_one() {
    let mut buf = PixelBuffer::new(8, 8);
    let (pixels, w, h) = buf.parts();
    let p = Painter::scaled(pixels, w, h, scale(-2.0));
    assert_eq!(p.bounds(), Rect::new(0, 0, 8, 8));
}

#[test]
fn an_inset_taken_back_is_the_rectangle_again() {
    let r = Rect::new(3, 4, 20, 10);
    assert_eq!(r.inset(2), Rect::new(5, 6, 16, 6));
    assert_eq!(r.inset(2).inset(-2), r);
}

#[test]
fn lines_are_one_pixel_thick() {
    let mut buf = PixelBuffer::new(5, 5);
    buf.painter().hline(1, 2, 3, Color::rgb(255, 0, 0));
    buf.painter().vline(0, 1, 2, Color::rgb(0, 255, 0));
    assert_eq!(at(&buf, 1, 2), 0xffff_0000);
    assert_eq!(at(&buf, 3, 2), 0xffff_0000);
    assert_eq!(at(&buf, 4, 2), 0xff00_0000);
    assert_eq!(at(&buf, 1, 3), 0xff00_0000);
    assert_eq!(at(&buf, 0, 1), 0xff00_ff00);
    assert_eq!(at(&buf, 0, 2), 0xff00_ff00);
    assert_eq!(at(&buf, 0, 3), 0xff00_0000);
}

#[test]
fn images_blend_by_their_own_alpha_inside_the_clip() {
    let mut buf = PixelBuffer::new(3, 1);
    buf.painter().clipped(Rect::new(0, 0, 2, 1)).blit_argb(
        0,
        0,
        3,
        1,
        &[0xff11_2233, 0x0044_5566, 0xff77_8899],
    );
    assert_eq!(at(&buf, 0, 0), 0xff11_2233);
    assert_eq!(at(&buf, 1, 0), 0xff00_0000, "fully clear");
    assert_eq!(at(&buf, 2, 0), 0xff00_0000, "outside the clip");
}

#[test]
fn a_rectangle_outside_the_clip_is_known_to_be() {
    let mut buf = PixelBuffer::new(8, 8);
    let mut p = buf.painter();
    let q = p.clipped(Rect::new(2, 2, 3, 3));
    assert!(q.intersects(Rect::new(4, 4, 2, 2)));
    assert!(!q.intersects(Rect::new(5, 5, 2, 2)));
    assert_eq!(q.clip(), Rect::new(2, 2, 3, 3));
}

#[test]
fn rounded_rect_softens_corners_but_fills_center() {
    let mut buf = PixelBuffer::new(20, 20);
    buf.painter()
        .rounded_rect(Rect::new(0, 0, 20, 20), 6, Color::rgb(255, 255, 255));
    // Center is fully filled.
    assert_eq!(at(&buf, 10, 10), 0xffff_ffff);
    // The extreme corner pixel is not fully covered (rounded away).
    assert!((at(&buf, 0, 0) & 0xff) < 0xff, "corner should be partial");
}

#[test]
fn rounded_stroke_traces_the_edge_and_leaves_the_corners_and_centre_clear() {
    let mut buf = PixelBuffer::new(24, 24);
    buf.painter()
        .rounded_stroke(Rect::new(2, 2, 20, 20), 6, px(1.0), Color::rgb(255, 255, 255));

    // The extreme corner is outside the rounded shape.
    assert_eq!(at(&buf, 2, 2), 0xff00_0000, "corner is cut away");
    // Mid-edge is on the border.
    let top = at(&buf, 12, 2) & 0xff;
    assert!(top > 0x80, "top edge should be drawn, got {top:#x}");
    let left = at(&buf, 2, 12) & 0xff;
    assert!(left > 0x80, "left edge should be drawn, got {left:#x}");
    // The interior stays empty: this is an outline, not a fill.
    assert_eq!(at(&buf, 12, 12), 0xff00_0000, "centre is not filled");
}

/// The outline sits inside the rectangle, so it cannot bleed onto whatever
/// is drawn next to it.
#[test]
fn rounded_stroke_stays_within_its_rectangle() {
    let mut buf = PixelBuffer::new(16, 16);
    buf.painter()
        .rounded_stroke(Rect::new(4, 4, 8, 8), 3, px(1.0), Color::rgb(255, 0, 0));
    for x in 0..16 {
        for y in 0..16 {
            let inside = (4..12).contains(&x) && (4..12).contains(&y);
            if !inside {
                assert_eq!(at(&buf, x, y), 0xff00_0000, "ink escaped at {x},{y}");
            }
        }
    }
}

/// White ink on black leaves its coverage in every channel.
fn covers(buf: &PixelBuffer, x: i32, y: i32, want: f32) {
    let got = (at(buf, x, y) & 0xff) as i32;
    let want = (want.clamp(0.0, 1.0) * 255.0 + 0.5) as i32;
    assert_eq!(got, want, "at {x},{y}");
}

/// A width in pixels.
fn px(v: f32) -> Number {
    Number { bits: v.to_bits() }
}

/// A rounded corner is covered by its pixels' distance to the corner's middle.
#[test]
fn rounded_corners_are_covered_by_distance() {
    let mut buf = PixelBuffer::new(40, 30);
    let white = Color::rgb(255, 255, 255);
    buf.painter().rounded_rect(Rect::new(3, 4, 30, 20), 7, white);
    for y in 0..30 {
        for x in 0..40 {
            let (px, py) = (x as f32 + 0.5, y as f32 + 0.5);
            let (cx, cy) = (px.clamp(10.0, 26.0), py.clamp(11.0, 17.0));
            let d = ((px - cx).powi(2) + (py - cy).powi(2)).sqrt();
            let inside = (3..33).contains(&x) && (4..24).contains(&y);
            let cov = if !inside {
                0.0
            } else if d == 0.0 {
                1.0
            } else {
                7.0 - d + 0.5
            };
            covers(&buf, x, y, cov);
        }
    }
}

/// An outline is covered by its pixels' distance to the middle of its line.
#[test]
fn outlines_are_covered_by_distance() {
    let white = Color::rgb(255, 255, 255);
    for (thickness, t) in [(1.0f32, 1.0f32), (1.5, 1.5), (2.5, 2.5), (0.25, 1.0)] {
        let mut buf = PixelBuffer::new(40, 30);
        buf.painter().rounded_stroke(Rect::new(3, 4, 30, 21), 7, px(thickness), white);
        let (cx, cy) = (18.0f32, 14.5f32);
        let (hx, hy) = (15.0 - 7.0f32, 10.5 - 7.0f32);
        for y in 4..25 {
            for x in 3..33 {
                let qx = (x as f32 + 0.5 - cx).abs() - hx;
                let qy = (y as f32 + 0.5 - cy).abs() - hy;
                let out = (qx.max(0.0).powi(2) + qy.max(0.0).powi(2)).sqrt();
                let edge = out + qx.max(qy).min(0.0) - 7.0;
                covers(&buf, x, y, t / 2.0 - (edge + t / 2.0).abs() + 0.5);
            }
        }
    }
}

/// A line is covered by its pixels' distance to the segment.
#[test]
fn lines_are_covered_by_distance() {
    let white = Color::rgb(255, 255, 255);
    for (a, b) in [((5, 6), (30, 17)), ((30, 5), (9, 28)), ((20, 4), (20, 25)), ((12, 12), (12, 12))] {
        let mut buf = PixelBuffer::new(40, 32);
        buf.painter().line(a, b, px(1.5), white);
        let (ax, ay) = (a.0 as f32, a.1 as f32);
        let (dx, dy) = (b.0 as f32 - ax, b.1 as f32 - ay);
        let long = dx * dx + dy * dy;
        for y in 0..32 {
            for x in 0..40 {
                let (px, py) = (x as f32 + 0.5, y as f32 + 0.5);
                let t = if long > 0.0 {
                    (((px - ax) * dx + (py - ay) * dy) / long).clamp(0.0, 1.0)
                } else {
                    0.0
                };
                let (cx, cy) = (ax + t * dx, ay + t * dy);
                let d = ((px - cx).powi(2) + (py - cy).powi(2)).sqrt();
                covers(&buf, x, y, 0.75 - d + 0.5);
            }
        }
    }
}

/// A triangle is covered by the quarters of a pixel that lie in it.
#[test]
fn triangles_are_covered_by_quarters() {
    let white = Color::rgb(255, 255, 255);
    let p = [(4, 5), (27, 9), (11, 26)];
    let mut buf = PixelBuffer::new(32, 32);
    buf.painter().triangle(p[0], p[1], p[2], white);
    let edge = |a: (i32, i32), b: (i32, i32), q: (f32, f32)| {
        (b.0 - a.0) as f32 * (q.1 - a.1 as f32) - (b.1 - a.1) as f32 * (q.0 - a.0 as f32)
    };
    for y in 0..32 {
        for x in 0..32 {
            let mut hits = 0;
            for (ox, oy) in [(0.25, 0.25), (0.75, 0.25), (0.25, 0.75), (0.75, 0.75)] {
                let q = (x as f32 + ox, y as f32 + oy);
                let e = [edge(p[0], p[1], q), edge(p[1], p[2], q), edge(p[2], p[0], q)];
                if e.iter().all(|v| *v >= 0.0) || e.iter().all(|v| *v <= 0.0) {
                    hits += 1;
                }
            }
            covers(&buf, x, y, hits as f32 / 4.0);
        }
    }
}

#[test]
fn a_shape_without_ink_or_width_leaves_the_buffer() {
    let mut buf = PixelBuffer::new(8, 8);
    let white = Color::rgb(255, 255, 255);
    buf.painter().rounded_rect(Rect::new(2, 2, 0, 4), 2, white);
    buf.painter().rounded_stroke(Rect::new(1, 1, 6, 6), 2, px(0.0), white);
    buf.painter().line((1, 1), (6, 6), px(-1.0), white);
    buf.painter().triangle((0, 0), (8, 0), (0, 8), Color::rgba(255, 255, 255, 0));
    for p in buf.pixels() {
        assert_eq!(*p, 0xff00_0000);
    }
}
