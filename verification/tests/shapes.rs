//! Anti-aliased shapes against the machine's single precision.

use bnksound::number::Number;
use bnksound::render::buffer::{over, Color, PixelBuffer};
use bnksound::render::primitives::{Painter, Rect};
use bnksound::single::Scale;

const W: i32 = 48;
const H: i32 = 40;
const INK: Color = Color { r: 250, g: 120, b: 30, a: 200 };

fn px(v: f32) -> Number {
    Number { bits: v.to_bits() }
}

/// What a call leaves of a clear frame.
fn painted(scale: f32, call: impl Fn(&mut Painter)) -> Vec<u32> {
    let mut buf = PixelBuffer::new(W as u32, H as u32);
    {
        let (pixels, w, h) = buf.parts();
        call(&mut Painter::scaled(pixels, w, h, Scale { bits: scale.to_bits() }));
    }
    buf.pixels().to_vec()
}

/// The same frame from coverages, where there are any.
fn wanted(cover: impl Fn(i32, i32) -> Option<f32>) -> Vec<u32> {
    let mut out = Vec::new();
    for y in 0..H {
        for x in 0..W {
            let clear = 0xff00_0000;
            out.push(match cover(x, y) {
                Some(c) if c > 0.0 => over(clear, INK.scale_alpha((c * 255.0 + 0.5) as u8)),
                _ => clear,
            });
        }
    }
    out
}

fn inside(r: (i32, i32, i32, i32), x: i32, y: i32) -> bool {
    r.0 <= x && x < r.0 + r.2 && r.1 <= y && y < r.1 + r.3
}

/// A rectangle's edges on the device.
fn device(r: (i32, i32, i32, i32), s: f32) -> (i32, i32, i32, i32) {
    let at = |v: i32| (v as f32 * s).round() as i32;
    (at(r.0), at(r.1), at(r.0 + r.2) - at(r.0), at(r.1 + r.3) - at(r.1))
}

const SCALES: [f32; 8] = [1.0, 1.1, 1.25, 1.3333334, 1.5, 1.7, 2.0, 0.73];

#[test]
fn rounded_rectangles() {
    for s in SCALES {
        for (r, radius) in [((3, 4, 21, 17), 5), ((0, 0, 9, 9), 4), ((2, 1, 30, 20), 99), ((5, 5, 8, 3), 0)] {
            let d = device(r, s);
            let rf = ((radius as f32 * s).round() as i32).clamp(0, d.2.min(d.3) / 2) as f32;
            let got = painted(s, |p| p.rounded_rect(Rect::new(r.0, r.1, r.2, r.3), radius, INK));
            let want = wanted(|x, y| {
                if !inside(d, x, y) {
                    return None;
                }
                if rf == 0.0 {
                    return Some(1.0);
                }
                let (fx, fy) = (x as f32 + 0.5, y as f32 + 0.5);
                let (cl, cr) = (d.0 as f32 + rf, (d.0 + d.2) as f32 - rf);
                let (ct, cb) = (d.1 as f32 + rf, (d.1 + d.3) as f32 - rf);
                let cx = if fx < cl { cl } else if fx > cr { cr } else { fx };
                let cy = if fy < ct { ct } else if fy > cb { cb } else { fy };
                if cx == fx && cy == fy {
                    return Some(1.0);
                }
                let e = ((fx - cx).powi(2) + (fy - cy).powi(2)).sqrt();
                Some((rf - e + 0.5).clamp(0.0, 1.0))
            });
            assert_eq!(got, want, "{r:?} rounded by {radius} at {s}");
        }
    }
}

#[test]
fn outlines() {
    for s in SCALES {
        for (r, radius, thickness) in
            [((3, 4, 21, 17), 5, 1.0f32), ((1, 2, 20, 11), 3, 1.5), ((2, 1, 25, 20), 99, 0.3), ((4, 4, 9, 9), -2, 2.7)]
        {
            let d = device(r, s);
            let rad = (radius as f32 * s).clamp(0.0, d.2.min(d.3) as f32 / 2.0);
            let t = (thickness * s).max(1.0);
            let (cx, cy) = (d.0 as f32 + d.2 as f32 / 2.0, d.1 as f32 + d.3 as f32 / 2.0);
            let (hx, hy) = (d.2 as f32 / 2.0 - rad, d.3 as f32 / 2.0 - rad);
            let got = painted(s, |p| {
                p.rounded_stroke(Rect::new(r.0, r.1, r.2, r.3), radius, px(thickness), INK)
            });
            let want = wanted(|x, y| {
                if !inside(d, x, y) {
                    return None;
                }
                let qx = (x as f32 + 0.5 - cx).abs() - hx;
                let qy = (y as f32 + 0.5 - cy).abs() - hy;
                let outside = (qx.max(0.0).powi(2) + qy.max(0.0).powi(2)).sqrt();
                let edge = outside + qx.max(qy).min(0.0) - rad;
                Some((t / 2.0 - (edge + t / 2.0).abs() + 0.5).clamp(0.0, 1.0))
            });
            assert_eq!(got, want, "{r:?} outlined at {s}");
        }
    }
}

#[test]
fn lines() {
    let ends = [
        ((5, 6), (30, 17)),
        ((30, 5), (9, 28)),
        ((1, 1), (25, 1)),
        ((20, 4), (20, 25)),
        ((12, 12), (12, 12)),
        ((-7, 9), (60, 33)),
    ];
    for s in SCALES {
        for (a, b) in ends {
            for thickness in [1.5f32, 1.0, 0.4, 5.3] {
                let (ax, ay) = (a.0 as f32 * s, a.1 as f32 * s);
                let (bx, by) = (b.0 as f32 * s, b.1 as f32 * s);
                let half = thickness * s / 2.0;
                let pad = half.ceil() + 1.0;
                let bounds = (
                    (ax.min(bx) - pad) as i32,
                    (ay.min(by) - pad) as i32,
                    (ax.max(bx) - ax.min(bx) + 2.0 * pad) as i32,
                    (ay.max(by) - ay.min(by) + 2.0 * pad) as i32,
                );
                let (dx, dy) = (bx - ax, by - ay);
                let long = dx * dx + dy * dy;
                let got = painted(s, |p| p.line(a, b, px(thickness), INK));
                let want = wanted(|x, y| {
                    if !inside(bounds, x, y) {
                        return None;
                    }
                    let (fx, fy) = (x as f32 + 0.5, y as f32 + 0.5);
                    let t = if long > 0.0 {
                        (((fx - ax) * dx + (fy - ay) * dy) / long).clamp(0.0, 1.0)
                    } else {
                        0.0
                    };
                    let (cx, cy) = (ax + t * dx, ay + t * dy);
                    let e = ((fx - cx).powi(2) + (fy - cy).powi(2)).sqrt();
                    Some((half - e + 0.5).clamp(0.0, 1.0))
                });
                assert_eq!(got, want, "{a:?} to {b:?}, {thickness} wide at {s}");
            }
        }
    }
    // A level line at a fractional place.
    let got = painted(1.1, |p| p.line((1, 1), (20, 1), px(1.5), Color::rgb(255, 255, 255)));
    assert_eq!(got[10] & 0xff, 185);
}

#[test]
fn triangles() {
    for s in SCALES {
        for pts in [[(4, 5), (27, 9), (11, 26)], [(3, 3), (9, 3), (6, 8)], [(-9, 2), (60, 20), (4, 50)], [(5, 5), (5, 5), (9, 9)]] {
            let p: Vec<(f32, f32)> = pts.iter().map(|q| (q.0 as f32 * s, q.1 as f32 * s)).collect();
            let least = |k: fn(&(f32, f32)) -> f32| p.iter().map(k).fold(f32::MAX, f32::min) as i32 - 1;
            let most = |k: fn(&(f32, f32)) -> f32| p.iter().map(k).fold(f32::MIN, f32::max) as i32 + 2;
            let (x0, y0) = (least(|q| q.0), least(|q| q.1));
            let bounds = (x0, y0, most(|q| q.0) - x0, most(|q| q.1) - y0);
            let edge = |a: (f32, f32), b: (f32, f32), q: (f32, f32)| {
                (b.0 - a.0) * (q.1 - a.1) - (b.1 - a.1) * (q.0 - a.0)
            };
            let got = painted(s, |c| c.triangle(pts[0], pts[1], pts[2], INK));
            let want = wanted(|x, y| {
                if !inside(bounds, x, y) {
                    return None;
                }
                let mut hits = 0;
                for (ox, oy) in [(0.25, 0.25), (0.75, 0.25), (0.25, 0.75), (0.75, 0.75)] {
                    let q = (x as f32 + ox, y as f32 + oy);
                    let e = [edge(p[0], p[1], q), edge(p[1], p[2], q), edge(p[2], p[0], q)];
                    if e.iter().all(|v| *v >= 0.0) || e.iter().all(|v| *v <= 0.0) {
                        hits += 1;
                    }
                }
                Some(hits as f32 / 4.0)
            });
            assert_eq!(got, want, "{pts:?} at {s}");
        }
    }
}
