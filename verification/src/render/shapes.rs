//! Anti-aliased shapes: how much of a pixel each covers.
//!
//! Coverage comes from each pixel's distance to the shape, which keeps corners and
//! diagonals smooth. Distances are single-precision numbers, rounded at every
//! step.

use crate::number;
use crate::number::{Number, HALF, ONE, TWO};
use crate::render::primitives::Rect;
use vstd::prelude::*;

verus! {

/// The bits of 255, which is all of a pixel.
pub const ALL: u32 = 0x437f_0000;

/// The bits of a quarter, and of three of them.
pub const QUARTER: u32 = 0x3e80_0000;

pub const QUARTERS: u32 = 0x3f40_0000;

/// A place on the device, in pixels.
#[derive(Debug, Clone, Copy, PartialEq, Eq)]
pub struct Point {
    pub x: Number,
    pub y: Number,
}

/// A shape, in device pixels.
#[derive(Debug, Clone, Copy, PartialEq, Eq)]
pub enum Shape {
    /// A rectangle whose corners are quarters of a circle.
    Rounded { rect: Rect, radius: i32 },
    /// A line just inside the edge of such a rectangle, and its corners' radius.
    Outline { rect: Rect, corner: Number, width: Number },
    /// A line between two points, and half its width.
    Line { a: Point, b: Point, half: Number },
    /// A triangle between three points.
    Triangle { a: Point, b: Point, c: Point },
}

/// The middle of a pixel.
pub open spec fn middle(v: int) -> Number {
    number::sum(number::whole_number(v), Number { bits: HALF })
}

/// A fraction of a pixel in 255ths, to the nearest; none of one that is not
/// covered.
pub open spec fn part(coverage: Number) -> u8 {
    let n = number::cut(
        number::sum(number::product(coverage, Number { bits: ALL }), Number { bits: HALF }),
    );
    if !number::less(Number { bits: 0 }, coverage) || n < 0 {
        0
    } else if n > 255 {
        255
    } else {
        n as u8
    }
}

/// A coverage brought between none and all of a pixel.
pub open spec fn fraction(v: Number) -> Number {
    number::clamped(v, Number { bits: 0 }, Number { bits: ONE })
}

/// How far apart two points are whose coordinates differ by so much.
pub open spec fn distance(dx: Number, dy: Number) -> Number {
    number::root(number::sum(number::square(dx), number::square(dy)))
}

/// The nearest place to `v` between two others.
pub open spec fn nearest(v: Number, low: Number, high: Number) -> Number {
    if number::less(v, low) {
        low
    } else if number::less(high, v) {
        high
    } else {
        v
    }
}

/// How much of a pixel lies in a rounded rectangle, in 255ths: all of one between
/// the middles of the corners, and half of one whose middle is on the edge.
pub open spec fn rounded_part(rect: Rect, radius: i32, x: int, y: int) -> u8 {
    let r = number::whole_number(radius as int);
    let (px, py) = (middle(x), middle(y));
    let cx = nearest(
        px,
        number::sum(number::whole_number(rect.x as int), r),
        number::difference(number::whole_number(rect.right_edge()), r),
    );
    let cy = nearest(
        py,
        number::sum(number::whole_number(rect.y as int), r),
        number::difference(number::whole_number(rect.bottom_edge()), r),
    );
    if radius <= 0 || (number::same(cx, px) && number::same(cy, py)) {
        255
    } else {
        let d = distance(number::difference(px, cx), number::difference(py, cy));
        part(fraction(number::sum(number::difference(r, d), Number { bits: HALF })))
    }
}

pub open spec fn halved(v: Number) -> Number {
    number::quotient(v, Number { bits: TWO })
}

/// How far a pixel's middle is outside the stretch between the middles of two
/// corners of an outline; negative inside.
pub open spec fn beyond_core(at: int, corner: int, length: int, radius: Number) -> Number {
    let half = halved(number::whole_number(length));
    let core = number::sum(number::whole_number(corner), half);
    number::difference(
        number::size(number::difference(middle(at), core)),
        number::difference(half, radius),
    )
}

/// How much of a pixel lies on an outline, by the signed distance of its middle to
/// the rounded rectangle's edge: negative inside, zero on it. The line sits inside
/// the edge.
pub open spec fn outline_coverage(
    rect: Rect,
    radius: Number,
    width: Number,
    x: int,
    y: int,
) -> Number {
    let zero = Number { bits: 0 };
    let qx = beyond_core(x, rect.x as int, rect.w as int, radius);
    let qy = beyond_core(y, rect.y as int, rect.h as int, radius);
    let outside = distance(number::larger(qx, zero), number::larger(qy, zero));
    let edge = number::difference(
        number::sum(outside, number::lesser(number::larger(qx, qy), zero)),
        radius,
    );
    let half = halved(width);
    fraction(
        number::sum(
            number::difference(half, number::size(number::sum(edge, half))),
            Number { bits: HALF },
        ),
    )
}

/// How much of a pixel lies on a line. A pixel is as far from a line as from the
/// nearest point on it: the foot of the perpendicular where that is between the
/// ends, else an end.
pub open spec fn line_coverage(a: Point, b: Point, half: Number, x: int, y: int) -> Number {
    let zero = Number { bits: 0 };
    let (dx, dy) = (number::difference(b.x, a.x), number::difference(b.y, a.y));
    let length = number::sum(number::product(dx, dx), number::product(dy, dy));
    let (px, py) = (middle(x), middle(y));
    let along = number::sum(
        number::product(number::difference(px, a.x), dx),
        number::product(number::difference(py, a.y), dy),
    );
    let t = if number::less(zero, length) {
        fraction(number::quotient(along, length))
    } else {
        zero
    };
    let cx = number::sum(a.x, number::product(t, dx));
    let cy = number::sum(a.y, number::product(t, dy));
    let d = distance(number::difference(px, cx), number::difference(py, cy));
    fraction(number::sum(number::difference(half, d), Number { bits: HALF }))
}

/// The side of the line from `a` to `b` a point is on.
pub open spec fn side(a: Point, b: Point, q: Point) -> Number {
    number::difference(
        number::product(number::difference(b.x, a.x), number::difference(q.y, a.y)),
        number::product(number::difference(b.y, a.y), number::difference(q.x, a.x)),
    )
}

/// Whether a number is zero or above it.
pub open spec fn from_zero(v: Number) -> bool {
    number::less(Number { bits: 0 }, v) || number::same(v, Number { bits: 0 })
}

/// Whether a number is zero or below it.
pub open spec fn to_zero(v: Number) -> bool {
    number::less(v, Number { bits: 0 }) || number::same(v, Number { bits: 0 })
}

/// Whether a point is in a triangle: on one side of all its edges.
pub open spec fn in_triangle(a: Point, b: Point, c: Point, q: Point) -> bool {
    let (s, t, u) = (side(a, b, q), side(b, c, q), side(c, a, q));
    (from_zero(s) && from_zero(t) && from_zero(u)) || (to_zero(s) && to_zero(t) && to_zero(u))
}

pub open spec fn one_if(b: bool) -> int {
    if b {
        1
    } else {
        0
    }
}

/// A sample point of a pixel.
pub open spec fn sample(x: int, y: int, right: u32, down: u32) -> Point {
    Point {
        x: number::sum(number::whole_number(x), Number { bits: right }),
        y: number::sum(number::whole_number(y), Number { bits: down }),
    }
}

/// How many of a pixel's four sample points are in a triangle.
pub open spec fn samples(a: Point, b: Point, c: Point, x: int, y: int) -> int {
    one_if(in_triangle(a, b, c, sample(x, y, QUARTER, QUARTER))) + one_if(
        in_triangle(a, b, c, sample(x, y, QUARTERS, QUARTER)),
    ) + one_if(in_triangle(a, b, c, sample(x, y, QUARTER, QUARTERS))) + one_if(
        in_triangle(a, b, c, sample(x, y, QUARTERS, QUARTERS)),
    )
}

/// How much of a pixel lies in a shape, in 255ths.
#[verifier::opaque]
pub open spec fn covered(shape: Shape, x: int, y: int) -> u8 {
    match shape {
        Shape::Rounded { rect, radius } => rounded_part(rect, radius, x, y),
        Shape::Outline { rect, corner, width } => part(
            outline_coverage(rect, corner, width, x, y),
        ),
        Shape::Line { a, b, half } => part(line_coverage(a, b, half, x, y)),
        Shape::Triangle { a, b, c } => ((255 * samples(a, b, c, x, y) + 2) / 4) as u8,
    }
}

// --- Reckoning it -----------------------------------------------------------------------

fn middle_of(v: i32) -> (m: Number)
    ensures
        m == middle(v as int),
{
    Number::of_whole(v).plus(Number { bits: HALF })
}

fn part_of(coverage: Number) -> (p: u8)
    ensures
        p == part(coverage),
{
    if !(Number { bits: 0 }).is_less(coverage) {
        return 0;
    }
    let n: i32 = coverage.times(Number { bits: ALL }).plus(Number { bits: HALF }).to_whole();
    if n < 0 {
        0
    } else if n > 255 {
        255
    } else {
        n as u8
    }
}

fn fraction_of(v: Number) -> (f: Number)
    ensures
        f == fraction(v),
{
    v.between(Number { bits: 0 }, Number { bits: ONE })
}

fn distance_of(dx: Number, dy: Number) -> (d: Number)
    ensures
        d == distance(dx, dy),
{
    dx.squared().plus(dy.squared()).to_root()
}

fn nearest_of(v: Number, low: Number, high: Number) -> (n: Number)
    ensures
        n == nearest(v, low, high),
{
    if v.is_less(low) {
        low
    } else if high.is_less(v) {
        high
    } else {
        v
    }
}

fn rounded_of(rect: Rect, radius: i32, x: i32, y: i32) -> (p: u8)
    requires
        rect.fits(),
    ensures
        p == rounded_part(rect, radius, x as int, y as int),
{
    if radius <= 0 {
        return 255;
    }
    let r = Number::of_whole(radius);
    let (px, py): (Number, Number) = (middle_of(x), middle_of(y));
    let cx = nearest_of(
        px,
        Number::of_whole(rect.x).plus(r),
        Number::of_whole(rect.right()).less_by(r),
    );
    let cy = nearest_of(
        py,
        Number::of_whole(rect.y).plus(r),
        Number::of_whole(rect.bottom()).less_by(r),
    );
    if cx.is_same(px) && cy.is_same(py) {
        return 255;
    }
    let d = distance_of(px.less_by(cx), py.less_by(cy));
    part_of(fraction_of(r.less_by(d).plus(Number { bits: HALF })))
}

pub(crate) fn half_of(v: Number) -> (h: Number)
    ensures
        h == halved(v),
{
    v.over(Number { bits: TWO })
}

fn beyond_core_of(at: i32, corner: i32, length: i32, radius: Number) -> (q: Number)
    ensures
        q == beyond_core(at as int, corner as int, length as int, radius),
{
    let half = half_of(Number::of_whole(length));
    let core = Number::of_whole(corner).plus(half);
    middle_of(at).less_by(core).unsigned().less_by(half.less_by(radius))
}

fn outline_of(rect: Rect, radius: Number, width: Number, x: i32, y: i32) -> (c: Number)
    ensures
        c == outline_coverage(rect, radius, width, x as int, y as int),
{
    let zero = Number { bits: 0 };
    let qx = beyond_core_of(x, rect.x, rect.w, radius);
    let qy = beyond_core_of(y, rect.y, rect.h, radius);
    let outside = distance_of(qx.or_more(zero), qy.or_more(zero));
    let edge = outside.plus(qx.or_more(qy).or_less(zero)).less_by(radius);
    let half = half_of(width);
    fraction_of(half.less_by(edge.plus(half).unsigned()).plus(Number { bits: HALF }))
}

fn line_of(a: Point, b: Point, half: Number, x: i32, y: i32) -> (c: Number)
    ensures
        c == line_coverage(a, b, half, x as int, y as int),
{
    let zero = Number { bits: 0 };
    let (dx, dy): (Number, Number) = (b.x.less_by(a.x), b.y.less_by(a.y));
    let length = dx.times(dx).plus(dy.times(dy));
    let (px, py): (Number, Number) = (middle_of(x), middle_of(y));
    let along = px.less_by(a.x).times(dx).plus(py.less_by(a.y).times(dy));
    let t = if zero.is_less(length) {
        fraction_of(along.over(length))
    } else {
        zero
    };
    let cx = a.x.plus(t.times(dx));
    let cy = a.y.plus(t.times(dy));
    let d = distance_of(px.less_by(cx), py.less_by(cy));
    fraction_of(half.less_by(d).plus(Number { bits: HALF }))
}

fn side_of(a: Point, b: Point, q: Point) -> (s: Number)
    ensures
        s == side(a, b, q),
{
    b.x.less_by(a.x).times(q.y.less_by(a.y)).less_by(
        b.y.less_by(a.y).times(q.x.less_by(a.x)),
    )
}

fn is_from_zero(v: Number) -> (b: bool)
    ensures
        b == from_zero(v),
{
    (Number { bits: 0 }).is_less(v) || v.is_same(Number { bits: 0 })
}

pub(crate) fn is_to_zero(v: Number) -> (b: bool)
    ensures
        b == to_zero(v),
{
    v.is_less(Number { bits: 0 }) || v.is_same(Number { bits: 0 })
}

fn is_in_triangle(a: Point, b: Point, c: Point, q: Point) -> (inside: bool)
    ensures
        inside == in_triangle(a, b, c, q),
{
    let (s, t, u): (Number, Number, Number) = (side_of(a, b, q), side_of(b, c, q), side_of(c, a, q));
    (is_from_zero(s) && is_from_zero(t) && is_from_zero(u)) || (is_to_zero(s) && is_to_zero(t)
        && is_to_zero(u))
}

fn sample_of(x: i32, y: i32, right: u32, down: u32) -> (p: Point)
    ensures
        p == sample(x as int, y as int, right, down),
{
    Point {
        x: Number::of_whole(x).plus(Number { bits: right }),
        y: Number::of_whole(y).plus(Number { bits: down }),
    }
}

fn count(b: bool) -> (n: i32)
    ensures
        n == one_if(b),
        0 <= n <= 1,
{
    if b {
        1
    } else {
        0
    }
}

fn samples_in(a: Point, b: Point, c: Point, x: i32, y: i32) -> (n: i32)
    ensures
        n == samples(a, b, c, x as int, y as int),
        0 <= n <= 4,
{
    count(is_in_triangle(a, b, c, sample_of(x, y, QUARTER, QUARTER))) + count(
        is_in_triangle(a, b, c, sample_of(x, y, QUARTERS, QUARTER)),
    ) + count(is_in_triangle(a, b, c, sample_of(x, y, QUARTER, QUARTERS))) + count(
        is_in_triangle(a, b, c, sample_of(x, y, QUARTERS, QUARTERS)),
    )
}

impl Shape {
    /// A rectangle's edges can be counted.
    pub open spec fn wf(self) -> bool {
        match self {
            Shape::Rounded { rect, radius: _ } => rect.fits(),
            _ => true,
        }
    }

    /// How much of a pixel lies in the shape, in 255ths.
    pub fn cover(&self, x: i32, y: i32) -> (a: u8)
        requires
            self.wf(),
        ensures
            a == covered(*self, x as int, y as int),
    {
        reveal(covered);
        match self {
            Shape::Rounded { rect, radius } => rounded_of(*rect, *radius, x, y),
            Shape::Outline { rect, corner, width } => part_of(
                outline_of(*rect, *corner, *width, x, y),
            ),
            Shape::Line { a, b, half } => part_of(line_of(*a, *b, *half, x, y)),
            Shape::Triangle { a, b, c } => ((255 * samples_in(*a, *b, *c, x, y) + 2) / 4) as u8,
        }
    }
}

/// A rectangle without round corners is covered whole.
pub proof fn unrounded_rectangles_are_whole(rect: Rect, x: int, y: int)
    ensures
        covered(Shape::Rounded { rect, radius: 0 }, x, y) == 255,
{
    reveal(covered);
}

} // verus!
