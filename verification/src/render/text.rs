//! How text is drawn, and the sizes it is rasterized at.

use crate::number;
use crate::number::{Number, HALF};
use crate::render::buffer::Color;
use vstd::prelude::*;

verus! {

/// How a run of text is drawn: its size in pixels, color, letter spacing, and
/// weight.
#[derive(Debug, Clone, Copy, PartialEq, Eq, Structural)]
pub struct TextStyle {
    pub size: Number,
    pub color: Color,
    /// Extra pixels added after every glyph. Caps headings use it to breathe;
    /// everything else leaves it at zero.
    pub tracking: u32,
    /// Draw from the bold face. Falls back to the regular one when the family
    /// has no bold, so a missing face costs weight rather than text.
    pub bold: bool,
}

impl TextStyle {
    /// A run at its natural spacing.
    pub open spec fn plain(size: Number, color: Color) -> TextStyle {
        TextStyle { size, color, tracking: 0, bold: false }
    }

    /// A run at its natural spacing.
    pub fn new(size: Number, color: Color) -> (style: Self)
        ensures
            style == TextStyle::plain(size, color),
    {
        TextStyle { size, color, tracking: 0, bold: false }
    }

    /// The same run with letters spread apart.
    pub fn spread(self, tracking: u32) -> (style: Self)
        ensures
            style == (TextStyle { tracking, ..self }),
    {
        TextStyle { tracking, ..self }
    }

    /// The same run in bold.
    pub fn bold(self) -> (style: Self)
        ensures
            style == (TextStyle { bold: true, ..self }),
    {
        TextStyle { bold: true, ..self }
    }
}

/// One rasterization's size: the pixel grid outlines are fitted to, and the
/// optical size those outlines are drawn for.
///
/// The two come apart under HiDPI, where a run keeps the optical size its
/// logical size asks for while rasterizing at more device pixels. A glyph cached
/// for one cannot stand in for the other, so both belong in the key.
#[derive(Debug, Clone, Copy, PartialEq, Eq, Hash, Structural)]
pub struct RasterSize {
    pub px: u32,
    /// Optical size in 1/64 point, an integer so the cache key stays hashable.
    pub optical: u32,
}

/// The bits of 72, the points in an inch.
pub const POINTS: u32 = 0x4290_0000;

/// The bits of 64, the units of an optical size in a point.
pub const POINT_UNITS: u32 = 0x4280_0000;

/// A size in pixels, in sixty-fourths of a point: a point is a seventy-second of an
/// inch, and a font's resolution says how many pixels one holds.
pub open spec fn optical_size(size: Number, dpi: Number) -> u32 {
    let points = number::quotient(number::product(size, Number { bits: POINTS }), dpi);
    number::counted_up(
        number::rounded(number::product(points, Number { bits: POINT_UNITS })),
    )
}

/// The pixel grid a size is fitted to: half a pixel more, cut, and at least one
/// pixel.
pub open spec fn pixel_size(size: Number, scale: Number) -> u32 {
    let px = number::counted_up(
        number::sum(number::product(size, scale), Number { bits: HALF }),
    );
    if px < 1 {
        1
    } else {
        px
    }
}

impl RasterSize {
    /// The size a logical UI size renders at on a surface scaled by `scale`.
    pub open spec fn of(size: Number, scale: Number, dpi: Number) -> RasterSize {
        RasterSize { px: pixel_size(size, scale), optical: optical_size(size, dpi) }
    }

    /// The size a logical UI size renders at on a surface scaled by `scale`. The
    /// desktop's font resolution turns pixels into the points the optical axis is
    /// measured in.
    pub fn new(size: Number, scale: Number, dpi: Number) -> (raster: Self)
        ensures
            raster == RasterSize::of(size, scale, dpi),
    {
        let px: u32 = size.times(scale).plus(Number { bits: HALF }).to_count();
        let points = size.times(Number { bits: POINTS }).over(dpi);
        let optical: u32 = points.times(Number { bits: POINT_UNITS }).to_nearest().to_count();
        RasterSize {
            px: if px < 1 {
                1
            } else {
                px
            },
            optical,
        }
    }
}

/// The optical size follows the logical size alone: the same text on a surface of
/// another scale keeps its outlines.
pub proof fn the_optical_size_ignores_the_scale(
    size: Number,
    one: Number,
    other: Number,
    dpi: Number,
)
    ensures
        RasterSize::of(size, one, dpi).optical == RasterSize::of(size, other, dpi).optical,
{
}

// --- Runs -------------------------------------------------------------------------------

/// What one visible unit of a run takes: its characters, its bytes, and how far it
/// moves the pen, in 65536ths of a pixel. A picture made of several characters is
/// one unit, so nothing is measured or cut inside it.
#[derive(Debug, Clone, Copy, PartialEq, Eq, Structural)]
pub struct Cluster {
    pub chars: usize,
    pub bytes: usize,
    pub advance: u32,
}

/// A run short enough to be measured.
pub open spec fn measurable(run: Seq<Cluster>) -> bool {
    &&& run.len() <= 0x100_0000
    &&& forall|i: int|
        0 <= i < run.len() ==> (#[trigger] run[i]).chars <= 0x40 && run[i].bytes <= 0x40
}

/// The characters in the first `n` units.
pub open spec fn chars_in(run: Seq<Cluster>, n: int) -> nat
    decreases n,
{
    if n <= 0 {
        0
    } else {
        chars_in(run, n - 1) + run[n - 1].chars as nat
    }
}

/// The bytes in the first `n` units.
pub open spec fn bytes_in(run: Seq<Cluster>, n: int) -> nat
    decreases n,
{
    if n <= 0 {
        0
    } else {
        bytes_in(run, n - 1) + run[n - 1].bytes as nat
    }
}

/// How far the first `n` units move the pen, letter spacing after each.
pub open spec fn pen_after(run: Seq<Cluster>, tracking: u32, n: int) -> nat
    decreases n,
{
    if n <= 0 {
        0
    } else {
        pen_after(run, tracking, n - 1) + run[n - 1].advance as nat + tracking as nat
    }
}

/// How many whole units, from the `from`th on, begin and end within the first
/// `offset` characters.
pub open spec fn whole_units(run: Seq<Cluster>, offset: int, from: int) -> int
    decreases run.len() - from,
{
    if from >= run.len() || chars_in(run, from + 1) > offset {
        from
    } else {
        whole_units(run, offset, from + 1)
    }
}

/// The first unit, from the `from`th on, whose middle is right of `x`.
pub open spec fn unit_at(run: Seq<Cluster>, x: int, from: int) -> int
    decreases run.len() - from,
{
    if from >= run.len() || 2 * x < 2 * pen_after(run, 0, from) + run[from].advance {
        from
    } else {
        unit_at(run, x, from + 1)
    }
}

/// How many units, from the `from`th on, fit into a width with the spacing after
/// them.
pub open spec fn fitting(run: Seq<Cluster>, tracking: u32, width: int, from: int) -> int
    decreases run.len() - from,
{
    if from >= run.len() || pen_after(run, tracking, from + 1) > width {
        from
    } else {
        fitting(run, tracking, width, from + 1)
    }
}

/// How many units, from the `from`th on, are drawn into a width: those that do not
/// cross its end, whatever spacing follows them.
pub open spec fn drawn(run: Seq<Cluster>, tracking: u32, width: int, from: int) -> int
    decreases run.len() - from,
{
    if from >= run.len() || pen_after(run, tracking, from) + run[from].advance > width {
        from
    } else {
        drawn(run, tracking, width, from + 1)
    }
}

proof fn runs_are_bounded(run: Seq<Cluster>, tracking: u32, n: int)
    requires
        measurable(run),
        0 <= n <= run.len(),
    ensures
        chars_in(run, n) <= 0x40 * n,
        bytes_in(run, n) <= 0x40 * n,
        pen_after(run, tracking, n) <= 0x2_0000_0000 * n,
    decreases n,
{
    if n > 0 {
        runs_are_bounded(run, tracking, n - 1);
        assert(run[n - 1].chars <= 0x40);
    }
}

/// Total advance width of a run, letter spacing included.
pub fn text_width(run: &Vec<Cluster>, tracking: u32) -> (w: u64)
    requires
        measurable(run@),
    ensures
        w == pen_after(run@, tracking, run@.len() as int),
{
    let mut w: u64 = 0;
    let mut i: usize = 0;
    while i < run.len()
        invariant
            i <= run@.len(),
            measurable(run@),
            w == pen_after(run@, tracking, i as int),
        decreases run@.len() - i,
    {
        proof {
            runs_are_bounded(run@, tracking, i as int);
        }
        w = w + run[i].advance as u64 + tracking as u64;
        i = i + 1;
    }
    w
}

/// Where the caret stands at a char offset, fields having no letter spacing. An
/// offset inside a unit resolves to its left edge, which is the nearest place a
/// caret can actually sit.
pub fn x_at_char_offset(run: &Vec<Cluster>, offset: usize) -> (x: u64)
    requires
        measurable(run@),
    ensures
        x == pen_after(run@, 0, whole_units(run@, offset as int, 0)),
{
    let mut x: u64 = 0;
    let mut chars: usize = 0;
    let mut i: usize = 0;
    while i < run.len()
        invariant
            i <= run@.len(),
            measurable(run@),
            x == pen_after(run@, 0, i as int),
            chars == chars_in(run@, i as int),
            whole_units(run@, offset as int, 0) == whole_units(run@, offset as int, i as int),
        decreases run@.len() - i,
    {
        proof {
            runs_are_bounded(run@, 0, i as int);
        }
        assert(chars_in(run@, i + 1) == chars + run@[i as int].chars);
        if chars + run[i].chars > offset {
            return x;
        }
        x = x + run[i].advance as u64;
        chars = chars + run[i].chars;
        i = i + 1;
    }
    x
}

/// The char offset whose caret sits nearest `x`, for hit-testing: the inverse of
/// [`x_at_char_offset`], so it lands between units too.
pub fn char_offset_at_x(run: &Vec<Cluster>, x: i64) -> (offset: usize)
    requires
        measurable(run@),
        -0x1000_0000_0000_0000 <= x <= 0x1000_0000_0000_0000,
    ensures
        offset == chars_in(run@, unit_at(run@, x as int, 0)),
{
    let mut pen: i64 = 0;
    let mut chars: usize = 0;
    let mut i: usize = 0;
    while i < run.len()
        invariant
            i <= run@.len(),
            measurable(run@),
            -0x1000_0000_0000_0000 <= x <= 0x1000_0000_0000_0000,
            pen == pen_after(run@, 0, i as int),
            chars == chars_in(run@, i as int),
            unit_at(run@, x as int, 0) == unit_at(run@, x as int, i as int),
        decreases run@.len() - i,
    {
        proof {
            runs_are_bounded(run@, 0, i as int);
        }
        assert(run@[i as int].chars <= 0x40);
        if 2 * x < 2 * pen + run[i].advance as i64 {
            return chars;
        }
        pen = pen + run[i].advance as i64;
        chars = chars + run[i].chars;
        i = i + 1;
    }
    chars
}

/// The bytes of the longest run of whole units from the front that fits a width.
pub fn truncate_to_width(run: &Vec<Cluster>, tracking: u32, width: i64) -> (bytes: usize)
    requires
        measurable(run@),
    ensures
        bytes == bytes_in(run@, fitting(run@, tracking, width as int, 0)),
{
    let mut pen: i64 = 0;
    let mut bytes: usize = 0;
    let mut i: usize = 0;
    while i < run.len()
        invariant
            i <= run@.len(),
            measurable(run@),
            pen == pen_after(run@, tracking, i as int),
            bytes == bytes_in(run@, i as int),
            fitting(run@, tracking, width as int, 0) == fitting(
                run@,
                tracking,
                width as int,
                i as int,
            ),
        decreases run@.len() - i,
    {
        proof {
            runs_are_bounded(run@, tracking, i as int);
        }
        assert(run@[i as int].bytes <= 0x40);
        let next: i64 = pen + run[i].advance as i64 + tracking as i64;
        if next > width {
            return bytes;
        }
        pen = next;
        bytes = bytes + run[i].bytes;
        i = i + 1;
    }
    bytes
}

/// How many units of a run are drawn into a width, and how far the pen gets.
pub fn drawn_run(run: &Vec<Cluster>, tracking: u32, width: i64) -> (out: (usize, u64))
    requires
        measurable(run@),
    ensures
        out.0 == drawn(run@, tracking, width as int, 0),
        out.1 == pen_after(run@, tracking, out.0 as int),
{
    let mut pen: i64 = 0;
    let mut i: usize = 0;
    while i < run.len()
        invariant
            i <= run@.len(),
            measurable(run@),
            pen == pen_after(run@, tracking, i as int),
            drawn(run@, tracking, width as int, 0) == drawn(
                run@,
                tracking,
                width as int,
                i as int,
            ),
        decreases run@.len() - i,
    {
        proof {
            runs_are_bounded(run@, tracking, i as int);
        }
        if pen + run[i].advance as i64 > width {
            return (i, pen as u64);
        }
        pen = pen + run[i].advance as i64 + tracking as i64;
        i = i + 1;
    }
    (i, pen as u64)
}

// --- What holds of every run ------------------------------------------------------------

/// Units that can be seen and pointed at: each has characters and a width.
pub open spec fn visible(run: Seq<Cluster>) -> bool {
    forall|i: int| 0 <= i < run.len() ==> (#[trigger] run[i]).chars > 0 && run[i].advance > 0
}

proof fn units_grow(run: Seq<Cluster>, a: int, b: int)
    requires
        0 <= a <= b <= run.len(),
    ensures
        chars_in(run, a) <= chars_in(run, b),
        pen_after(run, 0, a) <= pen_after(run, 0, b),
        visible(run) && a < b ==> chars_in(run, a) < chars_in(run, b),
    decreases b,
{
    if a < b {
        units_grow(run, a, b - 1);
        assert(visible(run) ==> run[b - 1].chars > 0);
    }
}

proof fn whole_units_at(run: Seq<Cluster>, k: int, from: int)
    requires
        visible(run),
        0 <= from <= k <= run.len(),
    ensures
        whole_units(run, chars_in(run, k) as int, from) == k,
    decreases k - from,
{
    if from < k {
        units_grow(run, from + 1, k);
        whole_units_at(run, k, from + 1);
    } else if k < run.len() {
        units_grow(run, k, k + 1);
    }
}

proof fn unit_at_edge(run: Seq<Cluster>, k: int, from: int)
    requires
        visible(run),
        0 <= from <= k <= run.len(),
    ensures
        unit_at(run, pen_after(run, 0, k) as int, from) == k,
    decreases k - from,
{
    if from < k {
        units_grow(run, from + 1, k);
        assert(run[from].advance > 0);
        unit_at_edge(run, k, from + 1);
    } else if k < run.len() {
        assert(run[k].advance > 0);
    }
}

/// A caret put at the edge of a unit is found there again.
pub proof fn carets_are_found_where_they_stand(run: Seq<Cluster>, k: int)
    requires
        visible(run),
        0 <= k <= run.len(),
    ensures
        ({
            let offset = chars_in(run, k) as int;
            let x = pen_after(run, 0, whole_units(run, offset, 0)) as int;
            chars_in(run, unit_at(run, x, 0)) == offset
        }),
{
    whole_units_at(run, k, 0);
    unit_at_edge(run, k, 0);
}

/// The caret behind a whole run stands at its width.
pub proof fn the_last_caret_stands_at_the_width(run: Seq<Cluster>, offset: int)
    requires
        offset >= chars_in(run, run.len() as int),
    ensures
        pen_after(run, 0, whole_units(run, offset, 0)) == pen_after(run, 0, run.len() as int),
{
    all_whole(run, offset, 0);
}

proof fn all_whole(run: Seq<Cluster>, offset: int, from: int)
    requires
        0 <= from <= run.len(),
        offset >= chars_in(run, run.len() as int),
    ensures
        whole_units(run, offset, from) == run.len(),
    decreases run.len() - from,
{
    if from < run.len() {
        units_grow(run, from + 1, run.len() as int);
        all_whole(run, offset, from + 1);
    }
}

proof fn whole_units_bounds(run: Seq<Cluster>, a: int, b: int, from: int)
    requires
        0 <= from <= run.len(),
        a <= b,
    ensures
        from <= whole_units(run, a, from) <= whole_units(run, b, from) <= run.len(),
    decreases run.len() - from,
{
    if from < run.len() {
        whole_units_bounds(run, a, b, from + 1);
        whole_units_bounds(run, b, b, from + 1);
    }
}

/// The caret never moves left as its offset grows.
pub proof fn carets_never_turn_back(run: Seq<Cluster>, a: int, b: int)
    requires
        a <= b,
    ensures
        pen_after(run, 0, whole_units(run, a, 0)) <= pen_after(run, 0, whole_units(run, b, 0)),
{
    whole_units_bounds(run, a, b, 0);
    units_grow(run, whole_units(run, a, 0), whole_units(run, b, 0));
}

/// What is left of a cut run fits, and one unit more would not.
pub proof fn a_cut_run_is_the_longest_that_fits(
    run: Seq<Cluster>,
    tracking: u32,
    width: int,
    from: int,
)
    requires
        0 <= from <= run.len(),
        pen_after(run, tracking, from) <= width,
    ensures
        ({
            let n = fitting(run, tracking, width, from);
            &&& from <= n <= run.len()
            &&& pen_after(run, tracking, n) <= width
            &&& n < run.len() ==> pen_after(run, tracking, n + 1) > width
        }),
    decreases run.len() - from,
{
    if from < run.len() && pen_after(run, tracking, from + 1) <= width {
        a_cut_run_is_the_longest_that_fits(run, tracking, width, from + 1);
    }
}

} // verus!
