//! The canonical pixel buffer and color type.
//!
//! Pixels are 32-bit ARGB8888 packed as 0xAARRGGBB. Frames are opaque (every
//! final pixel has alpha 0xff), so premultiplied and straight alpha coincide in
//! the stored buffer; alpha only ever appears mid-composite, in [`Color`].

use crate::render::primitives::{Painter, Rect};
use crate::single::Scale;
use vstd::prelude::*;

verus! {

/// A straight-alpha RGBA color. Alpha weights compositing; stored pixels end up
/// opaque once painted over an opaque background.
#[derive(Clone, Copy, PartialEq, Eq, Debug, Structural)]
pub struct Color {
    pub r: u8,
    pub g: u8,
    pub b: u8,
    pub a: u8,
}

/// An opaque word of three channels.
pub open spec fn opaque(r: int, g: int, b: int) -> u32 {
    (0xff00_0000 + r * 0x1_0000 + g * 0x100 + b) as u32
}

/// The channels of a word.
pub open spec fn red(word: u32) -> int {
    word as int / 0x1_0000 % 0x100
}

pub open spec fn green(word: u32) -> int {
    word as int / 0x100 % 0x100
}

pub open spec fn blue(word: u32) -> int {
    word as int % 0x100
}

pub open spec fn alpha(word: u32) -> int {
    word as int / 0x100_0000
}

impl Color {
    /// The color with its alpha weighted by a coverage.
    pub open spec fn covering(self, coverage: u8) -> Color {
        Color { a: ((self.a * coverage + 127) / 255) as u8, ..self }
    }

    /// Opaque color.
    pub fn rgb(r: u8, g: u8, b: u8) -> (c: Self)
        ensures
            c == (Color { r, g, b, a: 255 }),
    {
        Color { r, g, b, a: 255 }
    }

    /// Color with explicit alpha.
    pub fn rgba(r: u8, g: u8, b: u8, a: u8) -> (c: Self)
        ensures
            c == (Color { r, g, b, a }),
    {
        Color { r, g, b, a }
    }

    /// This color as an opaque 0xAARRGGBB word (alpha forced to 0xff).
    pub fn to_opaque_u32(self) -> (word: u32)
        ensures
            word == opaque(self.r as int, self.g as int, self.b as int),
    {
        0xff00_0000 + (self.r as u32) * 0x1_0000 + (self.g as u32) * 0x100 + self.b as u32
    }

    /// This color scaled by an extra coverage factor (0..=255), e.g. a glyph's
    /// per-pixel alpha. Combines with the color's own alpha.
    pub fn scale_alpha(self, coverage: u8) -> (c: Self)
        ensures
            c == self.covering(coverage),
    {
        assert(self.a * coverage <= 255 * 255) by (nonlinear_arith)
            requires
                self.a <= 255,
                coverage <= 255,
        ;
        let a: u32 = (self.a as u32 * coverage as u32 + 127) / 255;
        Color { r: self.r, g: self.g, b: self.b, a: a as u8 }
    }
}

/// One channel of a source weighted over one of a destination.
pub open spec fn mixed(s: int, d: int, weight: int) -> int {
    (s * weight + d * (255 - weight) + 127) / 255
}

/// A source composited over a destination word.
pub open spec fn composite(dst: u32, src: Color) -> u32 {
    if src.a == 0 {
        dst
    } else if src.a == 255 {
        opaque(src.r as int, src.g as int, src.b as int)
    } else {
        opaque(
            mixed(src.r as int, red(dst), src.a as int),
            mixed(src.g as int, green(dst), src.a as int),
            mixed(src.b as int, blue(dst), src.a as int),
        )
    }
}

/// A mix of two channels lies between them.
proof fn mixed_between(s: int, d: int, weight: int)
    requires
        0 <= s <= 255,
        0 <= d <= 255,
        0 <= weight <= 255,
    ensures
        s <= d ==> s <= mixed(s, d, weight) <= d,
        d <= s ==> d <= mixed(s, d, weight) <= s,
        0 <= s * weight <= 255 * 255,
        0 <= d * (255 - weight) <= 255 * 255,
{
    assert(s * weight + d * (255 - weight) == 255 * d + (s - d) * weight) by (nonlinear_arith);
    assert(s * weight + d * (255 - weight) == 255 * s + (d - s) * (255 - weight)) by (
    nonlinear_arith);
    assert(0 <= s * weight <= 255 * 255) by (nonlinear_arith)
        requires
            0 <= s <= 255,
            0 <= weight <= 255,
    ;
    assert(0 <= d * (255 - weight) <= 255 * 255) by (nonlinear_arith)
        requires
            0 <= d <= 255,
            0 <= weight <= 255,
    ;
    if s <= d {
        assert((s - d) * weight <= 0) by (nonlinear_arith)
            requires
                s <= d,
                0 <= weight,
        ;
        assert((d - s) * (255 - weight) >= 0) by (nonlinear_arith)
            requires
                s <= d,
                weight <= 255,
        ;
    } else {
        assert((s - d) * weight >= 0) by (nonlinear_arith)
            requires
                s >= d,
                0 <= weight,
        ;
        assert((d - s) * (255 - weight) <= 0) by (nonlinear_arith)
            requires
                s >= d,
                weight <= 255,
        ;
    }
}

/// An opaque word gives back the channels it was made of.
pub proof fn opaque_channels(r: int, g: int, b: int)
    requires
        0 <= r <= 255,
        0 <= g <= 255,
        0 <= b <= 255,
    ensures
        red(opaque(r, g, b)) == r,
        green(opaque(r, g, b)) == g,
        blue(opaque(r, g, b)) == b,
        alpha(opaque(r, g, b)) == 255,
{
}

/// Whatever is composited over an opaque pixel leaves it opaque, each channel
/// between what was there and what came over it.
pub proof fn compositing_stays_opaque(dst: u32, src: Color)
    requires
        alpha(dst) == 255,
    ensures
        alpha(composite(dst, src)) == 255,
        red(dst) <= src.r ==> red(dst) <= red(composite(dst, src)) <= src.r,
        red(dst) >= src.r ==> red(dst) >= red(composite(dst, src)) >= src.r,
        green(dst) <= src.g ==> green(dst) <= green(composite(dst, src)) <= src.g,
        green(dst) >= src.g ==> green(dst) >= green(composite(dst, src)) >= src.g,
        blue(dst) <= src.b ==> blue(dst) <= blue(composite(dst, src)) <= src.b,
        blue(dst) >= src.b ==> blue(dst) >= blue(composite(dst, src)) >= src.b,
{
    mixed_between(src.r as int, red(dst), src.a as int);
    mixed_between(src.g as int, green(dst), src.a as int);
    mixed_between(src.b as int, blue(dst), src.a as int);
    if src.a == 255 {
        opaque_channels(src.r as int, src.g as int, src.b as int);
    } else if src.a != 0 {
        opaque_channels(
            mixed(src.r as int, red(dst), src.a as int),
            mixed(src.g as int, green(dst), src.a as int),
            mixed(src.b as int, blue(dst), src.a as int),
        );
    }
}

fn mix(s: u32, d: u32, weight: u32) -> (m: u32)
    requires
        s <= 255,
        d <= 255,
        weight <= 255,
    ensures
        m == mixed(s as int, d as int, weight as int),
        m <= 255,
{
    proof {
        mixed_between(s as int, d as int, weight as int);
    }
    (s * weight + d * (255 - weight) + 127) / 255
}

/// Composite `src` over an opaque destination word, returning an opaque word.
/// The window is opaque, so the result alpha is always 0xff.
pub fn over(dst: u32, src: Color) -> (word: u32)
    ensures
        word == composite(dst, src),
{
    if src.a == 0 {
        return dst;
    }
    if src.a == 255 {
        return src.to_opaque_u32();
    }
    let sa: u32 = src.a as u32;
    let r: u32 = mix(src.r as u32, dst / 0x1_0000 % 0x100, sa);
    let g: u32 = mix(src.g as u32, dst / 0x100 % 0x100, sa);
    let b: u32 = mix(src.b as u32, dst % 0x100, sa);
    0xff00_0000 + r * 0x1_0000 + g * 0x100 + b
}

/// An owned ARGB8888 frame buffer, row-major with stride equal to width.
pub struct PixelBuffer {
    pub width: u32,
    pub height: u32,
    pub pixels: Vec<u32>,
}

impl PixelBuffer {
    /// As many pixels as its sides say.
    pub open spec fn wf(&self) -> bool {
        self.pixels@.len() == self.width * self.height
    }

    /// A buffer of `width` by `height` pixels, cleared to opaque black.
    pub fn new(width: u32, height: u32) -> (buf: Self)
        requires
            width * height <= usize::MAX,
        ensures
            buf.wf(),
            buf.width == width,
            buf.height == height,
            forall|i: int| 0 <= i < buf.pixels@.len() ==> buf.pixels@[i] == 0xff00_0000,
    {
        let len: usize = area(width, height);
        let pixels: Vec<u32> = vec![0xff00_0000; len];
        PixelBuffer { width, height, pixels }
    }

    pub fn width(&self) -> (w: u32)
        ensures
            w == self.width,
    {
        self.width
    }

    pub fn height(&self) -> (h: u32)
        ensures
            h == self.height,
    {
        self.height
    }

    /// The raw pixel words, for uploading to wl_shm or a GTK texture.
    pub fn pixels(&self) -> (px: &[u32])
        ensures
            px@ == self.pixels@,
    {
        self.pixels.as_slice()
    }

    /// The same pixels as bytes, for texture uploads that take a byte slice: the
    /// channels of each word from the lowest up, which is B, G, R, A.
    pub fn bytes(&self) -> (out: Vec<u8>)
        requires
            4 * self.pixels@.len() <= usize::MAX,
        ensures
            out@ == word_bytes(self.pixels@),
    {
        let mut out: Vec<u8> = Vec::new();
        let mut i: usize = 0;
        while i < self.pixels.len()
            invariant
                i <= self.pixels@.len(),
                out@ == word_bytes(self.pixels@.take(i as int)),
            decreases self.pixels@.len() - i,
        {
            let word: u32 = self.pixels[i];
            let ghost before = out@;
            out.push((word % 0x100) as u8);
            out.push((word / 0x100 % 0x100) as u8);
            out.push((word / 0x1_0000 % 0x100) as u8);
            out.push((word / 0x100_0000) as u8);
            proof {
                let taken = self.pixels@.take(i + 1);
                assert(taken.drop_last() =~= self.pixels@.take(i as int));
                assert(out@ =~= before + word_le(word));
            }
            i = i + 1;
        }
        assert(self.pixels@.take(i as int) =~= self.pixels@);
        out
    }

    /// The pixels and dimensions together, so a painter can borrow the buffer
    /// mutably without the size fields being borrowed with it.
    pub fn parts(&mut self) -> (parts: (&mut [u32], u32, u32))
        ensures
            parts.0@ == old(self).pixels@,
            parts.1 == old(self).width,
            parts.2 == old(self).height,
            final(self).width == old(self).width,
            final(self).height == old(self).height,
            final(self).pixels@ == final(parts.0)@,
    {
        (self.pixels.as_mut_slice(), self.width, self.height)
    }

    /// Resize in place, reallocating only when the pixel count changes: the
    /// pixels both sizes have stay, new ones are opaque black. The caller
    /// repaints the whole frame after a resize.
    pub fn resize(&mut self, width: u32, height: u32)
        requires
            width * height <= usize::MAX,
        ensures
            final(self).wf(),
            final(self).width == width,
            final(self).height == height,
            forall|i: int|
                0 <= i < final(self).pixels@.len() ==> final(self).pixels@[i] == if i < old(
                    self,
                ).pixels@.len() {
                    old(self).pixels@[i]
                } else {
                    0xff00_0000
                },
    {
        let len: usize = area(width, height);
        if len != self.pixels.len() {
            let ghost before = self.pixels@;
            self.pixels.resize(len, 0xff00_0000);
            assert forall|i: int| 0 <= i < len implies self.pixels@[i] == if i < before.len() {
                before[i]
            } else {
                0xff00_0000
            } by {
                if i < before.len() && len > before.len() {
                    assert(self.pixels@.subrange(0, before.len() as int)[i] == before[i]);
                }
            }
        }
        self.width = width;
        self.height = height;
    }

    /// Fill the whole buffer with one opaque color.
    pub fn clear(&mut self, color: Color)
        ensures
            final(self).width == old(self).width,
            final(self).height == old(self).height,
            final(self).pixels@.len() == old(self).pixels@.len(),
            forall|i: int|
                0 <= i < final(self).pixels@.len() ==> final(self).pixels@[i] == opaque(
                    color.r as int,
                    color.g as int,
                    color.b as int,
                ),
    {
        let word: u32 = color.to_opaque_u32();
        let n: usize = self.pixels.len();
        let mut i: usize = 0;
        while i < n
            invariant
                i <= n == self.pixels@.len(),
                n == old(self).pixels@.len(),
                self.width == old(self).width,
                self.height == old(self).height,
                forall|k: int| 0 <= k < i ==> self.pixels@[k] == word,
            decreases n - i,
        {
            self.pixels[i] = word;
            i = i + 1;
        }
    }

    /// A painter over the whole buffer, clip set to its bounds.
    pub fn painter(&mut self) -> (p: Painter<'_>)
        requires
            old(self).wf(),
            old(self).width <= 0x3fff_ffff,
            old(self).height <= 0x3fff_ffff,
        ensures
            p.wf(),
            p.pixels@ == old(self).pixels@,
            p.width == old(self).width,
            p.height == old(self).height,
            p.clip == (Rect { x: 0, y: 0, w: p.width, h: p.height }),
            p.scale == (Scale { bits: 0x3f80_0000 }),
            final(self).width == old(self).width,
            final(self).height == old(self).height,
            final(self).pixels@ == final(p.pixels)@,
    {
        Painter::new(self.pixels.as_mut_slice(), self.width, self.height)
    }
}

/// The bytes of one word, lowest first.
pub open spec fn word_le(word: u32) -> Seq<u8> {
    seq![
        blue(word) as u8,
        green(word) as u8,
        red(word) as u8,
        alpha(word) as u8,
    ]
}

/// The bytes of words, one after the other.
pub open spec fn word_bytes(words: Seq<u32>) -> Seq<u8>
    decreases words.len(),
{
    if words.len() == 0 {
        Seq::empty()
    } else {
        word_bytes(words.drop_last()) + word_le(words.last())
    }
}

/// A pixel's four bytes stand in its place, and the pixel is what they come to, the
/// first the least.
pub proof fn bytes_stand_for_their_pixels(words: Seq<u32>, i: int)
    requires
        0 <= i < words.len(),
    ensures
        word_bytes(words).len() == 4 * words.len(),
        words[i] == word_bytes(words)[4 * i] + 0x100 * word_bytes(words)[4 * i + 1] + 0x1_0000
            * word_bytes(words)[4 * i + 2] + 0x100_0000 * word_bytes(words)[4 * i + 3],
    decreases words.len(),
{
    let rest = words.drop_last();
    if i < words.len() - 1 {
        bytes_stand_for_their_pixels(rest, i);
        assert(rest[i] == words[i]);
    } else if rest.len() > 0 {
        bytes_stand_for_their_pixels(rest, 0);
    } else {
        assert(word_bytes(rest).len() == 0);
    }
}

fn area(width: u32, height: u32) -> (len: usize)
    requires
        width * height <= usize::MAX,
    ensures
        len == width * height,
{
    assert(width * height <= 0xffff_ffff * 0xffff_ffff) by (nonlinear_arith)
        requires
            width <= 0xffff_ffff,
            height <= 0xffff_ffff,
    ;
    (width as u64 * height as u64) as usize
}

} // verus!
