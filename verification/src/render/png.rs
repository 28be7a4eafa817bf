//! PNG reading and writing.
//!
//! Frames are ARGB8888 words with an opaque alpha, so they go out as 8-bit RGB.
//! The zlib stream uses deflate's fixed Huffman codes over an LZ77 pass, which
//! is a large win on a flat UI (long runs of one colour) for a small amount of
//! code, and needs no code-length table in the output. Every colour type is
//! read back at each depth the format allows it.

use crate::render::checksum;
use crate::render::checksum::{push_be32, read_be32, Crc};
use crate::render::deflate;
use crate::render::deflate::zlib;
use crate::render::inflate;
use crate::text;
use crate::text::decimal_text;
use vstd::prelude::*;
use vstd::slice::slice_subrange;
use vstd::string::*;

verus! {

pub const SIGNATURE: [u8; 8] = [0x89, 0x50, 0x4e, 0x47, 0x0d, 0x0a, 0x1a, 0x0a];

/// Widest or tallest image the decoder will build. Icon themes top out in the
/// hundreds of pixels; past this the header is corrupt or hostile, and the
/// arithmetic that sizes the buffers stops being trustworthy.
pub const MAX_DIMENSION: u32 = 16_384;

pub const IHDR: [u8; 4] = [0x49, 0x48, 0x44, 0x52];

pub const PLTE: [u8; 4] = [0x50, 0x4c, 0x54, 0x45];

pub const TRNS: [u8; 4] = [0x74, 0x52, 0x4e, 0x53];

pub const IDAT: [u8; 4] = [0x49, 0x44, 0x41, 0x54];

pub const IEND: [u8; 4] = [0x49, 0x45, 0x4e, 0x44];

// --- Encoding ------------------------------------------------------------------

/// A length-tagged, CRC-checked PNG chunk.
pub open spec fn chunk_bytes(kind: Seq<u8>, data: Seq<u8>) -> Seq<u8> {
    checksum::be32(data.len() as u32) + kind + data + checksum::be32(checksum::crc32(kind + data))
}

/// A colour channel of a pixel word: 0 is red, 1 green, 2 blue.
pub open spec fn channel(px: u32, c: int) -> u8 {
    if c == 0 {
        (px >> 16) as u8
    } else if c == 1 {
        (px >> 8) as u8
    } else {
        px as u8
    }
}

/// The pixel at `i`, black where the image ends short.
pub open spec fn pixel_or_black(pixels: Seq<u32>, i: int) -> u32 {
    if 0 <= i < pixels.len() {
        pixels[i]
    } else {
        0
    }
}

/// The raw PNG image data: every row prefixed with filter type 0 (none), three
/// bytes a pixel.
pub open spec fn scanline_bytes(pixels: Seq<u32>, width: nat, height: nat) -> Seq<u8> {
    let row = (1 + 3 * width) as int;
    Seq::new(
        (height * row) as nat,
        |i: int|
            {
                let c = i % row;
                if c == 0 {
                    0u8
                } else {
                    channel(
                        pixel_or_black(pixels, (i / row) * width + (c - 1) / 3),
                        (c - 1) % 3,
                    )
                }
            },
    )
}

/// The header of an 8-bit RGB image: 8 bits per sample, color type 2
/// (truecolor), no compression/filter/interlace variation beyond the one PNG
/// defines.
pub open spec fn rgb_header(width: u32, height: u32) -> Seq<u8> {
    checksum::be32(width) + checksum::be32(height) + seq![8u8, 2, 0, 0, 0]
}

/// The whole file of an 8-bit RGB image.
pub open spec fn png_bytes(pixels: Seq<u32>, width: u32, height: u32) -> Seq<u8> {
    SIGNATURE@ + chunk_bytes(IHDR@, rgb_header(width, height)) + chunk_bytes(
        IDAT@,
        deflate::zlib_bytes(scanline_bytes(pixels, width as nat, height as nat)),
    ) + chunk_bytes(IEND@, Seq::empty())
}

/// Append a length-tagged, CRC-checked PNG chunk.
pub fn chunk(out: &mut Vec<u8>, kind: &[u8; 4], data: &[u8])
    ensures
        final(out)@ == old(out)@ + chunk_bytes(kind@, data@),
{
    let ghost before = out@;
    push_be32(out, data.len() as u32);
    push_all(out, kind);
    push_all(out, data);
    let mut crc = Crc::new();
    crc.update(kind);
    crc.update(data);
    proof {
        checksum::crc_feed_splits(0xffff_ffff, kind@, data@);
    }
    push_be32(out, crc.finish());
    assert(out@ =~= before + chunk_bytes(kind@, data@));
}

/// Append every byte of `bytes`.
fn push_all(out: &mut Vec<u8>, bytes: &[u8])
    ensures
        final(out)@ == old(out)@ + bytes@,
{
    let ghost before = out@;
    let mut i: usize = 0;
    assert(before + bytes@.take(0) =~= before);
    while i < bytes.len()
        invariant
            i <= bytes@.len(),
            out@ == before + bytes@.take(i as int),
        decreases bytes@.len() - i,
    {
        out.push(bytes[i]);
        i = i + 1;
        assert(out@ =~= before + bytes@.take(i as int));
    }
    assert(bytes@.take(i as int) =~= bytes@);
}

proof fn row_index(y: int, c: int, row: int)
    requires
        0 <= c < row,
        0 <= y,
    ensures
        (y * row + c) / row == y,
        (y * row + c) % row == c,
{
    vstd::arithmetic::div_mod::lemma_fundamental_div_mod_converse(y * row + c, row, y, c);
}

/// The raw PNG image data: every row prefixed with filter type 0 (none).
pub fn scanlines(pixels: &[u32], width: u32, height: u32) -> (raw: Vec<u8>)
    requires
        height * (1 + 3 * width) <= usize::MAX,
    ensures
        raw@ == scanline_bytes(pixels@, width as nat, height as nat),
{
    let ghost goal = scanline_bytes(pixels@, width as nat, height as nat);
    let ghost row = 1 + 3 * width;
    let mut raw: Vec<u8> = Vec::new();
    let mut y: u32 = 0;
    assert(0 * row == 0) by (nonlinear_arith);
    // Index of the row's first pixel.
    let mut base: usize = 0;
    while y < height
        invariant
            y <= height,
            row == 1 + 3 * width,
            goal == scanline_bytes(pixels@, width as nat, height as nat),
            height * row <= usize::MAX,
            raw@.len() == y * row,
            base == y * width,
            raw@ == goal.take(y * row),
        decreases height - y,
    {
        proof {
            assert((y + 1) * row == y * row + row) by (nonlinear_arith);
            assert((y + 1) * width == y * width + width) by (nonlinear_arith);
            assert((y + 1) * row <= height * row) by (nonlinear_arith)
                requires
                    y + 1 <= height,
                    row >= 0,
            ;
            assert((y + 1) * width <= (y + 1) * row) by (nonlinear_arith)
                requires
                    width <= row,
            ;
            row_index(y as int, 0, row as int);
        }
        raw.push(0);
        assert(raw@ =~= goal.take(y * row + 1));
        let mut x: u32 = 0;
        while x < width
            invariant
                x <= width,
                y < height,
                row == 1 + 3 * width,
                goal == scanline_bytes(pixels@, width as nat, height as nat),
                base == y * width,
                base + width <= usize::MAX,
                (y + 1) * row == y * row + row,
                (y + 1) * row <= height * row,
                raw@ == goal.take(y * row + 1 + 3 * x),
                raw@.len() == y * row + 1 + 3 * x,
            decreases width - x,
        {
            let at: usize = base + x as usize;
            let px: u32 = if at < pixels.len() {
                pixels[at]
            } else {
                0
            };
            proof {
                row_index(y as int, 1 + 3 * x, row as int);
                row_index(y as int, 2 + 3 * x, row as int);
                row_index(y as int, 3 + 3 * x, row as int);
            }
            raw.push((px >> 16) as u8);
            raw.push((px >> 8) as u8);
            raw.push(px as u8);
            x = x + 1;
            assert(raw@ =~= goal.take(y * row + 1 + 3 * x));
        }
        base = base + width as usize;
        y = y + 1;
    }
    assert(raw@ =~= goal);
    raw
}

/// Encode `pixels` (row-major, `width` words per row) as an 8-bit RGB PNG.
pub fn encode_rgb(pixels: &[u32], width: u32, height: u32) -> (out: Vec<u8>)
    requires
        height * (1 + 3 * width) <= usize::MAX,
    ensures
        out@ == png_bytes(pixels@, width, height),
{
    let raw = scanlines(pixels, width, height);
    let mut out: Vec<u8> = Vec::new();
    push_all(&mut out, &SIGNATURE);
    let mut ihdr: Vec<u8> = Vec::new();
    push_be32(&mut ihdr, width);
    push_be32(&mut ihdr, height);
    // 8 bits per sample, color type 2 (truecolor), no compression/filter/
    // interlace variation beyond the one PNG defines.
    push_all(&mut ihdr, &[8u8, 2, 0, 0, 0]);
    assert(ihdr@ =~= rgb_header(width, height));
    chunk(&mut out, &IHDR, ihdr.as_slice());
    chunk(&mut out, &IDAT, zlib(raw.as_slice()).as_slice());
    chunk(&mut out, &IEND, &[]);
    assert(out@ =~= png_bytes(pixels@, width, height));
    out
}

// --- Decoding ------------------------------------------------------------------

/// A decoded image: ARGB8888 words, row-major.
#[derive(Debug)]
pub struct Decoded {
    pub width: u32,
    pub height: u32,
    pub pixels: Vec<u32>,
}

/// Why a PNG could not be read.
#[derive(Debug, Clone, Copy, PartialEq, Eq, Structural)]
pub enum DecodeError {
    NotPng,
    Truncated,
    BadChecksum,
    /// A bit depth the format does not pair with this colour type.
    Unsupported { depth: u8, color: u8 },
    /// A palette image whose PLTE chunk never arrived.
    MissingPalette,
    /// Interlaced images; icon themes and the mixer both avoid them.
    Interlaced,
    /// A header claiming more pixels than any icon has. Believing it would ask
    /// for an allocation on a stranger's say-so.
    TooLarge { width: u32, height: u32 },
    Deflate,
}

impl DecodeError {
    /// The error in words.
    pub open spec fn words(self) -> Seq<char> {
        match self {
            DecodeError::NotPng => "not a PNG"@,
            DecodeError::Truncated => "file ends mid-chunk"@,
            DecodeError::BadChecksum => "chunk CRC mismatch"@,
            DecodeError::Unsupported { depth, color } => "unsupported PNG: "@ + text::decimal(
                depth as nat,
            ) + "-bit colour type "@ + text::decimal(color as nat),
            DecodeError::MissingPalette => "palette image with no PLTE chunk"@,
            DecodeError::Interlaced => "interlaced PNGs are not read"@,
            DecodeError::TooLarge { width, height } => "image too large to decode: "@
                + text::decimal(width as nat) + "x"@ + text::decimal(height as nat),
            DecodeError::Deflate => "malformed deflate stream"@,
        }
    }

    /// The error in words, for a log line.
    pub fn message(&self) -> (s: String)
        ensures
            s@ == self.words(),
    {
        match *self {
            DecodeError::NotPng => "not a PNG".to_owned(),
            DecodeError::Truncated => "file ends mid-chunk".to_owned(),
            DecodeError::BadChecksum => "chunk CRC mismatch".to_owned(),
            DecodeError::Unsupported { depth, color } => "unsupported PNG: ".to_owned().concat(
                decimal_text(depth as u64).as_str(),
            ).concat("-bit colour type ").concat(decimal_text(color as u64).as_str()),
            DecodeError::MissingPalette => "palette image with no PLTE chunk".to_owned(),
            DecodeError::Interlaced => "interlaced PNGs are not read".to_owned(),
            DecodeError::TooLarge { width, height } => "image too large to decode: ".to_owned().concat(
                decimal_text(width as u64).as_str(),
            ).concat("x").concat(decimal_text(height as u64).as_str()),
            DecodeError::Deflate => "malformed deflate stream".to_owned(),
        }
    }
}

/// The pixel layout an IHDR describes.
#[derive(Clone, Copy)]
pub struct Format {
    pub depth: u8,
    pub color: u8,
    /// Samples per pixel: one for grey or a palette index, two for grey plus
    /// alpha, three for RGB, four for RGBA.
    pub samples: usize,
}

/// Whether the format pairs this bit depth with this colour type.
pub open spec fn paired(depth: u8, color: u8) -> bool {
    if color == 0 {
        depth == 1 || depth == 2 || depth == 4 || depth == 8 || depth == 16
    } else if color == 3 {
        depth == 1 || depth == 2 || depth == 4 || depth == 8
    } else if color == 2 || color == 4 || color == 6 {
        depth == 8 || depth == 16
    } else {
        false
    }
}

/// How many samples make a pixel of a colour type.
pub open spec fn samples_of(color: u8) -> int {
    if color == 0 || color == 3 {
        1
    } else if color == 4 {
        2
    } else if color == 2 {
        3
    } else {
        4
    }
}

/// Bytes per scanline, rounded up to whole ones.
pub open spec fn stride_of(width: int, depth: u8, color: u8) -> int {
    (width * samples_of(color) * depth + 7) / 8
}

/// How far back a filter reaches, in whole bytes, never less than one.
pub open spec fn reach_of(depth: u8, color: u8) -> int {
    if samples_of(color) * depth / 8 < 1 {
        1
    } else {
        samples_of(color) * depth / 8
    }
}

impl Format {
    pub open spec fn wf(self) -> bool {
        paired(self.depth, self.color) && self.samples == samples_of(self.color)
    }

    pub fn new(depth: u8, color: u8) -> (format: Result<Self, DecodeError>)
        ensures
            format is Ok <==> paired(depth, color),
            format matches Ok(f) ==> f.wf() && f.depth == depth && f.color == color,
            format matches Err(e) ==> e == (DecodeError::Unsupported { depth, color }),
    {
        // Each colour type allows only some depths.
        let ok: bool = match color {
            0 => depth == 1 || depth == 2 || depth == 4 || depth == 8 || depth == 16,
            3 => depth == 1 || depth == 2 || depth == 4 || depth == 8,
            2 | 4 | 6 => depth == 8 || depth == 16,
            _ => false,
        };
        if !ok {
            return Err(DecodeError::Unsupported { depth, color });
        }
        let samples: usize = match color {
            0 | 3 => 1,
            4 => 2,
            2 => 3,
            _ => 4,
        };
        Ok(Format { depth, color, samples })
    }

    /// Bytes per scanline, rounded up: depths below eight pack several samples
    /// into a byte and a row ends on a byte boundary.
    pub fn stride(&self, width: u32) -> (stride: usize)
        requires
            self.wf(),
            width <= MAX_DIMENSION,
        ensures
            stride == stride_of(width as int, self.depth, self.color),
            stride <= 131072,
    {
        proof {
            assert(width * self.samples <= 65536) by (nonlinear_arith)
                requires
                    width <= 16384,
                    self.samples <= 4,
            ;
            assert(0 <= width * self.samples * self.depth <= 1048576) by (nonlinear_arith)
                requires
                    0 <= width * self.samples <= 65536,
                    self.depth <= 16,
            ;
        }
        (width as usize * self.samples * self.depth as usize + 7) / 8
    }

    /// How far back a filter reaches, in whole bytes, never less than one.
    pub fn filter_bpp(&self) -> (bpp: usize)
        requires
            self.wf(),
        ensures
            bpp == reach_of(self.depth, self.color),
            1 <= bpp,
    {
        proof {
            assert(0 <= self.samples * self.depth <= 64) by (nonlinear_arith)
                requires
                    self.samples <= 4,
                    self.depth <= 16,
            ;
        }
        let whole: usize = self.samples * self.depth as usize / 8;
        if whole < 1 {
            1
        } else {
            whole
        }
    }
}

/// The four channels in one word.
pub open spec fn packed(a: u8, r: u8, g: u8, b: u8) -> u32 {
    ((a as u32) << 24) | ((r as u32) << 16) | ((g as u32) << 8) | (b as u32)
}

pub fn pack(a: u8, r: u8, g: u8, b: u8) -> (px: u32)
    ensures
        px == packed(a, r, g, b),
{
    ((a as u32) << 24) | ((r as u32) << 16) | ((g as u32) << 8) | (b as u32)
}

/// PLTE entries as ARGB, with tRNS supplying alpha for the leading entries it
/// covers. Entries past the end of tRNS are opaque.
pub open spec fn palette_of(plte: Seq<u8>, trns: Seq<u8>) -> Seq<u32> {
    Seq::new(
        plte.len() / 3,
        |i: int|
            packed(
                if i < trns.len() {
                    trns[i]
                } else {
                    0xff
                },
                plte[3 * i],
                plte[3 * i + 1],
                plte[3 * i + 2],
            ),
    )
}

pub fn build_palette(plte: &[u8], trns: &[u8]) -> (palette: Result<Vec<u32>, DecodeError>)
    ensures
        palette is Err <==> plte@.len() == 0,
        palette matches Err(e) ==> e == DecodeError::MissingPalette,
        palette matches Ok(p) ==> p@ == palette_of(plte@, trns@),
{
    if plte.len() == 0 {
        return Err(DecodeError::MissingPalette);
    }
    let mut palette: Vec<u32> = Vec::new();
    let mut i: usize = 0;
    while i < plte.len() / 3
        invariant
            i <= plte@.len() / 3,
            palette@ == palette_of(plte@, trns@).take(i as int),
        decreases plte@.len() / 3 - i,
    {
        let a: u8 = if i < trns.len() {
            trns[i]
        } else {
            0xff
        };
        palette.push(pack(a, plte[3 * i], plte[3 * i + 1], plte[3 * i + 2]));
        i = i + 1;
        assert(palette@ =~= palette_of(plte@, trns@).take(i as int));
    }
    assert(palette@ =~= palette_of(plte@, trns@));
    Ok(palette)
}

/// Two bytes as one number, most significant first.
pub open spec fn word16(hi: u8, lo: u8) -> int {
    256 * hi + lo
}

/// The one sample value tRNS marks fully transparent in grey and truecolour
/// images. The chunk stores each as sixteen bits whatever the depth, so the
/// comparison happens before samples are scaled down.
pub open spec fn key_of(color: u8, trns: Seq<u8>) -> Option<(int, int, int)> {
    if color == 0 && trns.len() >= 2 {
        let v = word16(trns[0], trns[1]);
        Some((v, v, v))
    } else if color == 2 && trns.len() >= 6 {
        Some((word16(trns[0], trns[1]), word16(trns[2], trns[3]), word16(trns[4], trns[5])))
    } else {
        None
    }
}

/// A transparency key's three samples.
#[derive(Clone, Copy)]
pub struct ColorKey {
    pub r: u16,
    pub g: u16,
    pub b: u16,
}

pub open spec fn key_view(key: Option<ColorKey>) -> Option<(int, int, int)> {
    match key {
        Some(k) => Some((k.r as int, k.g as int, k.b as int)),
        None => None,
    }
}

fn be16(hi: u8, lo: u8) -> (v: u16)
    ensures
        v == word16(hi, lo),
{
    256 * hi as u16 + lo as u16
}

pub fn color_key(color: u8, trns: &[u8]) -> (key: Option<ColorKey>)
    ensures
        key_view(key) == key_of(color, trns@),
{
    if color == 0 && trns.len() >= 2 {
        let v: u16 = be16(trns[0], trns[1]);
        Some(ColorKey { r: v, g: v, b: v })
    } else if color == 2 && trns.len() >= 6 {
        Some(
            ColorKey {
                r: be16(trns[0], trns[1]),
                g: be16(trns[2], trns[3]),
                b: be16(trns[4], trns[5]),
            },
        )
    } else {
        None
    }
}

/// A byte of a scanline, zero past its end.
pub open spec fn line_byte(line: Seq<u8>, i: int) -> u8 {
    if 0 <= i < line.len() {
        line[i]
    } else {
        0
    }
}

/// How many samples of a depth below eight share a byte.
pub open spec fn samples_per_byte(depth: u8) -> int {
    if depth == 1 {
        8
    } else if depth == 2 {
        4
    } else {
        2
    }
}

/// One raw sample from a scanline. `index` counts samples, not pixels or bytes;
/// depths below eight pack several into a byte, most significant first.
pub open spec fn sample_at(line: Seq<u8>, depth: u8, index: int) -> int {
    if depth == 16 {
        word16(line_byte(line, 2 * index), line_byte(line, 2 * index + 1))
    } else if depth == 8 {
        line_byte(line, index) as int
    } else {
        let per_byte = samples_per_byte(depth);
        let shift = 8 - depth * (index % per_byte + 1);
        ((line_byte(line, index / per_byte) >> (shift as u8)) & (((1u8 << depth) - 1) as u8)) as int
    }
}

proof fn small_depth(depth: u8, byte: u8, shift: u8)
    by (bit_vector)
    requires
        depth == 1 || depth == 2 || depth == 4,
    ensures
        depth == 1 ==> (1u8 << depth) == 2,
        depth == 2 ==> (1u8 << depth) == 4,
        depth == 4 ==> (1u8 << depth) == 16,
        (byte >> shift) & (((1u8 << depth) - 1) as u8) <= ((1u8 << depth) - 1) as u8,
{
}

pub fn raw_sample(line: &[u8], depth: u8, index: usize) -> (sample: u16)
    requires
        depth == 1 || depth == 2 || depth == 4 || depth == 8 || depth == 16,
        index <= 100_000,
    ensures
        sample == sample_at(line@, depth, index as int),
        depth == 1 ==> sample <= 1,
        depth == 2 ==> sample <= 3,
        depth == 4 ==> sample <= 15,
        depth == 8 ==> sample <= 255,
{
    if depth == 16 {
        be16(byte_or_zero(line, 2 * index), byte_or_zero(line, 2 * index + 1))
    } else if depth == 8 {
        byte_or_zero(line, index) as u16
    } else {
        let per_byte: usize = if depth == 1 {
            8
        } else if depth == 2 {
            4
        } else {
            2
        };
        let within: usize = index % per_byte + 1;
        assert(depth * within <= 8) by {
            assert(depth == 1 ==> depth * within == within);
            assert(depth == 2 ==> depth * within == 2 * within);
            assert(depth == 4 ==> depth * within == 4 * within);
        }
        let shift: u8 = 8 - (depth * within as u8);
        let byte: u8 = byte_or_zero(line, index / per_byte);
        proof {
            small_depth(depth, byte, shift);
        }
        ((byte >> shift) & ((1u8 << depth) - 1)) as u16
    }
}

fn byte_or_zero(line: &[u8], i: usize) -> (byte: u8)
    ensures
        byte == line_byte(line@, i as int),
{
    if i < line.len() {
        line[i]
    } else {
        0
    }
}

/// A raw sample scaled to eight bits, so every depth lands on one range.
pub open spec fn scaled8(v: int, depth: u8) -> int {
    if depth == 16 {
        v / 256
    } else if depth == 8 {
        v
    } else {
        let max = (1u8 << depth) - 1;
        (v * 255 + max / 2) / max
    }
}

pub fn scale8(v: u16, depth: u8) -> (out: u8)
    requires
        depth == 1 && v <= 1 || depth == 2 && v <= 3 || depth == 4 && v <= 15 || depth == 8 && v
            <= 255 || depth == 16,
    ensures
        out == scaled8(v as int, depth),
{
    if depth == 16 {
        (v / 256) as u8
    } else if depth == 8 {
        v as u8
    } else {
        proof {
            small_depth(depth, 0, 0);
        }
        let max: u16 = (1u8 << depth) as u16 - 1;
        ((v * 255 + max / 2) / max) as u8
    }
}

/// The Paeth predictor: whichever of the three neighbours the initial estimate
/// lands nearest.
pub open spec fn paeth_of(a: int, b: int, c: int) -> int {
    let p = a + b - c;
    let far = |x: int|
        if p - x >= 0 {
            p - x
        } else {
            x - p
        };
    if far(a) <= far(b) && far(a) <= far(c) {
        a
    } else if far(b) <= far(c) {
        b
    } else {
        c
    }
}

pub fn paeth(a: u32, b: u32, c: u32) -> (p: u32)
    requires
        a <= 255,
        b <= 255,
        c <= 255,
    ensures
        p == paeth_of(a as int, b as int, c as int),
{
    let p: i32 = a as i32 + b as i32 - c as i32;
    let pa: i32 = distance(p, a as i32);
    let pb: i32 = distance(p, b as i32);
    let pc: i32 = distance(p, c as i32);
    if pa <= pb && pa <= pc {
        a
    } else if pb <= pc {
        b
    } else {
        c
    }
}

fn distance(x: i32, y: i32) -> (d: i32)
    requires
        -1000 <= x <= 1000,
        -1000 <= y <= 1000,
    ensures
        d == if x - y >= 0 {
            x - y
        } else {
            y - x
        },
{
    if x - y >= 0 {
        x - y
    } else {
        y - x
    }
}

/// What a filter predicts from the byte before (`a`), the one above (`b`) and
/// the one before that (`c`).
pub open spec fn predicted(filter: u8, a: u8, b: u8, c: u8) -> int {
    if filter == 0 {
        0
    } else if filter == 1 {
        a as int
    } else if filter == 2 {
        b as int
    } else if filter == 3 {
        (a + b) / 2
    } else {
        paeth_of(a as int, b as int, c as int)
    }
}

/// The first `n` bytes of a scanline with its filter reversed, `above` being
/// the row before and `reach` how far back the filter looks.
pub open spec fn unfiltered(filter: u8, line: Seq<u8>, above: Seq<u8>, reach: int, n: int) -> Seq<u8>
    decreases n,
{
    if n <= 0 {
        Seq::empty()
    } else {
        let done = unfiltered(filter, line, above, reach, n - 1);
        let i = n - 1;
        let a = if i >= reach {
            done[i - reach]
        } else {
            0
        };
        let c = if i >= reach {
            above[i - reach]
        } else {
            0
        };
        done.push(((line[i] + predicted(filter, a, above[i], c)) % 256) as u8)
    }
}

/// Row `y` of the image data with its filter reversed.
pub open spec fn row_bytes(raw: Seq<u8>, stride: int, reach: int, y: int) -> Seq<u8>
    decreases y,
{
    let start = y * (stride + 1);
    let above = if y <= 0 {
        Seq::new(stride as nat, |i: int| 0u8)
    } else {
        row_bytes(raw, stride, reach, y - 1)
    };
    unfiltered(raw[start], raw.subrange(start + 1, start + 1 + stride), above, reach, stride)
}

/// One pixel of an unfiltered row. An index outside the palette has no colour
/// to stand for, so it draws as nothing rather than as an arbitrary entry.
pub open spec fn pixel_at(
    line: Seq<u8>,
    depth: u8,
    color: u8,
    palette: Seq<u32>,
    key: Option<(int, int, int)>,
    x: int,
) -> u32 {
    let base = x * samples_of(color);
    let s = |i: int| sample_at(line, depth, base + i);
    let to8 = |i: int| scaled8(s(i), depth) as u8;
    if color == 3 {
        if s(0) < palette.len() {
            palette[s(0)]
        } else {
            0
        }
    } else if color == 0 {
        packed(
            if key == Some((s(0), s(0), s(0))) {
                0
            } else {
                0xff
            },
            to8(0),
            to8(0),
            to8(0),
        )
    } else if color == 2 {
        packed(
            if key == Some((s(0), s(1), s(2))) {
                0
            } else {
                0xff
            },
            to8(0),
            to8(1),
            to8(2),
        )
    } else if color == 4 {
        packed(to8(1), to8(0), to8(0), to8(0))
    } else {
        packed(to8(3), to8(0), to8(1), to8(2))
    }
}

/// The pixels of an image whose data is `raw`.
pub open spec fn image_pixels(
    raw: Seq<u8>,
    width: int,
    height: int,
    depth: u8,
    color: u8,
    palette: Seq<u32>,
    key: Option<(int, int, int)>,
) -> Seq<u32> {
    Seq::new(
        (height * width) as nat,
        |i: int|
            pixel_at(
                row_bytes(raw, stride_of(width, depth, color), reach_of(depth, color), i / width),
                depth,
                color,
                palette,
                key,
                i % width,
            ),
    )
}

/// Every row names one of the five filters.
pub open spec fn filters_known(raw: Seq<u8>, stride: int, height: int) -> bool {
    forall|y: int| 0 <= y < height ==> #[trigger] raw[y * (stride + 1)] <= 4
}

/// What the image data comes to once unfiltered, or why it does not.
pub open spec fn unfiltered_image(
    raw: Seq<u8>,
    width: int,
    height: int,
    depth: u8,
    color: u8,
    palette: Seq<u32>,
    key: Option<(int, int, int)>,
) -> Result<Seq<u32>, DecodeError> {
    let stride = stride_of(width, depth, color);
    if raw.len() < height * (stride + 1) {
        Err(DecodeError::Truncated)
    } else if !filters_known(raw, stride, height) {
        Err(DecodeError::Deflate)
    } else {
        Ok(image_pixels(raw, width, height, depth, color, palette, key))
    }
}

/// Reverse one scanline's filter.
fn unfilter_line(filter: u8, raw: &[u8], start: usize, above: &Vec<u8>, reach: usize) -> (line: Vec<u8>)
    requires
        filter <= 4,
        1 <= reach,
        start + above@.len() <= raw@.len(),
    ensures
        line@.len() == above@.len(),
        line@ == unfiltered(
            filter,
            raw@.subrange(start as int, start + above@.len()),
            above@,
            reach as int,
            above@.len() as int,
        ),
{
    let ghost source = raw@.subrange(start as int, start + above@.len());
    let mut line: Vec<u8> = Vec::new();
    let mut i: usize = 0;
    while i < above.len()
        invariant
            filter <= 4,
            1 <= reach,
            i <= above@.len(),
            start + above@.len() <= raw@.len(),
            source == raw@.subrange(start as int, start + above@.len()),
            line@.len() == i,
            line@ == unfiltered(filter, source, above@, reach as int, i as int),
        decreases above@.len() - i,
    {
        // The byte `reach` back on this row, and the one above it.
        let a: u32 = if i >= reach {
            line[i - reach] as u32
        } else {
            0
        };
        let b: u32 = above[i] as u32;
        let c: u32 = if i >= reach {
            above[i - reach] as u32
        } else {
            0
        };
        assert(raw.len() == raw@.len());
        let x: u32 = raw[start + i] as u32;
        let sum: u32 = match filter {
            0 => x,
            1 => x + a,
            2 => x + b,
            3 => x + (a + b) / 2,
            _ => x + paeth(a, b, c),
        };
        line.push((sum % 256) as u8);
        i = i + 1;
    }
    line
}

/// One pixel of an unfiltered row, packed into an ARGB word.
fn unpack_pixel(
    line: &Vec<u8>,
    fmt: Format,
    palette: &Vec<u32>,
    key: Option<ColorKey>,
    x: usize,
) -> (px: u32)
    requires
        fmt.wf(),
        x <= MAX_DIMENSION,
    ensures
        px == pixel_at(line@, fmt.depth, fmt.color, palette@, key_view(key), x as int),
{
    let depth: u8 = fmt.depth;
    assert(x * fmt.samples <= 65536) by (nonlinear_arith)
        requires
            x <= 16384,
            fmt.samples <= 4,
    ;
    let base: usize = x * fmt.samples;
    let s0: u16 = raw_sample(line.as_slice(), depth, base);
    if fmt.color == 3 {
        // An index outside the palette has no colour to stand for, so it draws
        // as nothing rather than as an arbitrary entry.
        if (s0 as usize) < palette.len() {
            palette[s0 as usize]
        } else {
            0
        }
    } else if fmt.color == 0 {
        let v: u8 = scale8(s0, depth);
        pack(
            if is_key(key, s0, s0, s0) {
                0
            } else {
                0xff
            },
            v,
            v,
            v,
        )
    } else if fmt.color == 2 {
        let s1: u16 = raw_sample(line.as_slice(), depth, base + 1);
        let s2: u16 = raw_sample(line.as_slice(), depth, base + 2);
        pack(
            if is_key(key, s0, s1, s2) {
                0
            } else {
                0xff
            },
            scale8(s0, depth),
            scale8(s1, depth),
            scale8(s2, depth),
        )
    } else if fmt.color == 4 {
        let s1: u16 = raw_sample(line.as_slice(), depth, base + 1);
        let v: u8 = scale8(s0, depth);
        pack(scale8(s1, depth), v, v, v)
    } else {
        let s1: u16 = raw_sample(line.as_slice(), depth, base + 1);
        let s2: u16 = raw_sample(line.as_slice(), depth, base + 2);
        let s3: u16 = raw_sample(line.as_slice(), depth, base + 3);
        pack(scale8(s3, depth), scale8(s0, depth), scale8(s1, depth), scale8(s2, depth))
    }
}

fn is_key(key: Option<ColorKey>, r: u16, g: u16, b: u16) -> (matched: bool)
    ensures
        matched == (key_view(key) == Some((r as int, g as int, b as int))),
{
    match key {
        Some(k) => k.r == r && k.g == g && k.b == b,
        None => false,
    }
}

/// Reverse the per-scanline filters and pack the result into ARGB words.
pub fn unfilter(
    raw: &[u8],
    width: u32,
    height: u32,
    fmt: Format,
    palette: &Vec<u32>,
    key: Option<ColorKey>,
) -> (image: Result<Decoded, DecodeError>)
    requires
        fmt.wf(),
        1 <= width <= MAX_DIMENSION,
        height <= MAX_DIMENSION,
    ensures
        ({
            let goal = unfiltered_image(
                raw@,
                width as int,
                height as int,
                fmt.depth,
                fmt.color,
                palette@,
                key_view(key),
            );
            match image {
                Ok(d) => goal == Ok::<Seq<u32>, DecodeError>(d.pixels@) && d.width == width
                    && d.height == height,
                Err(e) => goal == Err::<Seq<u32>, DecodeError>(e),
            }
        }),
{
    let w: usize = width as usize;
    let h: usize = height as usize;
    let stride: usize = fmt.stride(width);
    let reach: usize = fmt.filter_bpp();
    let ghost goal = image_pixels(
        raw@,
        width as int,
        height as int,
        fmt.depth,
        fmt.color,
        palette@,
        key_view(key),
    );
    assert(0 <= h * (stride + 1) <= 16384 * 131073) by (nonlinear_arith)
        requires
            0 <= h <= 16384,
            0 <= stride <= 131072,
    ;
    if raw.len() < h * (stride + 1) {
        return Err(DecodeError::Truncated);
    }
    let mut out: Vec<u32> = Vec::new();
    let mut above: Vec<u8> = vec![0u8; stride];
    assert(above@ =~= Seq::new(stride as nat, |i: int| 0u8));
    let mut y: usize = 0;
    let mut start: usize = 0;
    assert(0 * w == 0 && 0 * (stride + 1) == 0);
    while y < h
        invariant
            fmt.wf(),
            1 <= width <= MAX_DIMENSION,
            w == width,
            h == height,
            h <= MAX_DIMENSION,
            stride == stride_of(width as int, fmt.depth, fmt.color),
            stride <= 131072,
            reach == reach_of(fmt.depth, fmt.color),
            1 <= reach,
            goal == image_pixels(
                raw@,
                width as int,
                height as int,
                fmt.depth,
                fmt.color,
                palette@,
                key_view(key),
            ),
            h * (stride + 1) <= raw@.len(),
            h * (stride + 1) <= 16384 * 131073,
            y <= h,
            start == y * (stride + 1),
            above@.len() == stride,
            above@ == if y == 0 {
                Seq::new(stride as nat, |i: int| 0u8)
            } else {
                row_bytes(raw@, stride as int, reach as int, y - 1)
            },
            out@.len() == y * w,
            out@ == goal.take(y * w),
            forall|k: int| 0 <= k < y ==> #[trigger] raw@[k * (stride + 1)] <= 4,
        decreases h - y,
    {
        proof {
            assert((y + 1) * (stride + 1) == y * (stride + 1) + stride + 1) by (nonlinear_arith);
            assert((y + 1) * w == y * w + w) by (nonlinear_arith);
            assert((y + 1) * (stride + 1) <= h * (stride + 1)) by (nonlinear_arith)
                requires
                    y + 1 <= h,
                    stride >= 0,
            ;
            assert((y + 1) * w <= h * w) by (nonlinear_arith)
                requires
                    y + 1 <= h,
                    w >= 0,
            ;
        }
        let filter: u8 = raw[start];
        if filter > 4 {
            assert(raw@[y * (stride + 1)] > 4);
            return Err(DecodeError::Deflate);
        }
        let line: Vec<u8> = unfilter_line(filter, raw, start + 1, &above, reach);
        let mut x: usize = 0;
        while x < w
            invariant
                fmt.wf(),
                1 <= width <= MAX_DIMENSION,
                w == width,
                h == height,
                y < h,
                x <= w,
                (y + 1) * w <= h * w,
                (y + 1) * w == y * w + w,
                stride == stride_of(width as int, fmt.depth, fmt.color),
                reach == reach_of(fmt.depth, fmt.color),
                line@ == row_bytes(raw@, stride as int, reach as int, y as int),
                goal == image_pixels(
                    raw@,
                    width as int,
                    height as int,
                    fmt.depth,
                    fmt.color,
                    palette@,
                    key_view(key),
                ),
                out@.len() == y * w + x,
                out@ == goal.take(y * w + x),
            decreases w - x,
        {
            proof {
                row_index(y as int, x as int, w as int);
            }
            out.push(unpack_pixel(&line, fmt, palette, key, x));
            x = x + 1;
            assert(out@ =~= goal.take(y * w + x));
        }
        above = line;
        y = y + 1;
        start = start + stride + 1;
    }
    assert(out@ =~= goal);
    Ok(Decoded { width, height, pixels: out })
}

/// What a file's chunks come to.
#[verifier::ext_equal]
pub struct Contents {
    pub header: bool,
    pub width: u32,
    pub height: u32,
    pub depth: u8,
    pub color: u8,
    pub plte: Seq<u8>,
    pub trns: Seq<u8>,
    pub idat: Seq<u8>,
}

/// The word at `at`, most significant byte first.
pub open spec fn word_at(bytes: Seq<u8>, at: int) -> u32 {
    checksum::word_be(bytes[at], bytes[at + 1], bytes[at + 2], bytes[at + 3])
}

/// The contents after a chunk is taken in. A later header, palette or
/// transparency replaces an earlier one; image data adds up.
pub open spec fn with_chunk(c: Contents, kind: Seq<u8>, data: Seq<u8>) -> Result<
    Contents,
    DecodeError,
> {
    if kind == IHDR@ {
        if data.len() < 13 {
            Err(DecodeError::Truncated)
        } else if data[12] != 0 {
            Err(DecodeError::Interlaced)
        } else {
            Ok(
                Contents {
                    header: true,
                    width: word_at(data, 0),
                    height: word_at(data, 4),
                    depth: data[8],
                    color: data[9],
                    ..c
                },
            )
        }
    } else if kind == PLTE@ {
        Ok(Contents { plte: data, ..c })
    } else if kind == TRNS@ {
        Ok(Contents { trns: data, ..c })
    } else if kind == IDAT@ {
        Ok(Contents { idat: c.idat + data, ..c })
    } else {
        Ok(c)
    }
}

/// The contents of the chunks from `at` on, up to the end chunk or the end of
/// the file: each one whole and its check value right.
pub open spec fn contents_from(bytes: Seq<u8>, at: int, c: Contents) -> Result<Contents, DecodeError>
    decreases bytes.len() - at,
{
    if at + 8 > bytes.len() {
        Ok(c)
    } else {
        let end = at + 8 + word_at(bytes, at);
        let kind = bytes.subrange(at + 4, at + 8);
        let data = bytes.subrange(at + 8, end);
        if end + 4 > bytes.len() {
            Err(DecodeError::Truncated)
        } else if checksum::crc32(kind + data) != word_at(bytes, end) {
            Err(DecodeError::BadChecksum)
        } else {
            match with_chunk(c, kind, data) {
                Err(e) => Err(e),
                Ok(more) => if kind == IEND@ {
                    Ok(more)
                } else {
                    contents_from(bytes, end + 4, more)
                },
            }
        }
    }
}

/// Nothing read yet.
pub open spec fn no_contents() -> Contents {
    Contents {
        header: false,
        width: 0,
        height: 0,
        depth: 0,
        color: 0,
        plte: Seq::empty(),
        trns: Seq::empty(),
        idat: Seq::empty(),
    }
}

/// The pixels of a file with these contents, or why there are none. The format
/// is looked at first, so an impossible depth reports as such rather than as a
/// missing palette.
pub open spec fn contents_pixels(c: Contents) -> Result<Seq<u32>, DecodeError> {
    if !c.header || c.width == 0 || c.height == 0 {
        Err(DecodeError::Truncated)
    } else if c.width > MAX_DIMENSION || c.height > MAX_DIMENSION {
        Err(DecodeError::TooLarge { width: c.width, height: c.height })
    } else if !paired(c.depth, c.color) {
        Err(DecodeError::Unsupported { depth: c.depth, color: c.color })
    } else if c.color == 3 && c.plte.len() == 0 {
        Err(DecodeError::MissingPalette)
    } else {
        let expected = c.height * (stride_of(c.width as int, c.depth, c.color) + 1);
        match inflate::inflated(c.idat, expected as nat) {
            None => Err(DecodeError::Deflate),
            Some(raw) => unfiltered_image(
                raw,
                c.width as int,
                c.height as int,
                c.depth,
                c.color,
                if c.color == 3 {
                    palette_of(c.plte, c.trns)
                } else {
                    Seq::empty()
                },
                key_of(c.color, c.trns),
            ),
        }
    }
}

/// What a file decodes to: its width, height and pixels.
pub open spec fn decoded(bytes: Seq<u8>) -> Result<(u32, u32, Seq<u32>), DecodeError> {
    if bytes.len() < 8 || bytes.subrange(0, 8) != SIGNATURE@ {
        Err(DecodeError::NotPng)
    } else {
        match contents_from(bytes, 8, no_contents()) {
            Err(e) => Err(e),
            Ok(c) => match contents_pixels(c) {
                Err(e) => Err(e),
                Ok(pixels) => Ok((c.width, c.height, pixels)),
            },
        }
    }
}

/// Whether the bytes at `at` are `want`.
fn bytes_are(bytes: &[u8], at: usize, want: &[u8]) -> (same: bool)
    requires
        at + want@.len() <= bytes@.len(),
    ensures
        same == (bytes@.subrange(at as int, at + want@.len()) == want@),
{
    let mut i: usize = 0;
    while i < want.len()
        invariant
            at + want@.len() <= bytes@.len(),
            i <= want@.len(),
            forall|k: int| 0 <= k < i ==> bytes@[at + k] == #[trigger] want@[k],
        decreases want@.len() - i,
    {
        assert(bytes.len() == bytes@.len());
        if bytes[at + i] != want[i] {
            assert(bytes@.subrange(at as int, at + want@.len())[i as int] != want@[i as int]);
            return false;
        }
        i = i + 1;
    }
    assert(bytes@.subrange(at as int, at + want@.len()) =~= want@);
    true
}

/// Decode a non-interlaced PNG into ARGB words. Every colour type is read at
/// each depth the format allows it, with PLTE and tRNS applied.
pub fn decode(bytes: &[u8]) -> (image: Result<Decoded, DecodeError>)
    ensures
        match image {
            Ok(d) => decoded(bytes@) == Ok::<(u32, u32, Seq<u32>), DecodeError>(
                (d.width, d.height, d.pixels@),
            ),
            Err(e) => decoded(bytes@) == Err::<(u32, u32, Seq<u32>), DecodeError>(e),
        },
{
    if bytes.len() < 8 || !bytes_are(bytes, 0, &SIGNATURE) {
        return Err(DecodeError::NotPng);
    }
    let mut width: u32 = 0;
    let mut height: u32 = 0;
    let mut depth: u8 = 0;
    let mut color: u8 = 0;
    let mut plte: Vec<u8> = Vec::new();
    let mut trns: Vec<u8> = Vec::new();
    let mut header: bool = false;
    let mut idat: Vec<u8> = Vec::new();
    let mut at: usize = 8;
    let ghost goal = contents_from(bytes@, 8, no_contents());
    let mut more: bool = true;
    assert(plte@ =~= Seq::<u8>::empty());
    while more && bytes.len() - at >= 8
        invariant
            8 <= at <= bytes@.len(),
            bytes@.len() >= 8,
            bytes@.subrange(0, 8) == SIGNATURE@,
            goal == contents_from(bytes@, 8, no_contents()),
            more ==> goal == contents_from(
                bytes@,
                at as int,
                (Contents {
                    header,
                    width,
                    height,
                    depth,
                    color,
                    plte: plte@,
                    trns: trns@,
                    idat: idat@,
                }),
            ),
            !more ==> goal == Ok::<Contents, DecodeError>(
                Contents {
                    header,
                    width,
                    height,
                    depth,
                    color,
                    plte: plte@,
                    trns: trns@,
                    idat: idat@,
                },
            ),
        decreases bytes@.len() - at,
    {
        let len: u32 = read_be32(bytes, at);
        let room: usize = bytes.len() - at - 8;
        if room < 4 || (len as u64) > (room - 4) as u64 {
            return Err(DecodeError::Truncated);
        }
        let end: usize = at + 8 + len as usize;
        let kind = slice_subrange(bytes, at + 4, at + 8);
        let data = slice_subrange(bytes, at + 8, end);

        let mut crc = Crc::new();
        crc.update(kind);
        crc.update(data);
        proof {
            checksum::crc_feed_splits(0xffff_ffff, kind@, data@);
            assert(kind@.subrange(0, 4) =~= kind@);
        }
        let want: u32 = read_be32(bytes, end);
        if crc.finish() != want {
            return Err(DecodeError::BadChecksum);
        }
        if bytes_are(kind, 0, &IHDR) {
            if data.len() < 13 {
                return Err(DecodeError::Truncated);
            }
            width = read_be32(data, 0);
            height = read_be32(data, 4);
            depth = data[8];
            color = data[9];
            if data[12] != 0 {
                return Err(DecodeError::Interlaced);
            }
            header = true;
            assert(kind@[0] != IEND@[0] || kind@[1] != IEND@[1]);
        } else if bytes_are(kind, 0, &PLTE) {
            plte = Vec::new();
            push_all(&mut plte, data);
            assert(plte@ =~= data@);
            assert(kind@[0] != IEND@[0]);
        } else if bytes_are(kind, 0, &TRNS) {
            trns = Vec::new();
            push_all(&mut trns, data);
            assert(trns@ =~= data@);
            assert(kind@[0] != IEND@[0]);
        } else if bytes_are(kind, 0, &IDAT) {
            push_all(&mut idat, data);
            assert(kind@[1] != IEND@[1]);
        } else if bytes_are(kind, 0, &IEND) {
            more = false;
        }
        at = end + 4;
    }
    let ghost c = Contents {
        header,
        width,
        height,
        depth,
        color,
        plte: plte@,
        trns: trns@,
        idat: idat@,
    };
    assert(goal == Ok::<Contents, DecodeError>(c));

    if !header || width == 0 || height == 0 {
        return Err(DecodeError::Truncated);
    }
    if width > MAX_DIMENSION || height > MAX_DIMENSION {
        return Err(DecodeError::TooLarge { width, height });
    }
    // Format first, so an impossible depth reports as such rather than as a
    // missing palette.
    let fmt: Format = match Format::new(depth, color) {
        Ok(f) => f,
        Err(e) => {
            return Err(e);
        },
    };
    let mut palette: Vec<u32> = Vec::new();
    if color == 3 {
        match build_palette(plte.as_slice(), trns.as_slice()) {
            Ok(p) => {
                palette = p;
            },
            Err(e) => {
                return Err(e);
            },
        }
    }
    let stride: usize = fmt.stride(width);
    assert(0 <= height * (stride + 1) <= 16384 * 131073) by (nonlinear_arith)
        requires
            0 <= height <= 16384,
            0 <= stride <= 131072,
    ;
    let expected: usize = height as usize * (stride + 1);
    let raw: Vec<u8> = match inflate::inflate(idat.as_slice(), expected) {
        Some(raw) => raw,
        None => {
            return Err(DecodeError::Deflate);
        },
    };
    let key = color_key(color, trns.as_slice());
    assert(palette@ == if color == 3 {
        palette_of(plte@, trns@)
    } else {
        Seq::empty()
    });
    unfilter(raw.as_slice(), width, height, fmt, &palette, key)
}

// --- Reading back what was written ------------------------------------------------

/// `bytes` holds `part` at position `at`.
pub open spec fn bytes_hold(bytes: Seq<u8>, at: int, part: Seq<u8>) -> bool {
    0 <= at && at + part.len() <= bytes.len() && bytes.subrange(at, at + part.len()) == part
}

/// Where a file holds a chunk, reading takes the chunk in.
pub proof fn chunk_reads_back(bytes: Seq<u8>, at: int, kind: Seq<u8>, data: Seq<u8>, c: Contents)
    requires
        kind.len() == 4,
        data.len() <= u32::MAX,
        bytes_hold(bytes, at, chunk_bytes(kind, data)),
    ensures
        contents_from(bytes, at, c) == match with_chunk(c, kind, data) {
            Err(e) => Err(e),
            Ok(more) => if kind == IEND@ {
                Ok(more)
            } else {
                contents_from(bytes, at + 12 + data.len(), more)
            },
        },
{
    let all = chunk_bytes(kind, data);
    let n = data.len() as int;
    let crc = checksum::crc32(kind + data);
    let part = bytes.subrange(at, at + all.len());
    assert(forall|i: int| 0 <= i < all.len() ==> bytes[at + i] == #[trigger] part[i]);
    checksum::word_be_reads_be32(data.len() as u32);
    checksum::word_be_reads_be32(crc);
    let len_word = checksum::be32(data.len() as u32);
    let crc_word = checksum::be32(crc);
    assert(all =~= len_word + kind + data + crc_word);
    assert(part[0] == len_word[0] && part[1] == len_word[1] && part[2] == len_word[2] && part[3]
        == len_word[3]);
    assert(word_at(bytes, at) == data.len());
    let end = at + 8 + n;
    assert(bytes.subrange(at + 4, at + 8) =~= kind) by {
        assert forall|i: int| 0 <= i < 4 implies bytes.subrange(at + 4, at + 8)[i] == kind[i] by {
            assert(part[4 + i] == kind[i]);
        }
    }
    assert(bytes.subrange(at + 8, end) =~= data) by {
        assert forall|i: int| 0 <= i < n implies bytes.subrange(at + 8, end)[i] == data[i] by {
            assert(part[8 + i] == data[i]);
        }
    }
    assert(part[8 + n] == crc_word[0] && part[9 + n] == crc_word[1] && part[10 + n] == crc_word[2]
        && part[11 + n] == crc_word[3]);
    assert(word_at(bytes, end) == crc);
}

/// The image data of an encoded image: rows of filter type 0.
proof fn scanlines_unfilter(pixels: Seq<u32>, width: int, height: int, y: int)
    requires
        1 <= width,
        0 <= y < height,
    ensures
        ({
            let raw = scanline_bytes(pixels, width as nat, height as nat);
            let start = y * (3 * width + 1);
            &&& raw.len() == height * (3 * width + 1)
            &&& start + 3 * width + 1 <= raw.len()
            &&& raw[start] == 0
            &&& row_bytes(raw, 3 * width, 3, y) == raw.subrange(start + 1, start + 1 + 3 * width)
        }),
    decreases y,
{
    let raw = scanline_bytes(pixels, width as nat, height as nat);
    let row = 3 * width + 1;
    let start = y * row;
    row_index(y, 0, row);
    assert((y + 1) * row == y * row + row) by (nonlinear_arith);
    assert((y + 1) * row <= height * row) by (nonlinear_arith)
        requires
            y + 1 <= height,
            row >= 0,
    ;
    assert(0 <= y * row) by (nonlinear_arith)
        requires
            0 <= y,
            row >= 0,
    ;
    if y > 0 {
        scanlines_unfilter(pixels, width, height, y - 1);
    }
    let above = if y <= 0 {
        Seq::new((3 * width) as nat, |i: int| 0u8)
    } else {
        row_bytes(raw, 3 * width, 3, y - 1)
    };
    let line = raw.subrange(start + 1, start + 1 + 3 * width);
    plain_line_stays(line, above, 3, 3 * width);
    assert(line.take(3 * width) =~= line);
}

/// Filter type 0 leaves a line as it is.
proof fn plain_line_stays(line: Seq<u8>, above: Seq<u8>, reach: int, n: int)
    requires
        0 <= n <= line.len(),
    ensures
        unfiltered(0, line, above, reach, n) == line.take(n),
    decreases n,
{
    if n > 0 {
        plain_line_stays(line, above, reach, n - 1);
        assert(unfiltered(0, line, above, reach, n) =~= line.take(n));
    } else {
        assert(line.take(0) =~= Seq::<u8>::empty());
    }
}

/// A pixel word with its alpha made opaque.
pub open spec fn opaque(px: u32) -> u32 {
    0xff00_0000 | (px & 0x00ff_ffff)
}

proof fn channels_repack(px: u32)
    ensures
        packed(0xff, channel(px, 0), channel(px, 1), channel(px, 2)) == opaque(px),
{
    assert((0xffu32 << 24) | (((px >> 16) as u8 as u32) << 16) | (((px >> 8) as u8 as u32) << 8) | (
    px as u8 as u32) == 0xff00_0000 | (px & 0x00ff_ffff)) by (bit_vector);
}

/// The image an encoded image's data comes to.
proof fn scanlines_decode(pixels: Seq<u32>, width: int, height: int)
    requires
        1 <= width,
        1 <= height,
    ensures
        unfiltered_image(
            scanline_bytes(pixels, width as nat, height as nat),
            width,
            height,
            8,
            2,
            Seq::empty(),
            None,
        ) == Ok::<Seq<u32>, DecodeError>(
            Seq::new((height * width) as nat, |i: int| opaque(pixel_or_black(pixels, i))),
        ),
{
    let raw = scanline_bytes(pixels, width as nat, height as nat);
    let row = 3 * width + 1;
    assert(stride_of(width, 8, 2) == 3 * width);
    assert(reach_of(8, 2) == 3);
    assert forall|y: int| 0 <= y < height implies #[trigger] raw[y * (3 * width + 1)] <= 4 by {
        scanlines_unfilter(pixels, width, height, y);
    }
    scanlines_unfilter(pixels, width, height, 0);
    let want = Seq::new((height * width) as nat, |i: int| opaque(pixel_or_black(pixels, i)));
    let got = image_pixels(raw, width, height, 8, 2, Seq::empty(), None);
    assert forall|i: int| 0 <= i < height * width implies #[trigger] got[i] == want[i] by {
        let y = i / width;
        let x = i % width;
        vstd::arithmetic::div_mod::lemma_fundamental_div_mod(i, width);
        assert(width * y == y * width) by (nonlinear_arith);
        assert(0 <= x < width) by (nonlinear_arith)
            requires
                x == i % width,
                1 <= width,
        ;
        assert(0 <= y < height) by (nonlinear_arith)
            requires
                i == y * width + x,
                0 <= x < width,
                0 <= i < height * width,
        ;
        scanlines_unfilter(pixels, width, height, y);
        let line = row_bytes(raw, 3 * width, 3, y);
        let px = pixel_or_black(pixels, i);
        let start = y * row;
        row_index(y, 1 + 3 * x, row);
        row_index(y, 2 + 3 * x, row);
        row_index(y, 3 + 3 * x, row);
        assert(line[3 * x] == raw[start + 1 + 3 * x]);
        assert(line[3 * x + 1] == raw[start + 2 + 3 * x]);
        assert(line[3 * x + 2] == raw[start + 3 + 3 * x]);
        assert((1 + 3 * x - 1) / 3 == x && (2 + 3 * x - 1) / 3 == x && (3 + 3 * x - 1) / 3 == x);
        assert(line[3 * x] == channel(px, 0));
        assert(line[3 * x + 1] == channel(px, 1));
        assert(line[3 * x + 2] == channel(px, 2));
        channels_repack(px);
    }
    assert(got =~= want);
}

/// A chunk tells its kind from every other by its first two letters.
pub proof fn kinds_differ()
    ensures
        IHDR@ != IEND@,
        IDAT@ != IEND@,
        IDAT@ != IHDR@,
        IDAT@ != PLTE@,
        IDAT@ != TRNS@,
        IEND@ != IHDR@,
        IEND@ != PLTE@,
        IEND@ != TRNS@,
        PLTE@ != IEND@,
        PLTE@ != IHDR@,
        TRNS@ != IEND@,
        TRNS@ != IHDR@,
        TRNS@ != PLTE@,
{
    assert(PLTE@[0] != IHDR@[0]);
    assert(TRNS@[0] != IHDR@[0]);
    assert(TRNS@[0] != PLTE@[0]);
    assert(IHDR@[1] != IEND@[1]);
    assert(IDAT@[1] != IEND@[1]);
    assert(IDAT@[1] != IHDR@[1]);
    assert(IDAT@[0] != PLTE@[0]);
    assert(IDAT@[0] != TRNS@[0]);
    assert(IEND@[0] != PLTE@[0]);
    assert(IEND@[0] != TRNS@[0]);
}

/// The contents of an 8-bit RGB file around the image data `body`.
proof fn rgb_file_contents(width: u32, height: u32, body: Seq<u8>)
    requires
        body.len() <= u32::MAX,
    ensures
        ({
            let bytes = SIGNATURE@ + chunk_bytes(IHDR@, rgb_header(width, height)) + chunk_bytes(
                IDAT@,
                body,
            ) + chunk_bytes(IEND@, Seq::empty());
            &&& bytes.len() >= 8
            &&& bytes.subrange(0, 8) == SIGNATURE@
            &&& contents_from(bytes, 8, no_contents()) == Ok::<Contents, DecodeError>(
                Contents {
                    header: true,
                    width,
                    height,
                    depth: 8,
                    color: 2,
                    idat: body,
                    ..no_contents()
                },
            )
        }),
{
    let header = rgb_header(width, height);
    let first = chunk_bytes(IHDR@, header);
    let second = chunk_bytes(IDAT@, body);
    let third = chunk_bytes(IEND@, Seq::empty());
    let bytes = SIGNATURE@ + first + second + third;
    let last = (33 + second.len()) as int;
    assert(header.len() == 13);
    assert(first.len() == 25);
    assert(second.len() == 12 + body.len());
    assert(bytes.subrange(0, 8) =~= SIGNATURE@);
    assert(bytes.subrange(8, 33) =~= first);
    assert(bytes.subrange(33, last) =~= second);
    assert(bytes.subrange(last, bytes.len() as int) =~= third);
    let c0 = no_contents();
    let c1 = Contents { header: true, width, height, depth: 8, color: 2, ..c0 };
    let c2 = Contents { idat: c1.idat + body, ..c1 };
    kinds_differ();
    chunk_reads_back(bytes, 8, IHDR@, header, c0);
    checksum::word_be_reads_be32(width);
    checksum::word_be_reads_be32(height);
    assert(with_chunk(c0, IHDR@, header) == Ok::<Contents, DecodeError>(c1));
    chunk_reads_back(bytes, 33, IDAT@, body, c1);
    assert(with_chunk(c1, IDAT@, body) == Ok::<Contents, DecodeError>(c2));
    chunk_reads_back(bytes, last, IEND@, Seq::empty(), c2);
    assert(with_chunk(c2, IEND@, Seq::empty()) == Ok::<Contents, DecodeError>(c2));
    assert(c2.idat =~= body);
}

/// Reading a written image gives its pixels back, opaque: every frame survives
/// the trip through the file.
pub proof fn decode_undoes_encode(pixels: Seq<u32>, width: u32, height: u32)
    requires
        1 <= width <= MAX_DIMENSION,
        1 <= height <= MAX_DIMENSION,
    ensures
        decoded(png_bytes(pixels, width, height)) == Ok::<(u32, u32, Seq<u32>), DecodeError>(
            (
                width,
                height,
                Seq::new((height * width) as nat, |i: int| opaque(pixel_or_black(pixels, i))),
            ),
        ),
{
    let raw = scanline_bytes(pixels, width as nat, height as nat);
    let body = deflate::zlib_bytes(raw);
    let row = 1 + 3 * width;
    assert(0 <= height * row <= 16384 * 49153) by (nonlinear_arith)
        requires
            0 <= height <= 16384,
            0 <= row <= 49153,
    ;
    assert(raw.len() == height * row);
    deflate::zlib_length(raw);
    rgb_file_contents(width, height, body);
    let c = Contents {
        header: true,
        width,
        height,
        depth: 8,
        color: 2,
        idat: body,
        ..no_contents()
    };
    assert(stride_of(width as int, 8, 2) == 3 * width);
    assert(height * (3 * width + 1) == height * row);
    deflate::inflate_undoes_zlib(raw, (height * (3 * width + 1)) as nat);
    scanlines_decode(pixels, width as int, height as int);
    assert(key_of(2, c.trns) is None);
    assert(contents_pixels(c) == Ok::<Seq<u32>, DecodeError>(
        Seq::new((height * width) as nat, |i: int| opaque(pixel_or_black(pixels, i))),
    ));
}

/// An opaque frame of the size it claims reads back exactly as it was.
pub proof fn opaque_frame_survives(pixels: Seq<u32>, width: u32, height: u32)
    requires
        1 <= width <= MAX_DIMENSION,
        1 <= height <= MAX_DIMENSION,
        pixels.len() == height * width,
        forall|i: int| 0 <= i < pixels.len() ==> #[trigger] pixels[i] >> 24 == 0xff,
    ensures
        decoded(png_bytes(pixels, width, height)) == Ok::<(u32, u32, Seq<u32>), DecodeError>(
            (width, height, pixels),
        ),
{
    decode_undoes_encode(pixels, width, height);
    let back = Seq::new((height * width) as nat, |i: int| opaque(pixel_or_black(pixels, i)));
    assert forall|i: int| 0 <= i < pixels.len() implies #[trigger] back[i] == pixels[i] by {
        let px = pixels[i];
        assert(0xff00_0000 | (px & 0x00ff_ffff) == px) by (bit_vector)
            requires
                px >> 24 == 0xff,
        ;
    }
    assert(back =~= pixels);
}

} // verus!
