//! PNG files, and the compression and check values inside them.

use bnksound::render::checksum::{adler32, Crc};
use bnksound::render::deflate::zlib;
use bnksound::render::inflate::inflate;
use bnksound::render::png::{
    chunk, decode, encode_rgb, paeth, raw_sample, scale8, DecodeError, Format, SIGNATURE,
};

/// Only the low 24 bits reach the file; the alpha byte is dropped.
#[test]
fn pixels_are_written_as_rgb_in_order() {
    let png = encode_rgb(&[0xff11_2233, 0xff44_5566], 2, 1);
    let back = decode(&png).expect("decode");
    assert_eq!(back.pixels, vec![0xff11_2233, 0xff44_5566]);
}

/// A flat image is mostly repeats, which is exactly what LZ77 is for. If
/// this stops holding, the encoder has quietly stopped compressing.
#[test]
fn a_flat_image_compresses_far_below_its_raw_size() {
    let (w, h) = (256u32, 256u32);
    let png = encode_rgb(&vec![0xff20_3040; (w * h) as usize], w, h);
    let raw = (w * h * 3) as usize;
    assert!(
        png.len() < raw / 20,
        "expected heavy compression, got {} bytes for {raw} raw",
        png.len()
    );
    let back = decode(&png).expect("decode");
    assert!(back.pixels.iter().all(|&p| p == 0xff20_3040));
}

/// Photographic-ish noise cannot compress much, but must still round-trip:
/// that is where the match finder and the literal path both get used.
#[test]
fn noisy_data_round_trips_even_when_it_cannot_compress() {
    let pixels: Vec<u32> = (0..97u32 * 61)
        .map(|i| 0xff00_0000 | i.wrapping_mul(2_654_435_761) & 0x00ff_ffff)
        .collect();
    let png = encode_rgb(&pixels, 97, 61);
    assert_eq!(decode(&png).expect("decode").pixels, pixels);
}

/// The two check values PNG relies on, against vectors from their specs.
#[test]
fn crc_and_adler_match_known_vectors() {
    let mut crc = Crc::new();
    crc.update(b"IEND");
    assert_eq!(crc.finish(), 0xae42_6082, "IEND's CRC is fixed by the spec");

    assert_eq!(adler32(b""), 1);
    assert_eq!(adler32(b"Wikipedia"), 0x11E6_0398);
}

#[test]
fn the_header_describes_the_image() {
    let png = encode_rgb(&[0xffff_0000; 6], 3, 2);
    assert_eq!(&png[..8], &SIGNATURE);
    assert_eq!(&png[12..16], b"IHDR");
    assert_eq!(&png[16..20], &3u32.to_be_bytes());
    assert_eq!(&png[20..24], &2u32.to_be_bytes());
    // 8-bit truecolor.
    assert_eq!(&png[24..26], &[8, 2]);
    assert!(png.ends_with(&[0xae, 0x42, 0x60, 0x82]), "IEND closes it");
}

/// Every chunk's declared length and CRC must agree with its bytes, or a
/// decoder rejects the file. Walk the whole stream and check both.
#[test]
fn every_chunk_is_well_formed_and_they_appear_in_order() {
    let png = encode_rgb(&[0xff01_0203, 0xff04_0506], 2, 1);
    let mut at = SIGNATURE.len();
    let mut kinds = Vec::new();
    while at < png.len() {
        let len = u32::from_be_bytes(png[at..at + 4].try_into().expect("len")) as usize;
        let kind = &png[at + 4..at + 8];
        let data = &png[at + 8..at + 8 + len];
        let want =
            u32::from_be_bytes(png[at + 8 + len..at + 12 + len].try_into().expect("crc"));
        let mut crc = Crc::new();
        crc.update(kind);
        crc.update(data);
        assert_eq!(crc.finish(), want, "CRC for {:?}", std::str::from_utf8(kind));
        kinds.push(String::from_utf8_lossy(kind).into_owned());
        at += 12 + len;
    }
    assert_eq!(at, png.len(), "chunks tile the file exactly");
    assert_eq!(kinds, ["IHDR", "IDAT", "IEND"]);
}

/// Our own encoder uses stored blocks; the decoder must read them back
/// exactly, or the golden-image comparison is measuring nothing.
#[test]
fn a_frame_survives_an_encode_decode_round_trip() {
    let pixels: Vec<u32> = (0..64 * 40)
        .map(|i: u32| 0xff00_0000 | (i.wrapping_mul(2_654_435_761) & 0x00ff_ffff))
        .collect();
    let png = encode_rgb(&pixels, 64, 40);
    let back = decode(&png).expect("decode our own output");
    assert_eq!((back.width, back.height), (64, 40));
    assert_eq!(back.pixels, pixels, "every pixel round-trips");
}


#[test]
fn junk_and_unsupported_forms_are_rejected_not_guessed_at() {
    assert_eq!(decode(b"not a png at all").err(), Some(DecodeError::NotPng));
    let mut png = encode_rgb(&[0xff11_2233], 1, 1);
    // Corrupt the IHDR CRC.
    let n = png.len();
    png[24] ^= 0xff;
    assert_eq!(decode(&png).err(), Some(DecodeError::BadChecksum));
    assert_eq!(png.len(), n);
    // Truncated mid-chunk.
    let png = encode_rgb(&[0xff11_2233], 1, 1);
    assert_eq!(decode(&png[..20]).err(), Some(DecodeError::Truncated));
}

/// A PNG assembled chunk by chunk. The encoder only writes 8-bit
/// truecolour, so the forms icon themes ship need building by hand. Rows
/// are already packed scanlines and go out with filter type 0.
/// A header claiming an impossible size must be refused before anything is
/// sized from it. The file is a few bytes; believing it would ask for an
/// allocation in the terabytes, and the arithmetic that gets there would
/// have wrapped on the way.
#[test]
fn an_absurd_header_is_refused_rather_than_allocated_for() {
    for (width, height) in [(u32::MAX, u32::MAX), (100_000, 1), (1, 100_000)] {
        let png = build_png(width, height, 8, 2, &[], &[], &[vec![0, 0, 0]]);
        assert_eq!(
            decode(&png).err(),
            Some(DecodeError::TooLarge { width, height }),
            "{width}x{height} should be refused",
        );
    }
    // The largest size that is still read stays readable.
    let png = build_png(1, 1, 8, 2, &[], &[], &[vec![1, 2, 3]]);
    assert!(decode(&png).is_ok());
}

/// A stream that keeps producing after the header's worth of pixels is
/// malformed. Following it lets a tiny file expand without bound, so it is
/// stopped at what the header described.
#[test]
fn a_stream_that_outruns_its_header_is_refused() {
    // A 1x1 truecolour image is four bytes of scanline; hand it far more.
    let mut png = Vec::from(SIGNATURE);
    let mut ihdr = Vec::with_capacity(13);
    ihdr.extend_from_slice(&1u32.to_be_bytes());
    ihdr.extend_from_slice(&1u32.to_be_bytes());
    ihdr.extend_from_slice(&[8, 2, 0, 0, 0]);
    chunk(&mut png, b"IHDR", &ihdr);
    chunk(&mut png, b"IDAT", &zlib(&vec![0u8; 64 * 1024]));
    chunk(&mut png, b"IEND", &[]);

    assert_eq!(decode(&png).err(), Some(DecodeError::Deflate));
}

fn build_png(
    width: u32,
    height: u32,
    depth: u8,
    color: u8,
    plte: &[u8],
    trns: &[u8],
    rows: &[Vec<u8>],
) -> Vec<u8> {
    let mut out = Vec::from(SIGNATURE);
    let mut ihdr = Vec::with_capacity(13);
    ihdr.extend_from_slice(&width.to_be_bytes());
    ihdr.extend_from_slice(&height.to_be_bytes());
    ihdr.extend_from_slice(&[depth, color, 0, 0, 0]);
    chunk(&mut out, b"IHDR", &ihdr);
    if !plte.is_empty() {
        chunk(&mut out, b"PLTE", plte);
    }
    if !trns.is_empty() {
        chunk(&mut out, b"tRNS", trns);
    }
    let mut raw = Vec::new();
    for row in rows {
        raw.push(0);
        raw.extend_from_slice(row);
    }
    chunk(&mut out, b"IDAT", &zlib(&raw));
    chunk(&mut out, b"IEND", &[]);
    out
}

#[test]
fn a_palette_image_expands_through_plte_and_trns() {
    // Two entries, the first marked fully transparent.
    let plte = [0xff, 0x00, 0x00, 0x00, 0x80, 0x40];
    let png = build_png(2, 1, 8, 3, &plte, &[0x00], &[vec![0, 1]]);
    assert_eq!(
        decode(&png).expect("decode").pixels,
        vec![0x00ff_0000, 0xff00_8040]
    );
}

#[test]
fn a_four_bit_palette_unpacks_two_pixels_per_byte() {
    let plte = [0, 0, 0, 0x11, 0, 0, 0x22, 0, 0, 0x33, 0, 0];
    // Indices 0,1,2,3, high nibble first.
    let png = build_png(4, 1, 4, 3, &plte, &[], &[vec![0x01, 0x23]]);
    assert_eq!(
        decode(&png).expect("decode").pixels,
        vec![0xff00_0000, 0xff11_0000, 0xff22_0000, 0xff33_0000]
    );
}

#[test]
fn a_one_bit_palette_unpacks_eight_pixels_per_byte() {
    let plte = [0, 0, 0, 0xff, 0xff, 0xff];
    let png = build_png(8, 1, 1, 3, &plte, &[], &[vec![0b1010_0101]]);
    let (w, b) = (0xffff_ffffu32, 0xff00_0000u32);
    assert_eq!(
        decode(&png).expect("decode").pixels,
        vec![w, b, w, b, b, w, b, w]
    );
}

#[test]
fn a_palette_index_past_the_table_draws_as_nothing() {
    let png = build_png(2, 1, 8, 3, &[0xff, 0, 0], &[], &[vec![0, 7]]);
    assert_eq!(
        decode(&png).expect("decode").pixels,
        vec![0xffff_0000, 0x0000_0000]
    );
}

#[test]
fn a_palette_image_without_plte_is_rejected() {
    let png = build_png(1, 1, 8, 3, &[], &[], &[vec![0]]);
    assert_eq!(decode(&png).err(), Some(DecodeError::MissingPalette));
}

#[test]
fn low_bit_depth_greys_scale_onto_the_full_range() {
    // Depth 4: 0x0 is black, 0xf is white, 0x8 lands near the middle.
    let png = build_png(3, 1, 4, 0, &[], &[], &[vec![0x0f, 0x80]]);
    let img = decode(&png).expect("decode");
    assert_eq!(img.pixels[0] & 0xff, 0);
    assert_eq!(img.pixels[1] & 0xff, 255);
    assert_eq!(img.pixels[2] & 0xff, 136);
}

#[test]
fn sixteen_bit_samples_narrow_to_their_high_byte() {
    let png = build_png(
        1,
        1,
        16,
        2,
        &[],
        &[],
        &[vec![0x12, 0x34, 0x56, 0x78, 0x9a, 0xbc]],
    );
    assert_eq!(decode(&png).expect("decode").pixels, vec![0xff12_569a]);
}

#[test]
fn grey_plus_alpha_carries_its_own_alpha() {
    let png = build_png(2, 1, 8, 4, &[], &[], &[vec![0x40, 0xff, 0x80, 0x00]]);
    assert_eq!(
        decode(&png).expect("decode").pixels,
        vec![0xff40_4040, 0x0080_8080]
    );
}

#[test]
fn a_truecolour_transparency_key_clears_matching_pixels() {
    // tRNS names pure red, stored as three 16-bit samples.
    let trns = [0x00, 0xff, 0x00, 0x00, 0x00, 0x00];
    let png = build_png(2, 1, 8, 2, &[], &trns, &[vec![0xff, 0, 0, 0, 0, 0xff]]);
    assert_eq!(
        decode(&png).expect("decode").pixels,
        vec![0x00ff_0000, 0xff00_00ff]
    );
}

#[test]
fn depths_a_colour_type_does_not_allow_are_rejected() {
    // Truecolour has no four-bit form.
    let png = build_png(1, 1, 4, 2, &[], &[], &[vec![0]]);
    assert_eq!(
        decode(&png).err(),
        Some(DecodeError::Unsupported { depth: 4, color: 2 })
    );
}

#[test]
fn what_deflate_writes_inflate_reads_back() {
    let mut data: Vec<u8> = Vec::new();
    for i in 0..5000u32 {
        data.push((i * i % 251) as u8);
        if i % 7 == 0 {
            data.extend_from_slice(b"again and again and again");
        }
    }
    assert_eq!(inflate(&zlib(&data), data.len()), Some(data.clone()));
    // One byte less than it holds is not enough room.
    assert_eq!(inflate(&zlib(&data), data.len() - 1), None);
    assert_eq!(inflate(&zlib(b""), 0), Some(Vec::new()));
}

#[test]
fn an_interlaced_file_is_refused() {
    let mut png = Vec::from(SIGNATURE);
    let mut ihdr = Vec::new();
    ihdr.extend_from_slice(&1u32.to_be_bytes());
    ihdr.extend_from_slice(&1u32.to_be_bytes());
    ihdr.extend_from_slice(&[8, 2, 0, 0, 1]);
    chunk(&mut png, b"IHDR", &ihdr);
    chunk(&mut png, b"IEND", &[]);
    assert_eq!(decode(&png).err(), Some(DecodeError::Interlaced));
}

#[test]
fn an_unknown_filter_is_refused() {
    let mut png = Vec::from(SIGNATURE);
    let mut ihdr = Vec::new();
    ihdr.extend_from_slice(&1u32.to_be_bytes());
    ihdr.extend_from_slice(&1u32.to_be_bytes());
    ihdr.extend_from_slice(&[8, 2, 0, 0, 0]);
    chunk(&mut png, b"IHDR", &ihdr);
    chunk(&mut png, b"IDAT", &zlib(&[9, 1, 2, 3]));
    chunk(&mut png, b"IEND", &[]);
    assert_eq!(decode(&png).err(), Some(DecodeError::Deflate));
}

/// Each row filtered another way over the same two pixels comes back as them.
#[test]
fn every_filter_is_undone() {
    let (a, b) = ([10u8, 20, 30], [40u8, 60, 90]);
    for filter in 0..5u8 {
        let mut raw = vec![0u8];
        raw.extend_from_slice(&a);
        raw.extend_from_slice(&b);
        // The second row holds the same pixels, filtered.
        raw.push(filter);
        for i in 0..6usize {
            let row = [a[0], a[1], a[2], b[0], b[1], b[2]];
            let x = row[i];
            let left = if i >= 3 { row[i - 3] } else { 0 };
            let up = row[i];
            let corner = if i >= 3 { row[i - 3] } else { 0 };
            let predicted = match filter {
                0 => 0u32,
                1 => left as u32,
                2 => up as u32,
                3 => (left as u32 + up as u32) / 2,
                _ => paeth(left as u32, up as u32, corner as u32),
            };
            raw.push(x.wrapping_sub(predicted as u8));
        }
        let mut png = Vec::from(SIGNATURE);
        let mut ihdr = Vec::new();
        ihdr.extend_from_slice(&2u32.to_be_bytes());
        ihdr.extend_from_slice(&2u32.to_be_bytes());
        ihdr.extend_from_slice(&[8, 2, 0, 0, 0]);
        chunk(&mut png, b"IHDR", &ihdr);
        chunk(&mut png, b"IDAT", &zlib(&raw));
        chunk(&mut png, b"IEND", &[]);
        let (p, q) = (0xff0a_141eu32, 0xff28_3c5au32);
        assert_eq!(
            decode(&png).expect("decode").pixels,
            vec![p, q, p, q],
            "filter {filter}"
        );
    }
}

#[test]
fn samples_scale_and_unpack_by_depth() {
    assert_eq!(scale8(1, 1), 255);
    assert_eq!(scale8(1, 2), 85);
    assert_eq!(scale8(0xabcd, 16), 0xab);
    assert_eq!(raw_sample(&[0b1101_0010], 2, 1), 0b01);
    assert_eq!(raw_sample(&[0x12, 0x34], 16, 0), 0x1234);
    // Past the end of the line there is nothing.
    assert_eq!(raw_sample(&[0xff], 8, 5), 0);
}

#[test]
fn strides_round_up_to_whole_bytes() {
    assert_eq!(Format::new(1, 0).expect("format").stride(9), 2);
    assert_eq!(Format::new(8, 6).expect("format").stride(3), 12);
    assert_eq!(Format::new(1, 0).expect("format").filter_bpp(), 1);
    assert_eq!(Format::new(16, 6).expect("format").filter_bpp(), 8);
    assert!(Format::new(3, 0).is_err());
}

#[test]
fn every_refusal_says_why() {
    assert_eq!(DecodeError::NotPng.message(), "not a PNG");
    assert_eq!(DecodeError::Truncated.message(), "file ends mid-chunk");
    assert_eq!(DecodeError::BadChecksum.message(), "chunk CRC mismatch");
    assert_eq!(
        DecodeError::Unsupported { depth: 4, color: 2 }.message(),
        "unsupported PNG: 4-bit colour type 2"
    );
    assert_eq!(
        DecodeError::MissingPalette.message(),
        "palette image with no PLTE chunk"
    );
    assert_eq!(
        DecodeError::Interlaced.message(),
        "interlaced PNGs are not read"
    );
    assert_eq!(
        DecodeError::TooLarge { width: 7, height: 9 }.message(),
        "image too large to decode: 7x9"
    );
    assert_eq!(
        DecodeError::Deflate.message(),
        "malformed deflate stream"
    );
}

#[test]
fn a_stream_over_the_limit_gives_nothing() {
    let data: Vec<u8> = (0..1000u32).map(|i| (i * i % 251) as u8).collect();
    let stream = zlib(&data);
    for limit in [0, 1, 500, 999] {
        assert_eq!(inflate(&stream, limit), None, "{limit}");
    }
    for limit in [1000, 1001, 100_000] {
        assert_eq!(inflate(&stream, limit), Some(data.clone()), "{limit}");
    }
}
