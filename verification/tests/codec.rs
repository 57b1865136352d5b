//! Tests for the zlib container, the PNG encoder, and the checksums they
//! rely on.

use std::io::Read;

use nft_art::color::Color;
use nft_art::image::Image;
use nft_art::png::zlib_format;

#[test]
fn test_deflate() {
    for len in [0, 1, 10, 100_000] {
        println!("Testing input length {len}");
        let input = vec![0x12; len];
        let output = zlib_format(&input);
        let mut reader = flate2::read::ZlibDecoder::new(std::io::Cursor::new(output));
        let mut inflated = Vec::new();
        reader.read_to_end(&mut inflated).unwrap();
        assert_eq!(inflated, input);
    }
}

#[test]
fn test_png() {
    let color = Color {
        red: 1,
        green: 0,
        blue: 2,
    };
    let image = Image::new(128, 128, color);

    let encoded = image.make_png();
    let decoder = png::Decoder::new(std::io::Cursor::new(encoded));
    let mut data_reader = decoder.read_info().expect("Failed to read PNG info");
    while data_reader
        .next_row()
        .expect("Failed to read PNG data")
        .is_some()
    {}
}

#[test]
fn zlib_round_trip_at_block_boundary() {
    for len in [65_535, 65_536] {
        let input: Vec<u8> = (0..len).map(|i| (i % 251) as u8).collect();
        let output = zlib_format(&input);
        let mut reader = flate2::read::ZlibDecoder::new(std::io::Cursor::new(output));
        let mut inflated = Vec::new();
        reader.read_to_end(&mut inflated).unwrap();
        assert_eq!(inflated, input);
    }
}

#[test]
fn zlib_of_empty_is_fixed_stream() {
    // The trailer of the fixed empty stream is the Adler-32 of no bytes: 1.
    let out = zlib_format(&[]);
    assert_eq!(out, vec![0x78, 0x9c, 0x03, 0x00, 0x00, 0x00, 0x00, 0x01]);
}

#[test]
fn adler32_reference_vector() {
    // Adler-32 of the ASCII bytes "Wikipedia" is 0x11E60398; zlib_format
    // appends it big-endian after the stored block.
    let out = zlib_format(b"Wikipedia");
    let trailer = &out[out.len() - 4..];
    assert_eq!(trailer, &[0x11, 0xE6, 0x03, 0x98]);
}

#[test]
fn crc32_reference_vector() {
    // The final chunk of any PNG is the empty IEND chunk, whose CRC-32 over
    // the four tag bytes has the published value 0xAE426082.
    let image = Image::new(1, 1, Color { red: 0, green: 0, blue: 0 });
    let out = image.make_png();
    let iend = &out[out.len() - 12..];
    assert_eq!(
        iend,
        &[0x00, 0x00, 0x00, 0x00, 0x49, 0x45, 0x4E, 0x44, 0xAE, 0x42, 0x60, 0x82]
    );
}

#[test]
fn png_preserves_uniform_grids() {
    for dim in [1usize, 2, 16, 128, 256] {
        for (r, c) in [(dim, dim), (dim, 1), (1, dim)] {
            let color = Color {
                red: 3,
                green: 250,
                blue: 7,
            };
            let image = Image::new(c, r, color);
            let encoded = image.make_png();
            let decoder = png::Decoder::new(std::io::Cursor::new(encoded));
            let mut reader = decoder.read_info().expect("Failed to read PNG info");
            let info = reader.info();
            assert_eq!(info.width as usize, c);
            assert_eq!(info.height as usize, r);
            assert_eq!(info.color_type, png::ColorType::Rgb);
            assert_eq!(info.bit_depth, png::BitDepth::Eight);
            let mut buf = vec![0u8; reader.output_buffer_size()];
            let frame = reader.next_frame(&mut buf).expect("Failed to read PNG data");
            let data = &buf[..frame.buffer_size()];
            assert_eq!(data.len(), r * c * 3);
            for px in data.chunks(3) {
                assert_eq!(px, &[3, 250, 7]);
            }
        }
    }
}

#[test]
fn color_hex_round_trip() {
    let c = Color::from_hex(0xE3066E);
    assert_eq!(c.red, 0xE3);
    assert_eq!(c.green, 0x06);
    assert_eq!(c.blue, 0x6E);
    assert_eq!(c.to_hex(), 0xE3066E);
}
