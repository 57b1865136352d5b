//! Tests for seed derivation, the orchestrator, and the data URI renderer.

use base64::Engine;
use rand::{thread_rng, Rng};

use nft_art::art::generate_nft;
use nft_art::color::Color;
use nft_art::fnv::FnvHasher;
use nft_art::image::{Cell, Image};
use nft_art::uri::render_data_uri;

// To run and view the art: cargo test print_art -- --nocapture
#[test]
fn print_art() {
    fn terminal_color(bg: bool, color: Color) -> String {
        let ty = if bg { 48 } else { 38 };
        format!("\x1b[{ty};2;{};{};{}m", color.red, color.green, color.blue)
    }

    let mut rng = thread_rng();
    let mut address = [0u8; 20];
    rng.fill(&mut address);
    let id = rng.gen_range(0_u64..1000);
    let mut token_le = [0u8; 32];
    token_le[..8].copy_from_slice(&id.to_le_bytes());

    println!("Generating NFT 0x{} ID {id}:", hex::encode(address));
    let image = generate_nft(&address, &token_le);
    for row_idx in (0..image.pixels.len()).step_by(2) {
        let mut line = String::new();
        for (col_idx, &top_color) in image.pixels[row_idx].iter().enumerate() {
            line += &terminal_color(false, top_color);
            if let Some(bottom_color) = image.pixels.get(row_idx + 1).map(|r| r[col_idx]) {
                line += &terminal_color(true, bottom_color);
            }
            line += "▀";
        }
        line += "\x1b[39;49m"; // reset
        println!("{line}");
    }
}

#[test]
fn fnv1a_reference_vectors() {
    let mut h = FnvHasher::new();
    h.update(&[]);
    assert_eq!(h.output(), 14695981039346656037);

    let mut h = FnvHasher::new();
    h.update(b"a");
    assert_eq!(h.output(), 0xaf63dc4c8601ec8c);

    let mut h = FnvHasher::new();
    h.update(b"foo");
    h.update(b"bar");
    assert_eq!(h.output(), 0x85944171f73967e8);
}

#[test]
fn generation_is_deterministic() {
    let address = [0xABu8; 20];
    let mut token_le = [0u8; 32];
    token_le[0] = 42;

    let first = generate_nft(&address, &token_le);
    let second = generate_nft(&address, &token_le);
    assert_eq!(first.width, second.width);
    assert_eq!(first.height, second.height);
    for y in 0..first.height {
        for x in 0..first.width {
            assert_eq!(first.get(x, y), second.get(x, y));
        }
    }
    assert_eq!(first.make_png(), second.make_png());
    assert_eq!(render_data_uri(&address, &token_le), render_data_uri(&address, &token_le));
}

#[test]
fn foreground_color_comes_from_the_seeded_generator() {
    let address = [7u8; 20];
    let token_le = [9u8; 32];

    let mut hasher = FnvHasher::new();
    hasher.update(&token_le);
    hasher.update(&address);
    let mut rng = fastrand::Rng::with_seed(hasher.output());
    let expected = Color {
        red: rng.u8(..),
        green: rng.u8(..),
        blue: rng.u8(..),
    };

    // Cell (4, 4) lies on the first foreground line.
    let image = generate_nft(&address, &token_le);
    assert_eq!(image.get(4, 4), expected);
}

#[test]
fn half_ellipse_scene_round_trips() {
    let bg = Color {
        red: 0xE3,
        green: 0x06,
        blue: 0x6E,
    };
    let fg = Color {
        red: 1,
        green: 2,
        blue: 3,
    };
    let mut image = Image::new(16, 16, bg);
    image.draw_line(Cell::new(4, 4), Cell::new(4, 6), fg);
    image.draw_line(Cell::new(10, 4), Cell::new(10, 6), fg);
    image.draw_ellipse(Cell::new(7, 9), 3, 3, [false, false, true, true], fg);

    assert_eq!(image.get(4, 4), fg);
    assert_eq!(image.get(4, 6), fg);
    assert_eq!(image.get(0, 0), bg);

    let encoded = image.make_png();
    let decoder = png::Decoder::new(std::io::Cursor::new(encoded));
    let mut reader = decoder.read_info().expect("Failed to read PNG info");
    let mut buf = vec![0u8; reader.output_buffer_size()];
    let frame = reader.next_frame(&mut buf).expect("Failed to read PNG data");
    let data = &buf[..frame.buffer_size()];
    assert_eq!(frame.width, 16);
    assert_eq!(frame.height, 16);
    for y in 0..16usize {
        for x in 0..16usize {
            let i = (y * 16 + x) * 3;
            let px = image.get(x, y);
            assert_eq!(
                [data[i], data[i + 1], data[i + 2]],
                [px.red, px.green, px.blue],
                "pixel ({x}, {y})"
            );
        }
    }
}

#[test]
fn data_uri_wraps_the_png() {
    let address = [0x11u8; 20];
    let token_le = [5u8; 32];

    let uri = render_data_uri(&address, &token_le);
    let prefix = "data:image/png;base64,";
    assert!(uri.starts_with(prefix));
    let decoded = base64::engine::general_purpose::STANDARD
        .decode(&uri[prefix.len()..])
        .expect("URI payload is not base64");
    let png = generate_nft(&address, &token_le).make_png();
    assert_eq!(decoded, png);
}
