//! Tests for the raster primitives: lines, ellipses, and the gradient.

use std::collections::HashSet;

use nft_art::color::Color;
use nft_art::image::{Cell, Image};

const BG: Color = Color {
    red: 0,
    green: 0,
    blue: 0,
};
const FG: Color = Color {
    red: 255,
    green: 255,
    blue: 255,
};

fn painted(image: &Image) -> HashSet<(usize, usize)> {
    let mut cells = HashSet::new();
    for y in 0..image.height {
        for x in 0..image.width {
            if image.get(x, y) != BG {
                cells.insert((x, y));
            }
        }
    }
    cells
}

#[test]
fn line_paints_endpoints_and_exact_cell_count() {
    let cases = [
        ((2, 3), (11, 7)),
        ((11, 7), (2, 3)),
        ((4, 4), (4, 6)),
        ((1, 5), (9, 5)),
        ((3, 3), (8, 8)),
        ((5, 5), (5, 5)),
    ];
    for (start, end) in cases {
        let mut image = Image::new(20, 20, BG);
        image.draw_line(Cell::new(start.0, start.1), Cell::new(end.0, end.1), FG);
        let cells = painted(&image);
        assert!(cells.contains(&start), "start {start:?} not painted");
        assert!(cells.contains(&end), "end {end:?} not painted");
        let dx = end.0.abs_diff(start.0);
        let dy = end.1.abs_diff(start.1);
        assert_eq!(cells.len(), dx.max(dy) + 1, "cells for {start:?}->{end:?}");
    }
}

#[test]
fn line_clips_out_of_bounds_cells() {
    let mut image = Image::new(4, 4, BG);
    image.draw_line(Cell::new(0, 0), Cell::new(9, 9), FG);
    for d in 0..4 {
        assert_eq!(image.get(d, d), FG);
    }
    assert_eq!(painted(&image).len(), 4);
}

#[test]
fn circle_point_set_is_rotation_symmetric() {
    // All four quadrants and a == b: the painted set maps to itself under a
    // 90-degree rotation about the center.
    for r in [1usize, 2, 3, 5] {
        let mut image = Image::new(21, 21, BG);
        image.draw_ellipse(Cell::new(10, 10), r, r, [true, true, true, true], FG);
        let cells = painted(&image);
        for &(x, y) in &cells {
            let (u, v) = (x as i64 - 10, y as i64 - 10);
            // (u, v) -> (v, -u) is a quarter turn.
            let rotated = ((10 + v) as usize, (10 - u) as usize);
            assert!(
                cells.contains(&rotated),
                "radius {r}: rotated image of ({x}, {y}) missing"
            );
        }
    }
}

#[test]
fn ellipse_respects_quadrant_mask() {
    let mut image = Image::new(21, 21, BG);
    image.draw_ellipse(Cell::new(10, 10), 4, 4, [false, false, true, true], FG);
    let cells = painted(&image);
    // The bottom-half arc: no cell strictly above the center row.
    for &(_, y) in &cells {
        assert!(y >= 10);
    }
    assert!(cells.contains(&(14, 10)));
    assert!(cells.contains(&(6, 10)));
    assert!(cells.contains(&(10, 14)));
    assert!(!cells.contains(&(10, 6)));
}

#[test]
fn flat_ellipse_cap_closes_the_top_and_bottom() {
    // A very flat ellipse (a = 1) ends its arc early; the cap pass must
    // still paint the full top and bottom columns.
    let mut image = Image::new(21, 21, BG);
    image.draw_ellipse(Cell::new(10, 10), 1, 5, [true, true, true, true], FG);
    let cells = painted(&image);
    assert!(cells.contains(&(10, 5)));
    assert!(cells.contains(&(10, 15)));
}

#[test]
fn gradient_matches_integer_blend_formula() {
    let start = Color {
        red: 200,
        green: 14,
        blue: 3,
    };
    let end = Color {
        red: 10,
        green: 250,
        blue: 99,
    };
    let (w, h) = (5usize, 3usize);
    let mut image = Image::new(w, h, BG);
    image.draw_gradient(start, end);
    for y in 0..h {
        for x in 0..w {
            let blend = 100 * (x + y) / (w + h);
            let lerp = |s: u8, e: u8| ((s as usize * blend + e as usize * (100 - blend)) / 100) as u8;
            let expected = Color {
                red: lerp(start.red, end.red),
                green: lerp(start.green, end.green),
                blue: lerp(start.blue, end.blue),
            };
            assert_eq!(image.get(x, y), expected, "cell ({x}, {y})");
        }
    }
}
