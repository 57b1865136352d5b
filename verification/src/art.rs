//! The image orchestrator: seed derivation, seeded color picking, and the
//! fixed drawing sequence for a token's image.

use vstd::prelude::*;

use crate::color::Color;
use crate::ellipse::ellipse_cells;
use crate::fnv::{fnv1a_update_spec, FnvHasher, FNV_OFFSET_BASIS};
use crate::image::{gradient_grid, paint_cells, Cell, Image};
use crate::line::line_cells;

verus! {

/// The three bytes drawn from the seeded generator, in the fixed query
/// order red, green, blue.
pub uninterp spec fn fg_bytes_of(seed: u64) -> (u8, u8, u8);

/// Relies on fastrand::Rng::with_seed and Rng::u8: one generator is seeded
/// with `seed` and queried once per channel over the full byte range, so
/// the three bytes depend on the seed alone.
#[verifier::external_body]
fn pick_fg_bytes(seed: u64) -> (r: (u8, u8, u8))
    ensures
        r == fg_bytes_of(seed),
{
    let mut rng = fastrand::Rng::with_seed(seed);
    let red = rng.u8(..);
    let green = rng.u8(..);
    let blue = rng.u8(..);
    (red, green, blue)
}

/// The seed for a token: FNV-1a over the token id bytes (little-endian)
/// followed by the identity bytes, in that order.
pub open spec fn seed_of(token_le: Seq<u8>, identity: Seq<u8>) -> u64 {
    fnv1a_update_spec(fnv1a_update_spec(FNV_OFFSET_BASIS, token_le), identity)
}

/// The foreground color picked for a seed.
pub open spec fn fg_color_of(seed: u64) -> Color {
    Color {
        red: fg_bytes_of(seed).0,
        green: fg_bytes_of(seed).1,
        blue: fg_bytes_of(seed).2,
    }
}

/// The finished 32 by 32 grid for a token: a red-to-blue diagonal gradient,
/// two vertical foreground lines, and the lower half of a circle of radius
/// three, all in the foreground color picked from the seed.
pub open spec fn nft_grid(identity: Seq<u8>, token_le: Seq<u8>) -> Seq<Seq<Color>> {
    let fg = fg_color_of(seed_of(token_le, identity));
    let g1 = gradient_grid(
        32,
        32,
        Color { red: 0xFF, green: 0, blue: 0 },
        Color { red: 0, green: 0, blue: 0xFF },
    );
    let g2 = paint_cells(g1, line_cells(4, 4, 4, 6), fg);
    let g3 = paint_cells(g2, line_cells(10, 4, 10, 6), fg);
    paint_cells(g3, ellipse_cells(7, 9, 3, 3, false, false, true, true), fg)
}

/// Generates the image for a token. The result is pinned to `nft_grid`, a
/// function of the two inputs alone, so two calls with equal arguments
/// yield identical grids.
pub fn generate_nft(identity: &[u8], token_id_le: &[u8]) -> (img: Image)
    ensures
        img.wf(),
        img.width == 32,
        img.height == 32,
        img.grid() == nft_grid(identity@, token_id_le@),
{
    let mut hasher = FnvHasher::new();
    hasher.update(token_id_le);
    hasher.update(identity);
    let (red, green, blue) = pick_fg_bytes(hasher.output());
    let fg_color = Color { red, green, blue };
    let bg_color = Color::from_hex(0xE3066E);
    let mut image = Image::new(32, 32, bg_color);
    image.draw_gradient(Color::from_hex(0xFF0000), Color::from_hex(0x0000FF));
    image.draw_line(Cell::new(4, 4), Cell::new(4, 6), fg_color);
    image.draw_line(Cell::new(10, 4), Cell::new(10, 6), fg_color);
    image.draw_ellipse(Cell::new(7, 9), 3, 3, [false, false, true, true], fg_color);
    proof {
        assert(fg_color == fg_color_of(seed_of(token_id_le@, identity@)));
    }
    image
}

} // verus!
