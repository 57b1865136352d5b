//! The framebuffer: a fixed-size, row-major grid of colors, together with the
//! spec-level grid operations that the raster primitives are specified by.

use vstd::prelude::*;

use crate::color::Color;

verus! {

/// A cell on the grid: `x` is the column, `y` is the row.
#[derive(Clone, Copy, Debug, PartialEq, Eq, Structural)]
pub struct Cell {
    pub x: usize,
    pub y: usize,
}

impl Cell {
    pub fn new(x: usize, y: usize) -> (c: Cell)
        ensures
            c.x == x && c.y == y,
    {
        Cell { x, y }
    }
}

/// A grid of `height` rows, each holding `width` colors.
pub struct Image {
    pub width: usize,
    pub height: usize,
    pub pixels: Vec<Vec<Color>>,
}

/// A uniform grid: `h` rows of `w` copies of `c`.
pub open spec fn fill_grid(w: int, h: int, c: Color) -> Seq<Seq<Color>> {
    Seq::new(h as nat, |y: int| Seq::new(w as nat, |x: int| c))
}

/// The grid with the cell at column `x`, row `y` set to `c`; grids are left
/// unchanged by writes outside their bounds.
pub open spec fn set_cell(g: Seq<Seq<Color>>, x: int, y: int, c: Color) -> Seq<Seq<Color>> {
    if 0 <= y < g.len() && 0 <= x < g[y].len() {
        g.update(y, g[y].update(x, c))
    } else {
        g
    }
}

/// The grid after writing `c` to every cell of `cells` in order, skipping the
/// out-of-bounds ones.
pub open spec fn paint_cells(g: Seq<Seq<Color>>, cells: Seq<(int, int)>, c: Color) -> Seq<Seq<
    Color,
>>
    decreases cells.len(),
{
    if cells.len() == 0 {
        g
    } else {
        paint_cells(set_cell(g, cells[0].0, cells[0].1, c), cells.skip(1), c)
    }
}

/// Painting never changes the shape of the grid.
pub proof fn lemma_paint_cells_shape(g: Seq<Seq<Color>>, cells: Seq<(int, int)>, c: Color)
    ensures
        paint_cells(g, cells, c).len() == g.len(),
        forall|y: int|
            0 <= y < g.len() ==> (#[trigger] paint_cells(g, cells, c)[y]).len() == g[y].len(),
    decreases cells.len(),
{
    if cells.len() > 0 {
        lemma_paint_cells_shape(set_cell(g, cells[0].0, cells[0].1, c), cells.skip(1), c);
    }
}

/// What painting does, cell by cell: a painted cell holds the color, every
/// other cell is untouched.
pub proof fn lemma_paint_cells_at(
    g: Seq<Seq<Color>>,
    cells: Seq<(int, int)>,
    c: Color,
    x: int,
    y: int,
)
    requires
        0 <= y < g.len(),
        0 <= x < g[y].len(),
    ensures
        paint_cells(g, cells, c)[y][x] == if cells.contains((x, y)) {
            c
        } else {
            g[y][x]
        },
    decreases cells.len(),
{
    if cells.len() > 0 {
        let g1 = set_cell(g, cells[0].0, cells[0].1, c);
        assert(g1.len() == g.len() && g1[y].len() == g[y].len());
        lemma_paint_cells_at(g1, cells.skip(1), c, x, y);
        if cells.contains((x, y)) {
            if cells[0] != (x, y) {
                assert(cells.skip(1).contains((x, y))) by {
                    let i = choose|i: int| 0 <= i < cells.len() && cells[i] == (x, y);
                    assert(cells.skip(1)[i - 1] == (x, y));
                }
            }
        } else {
            assert(!cells.skip(1).contains((x, y))) by {
                if cells.skip(1).contains((x, y)) {
                    let i = choose|i: int|
                        0 <= i < cells.skip(1).len() && cells.skip(1)[i] == (x, y);
                    assert(cells[i + 1] == (x, y));
                }
            }
        }
    }
}

/// Painting one more cell at the end of the list is one more write.
pub proof fn lemma_paint_cells_snoc(g: Seq<Seq<Color>>, cells: Seq<(int, int)>, p: (int, int), c: Color)
    ensures
        paint_cells(g, cells.push(p), c) == set_cell(paint_cells(g, cells, c), p.0, p.1, c),
    decreases cells.len(),
{
    if cells.len() == 0 {
        assert(cells.push(p)[0] == p);
        assert(cells.push(p).skip(1) =~= Seq::<(int, int)>::empty());
        assert(paint_cells(g, cells.push(p), c) == paint_cells(
            set_cell(g, p.0, p.1, c),
            Seq::<(int, int)>::empty(),
            c,
        ));
        assert(paint_cells(set_cell(g, p.0, p.1, c), Seq::<(int, int)>::empty(), c) == set_cell(
            g,
            p.0,
            p.1,
            c,
        ));
        assert(paint_cells(g, cells, c) == g);
    } else {
        assert(cells.push(p)[0] == cells[0]);
        assert(cells.push(p).skip(1) =~= cells.skip(1).push(p));
        lemma_paint_cells_snoc(set_cell(g, cells[0].0, cells[0].1, c), cells.skip(1), p, c);
    }
}

/// The integer blend weight at cell (`x`, `y`): 100·(x + y)/(w + h), rounded
/// down.
pub open spec fn blend_of(x: int, y: int, w: int, h: int) -> int {
    100 * (x + y) / (w + h)
}

/// One blended channel: (start·blend + end·(100 − blend))/100, rounded down.
pub open spec fn lerp_channel(s: u8, e: u8, blend: int) -> int {
    (s * blend + e * (100 - blend)) / 100
}

/// The gradient color at cell (`x`, `y`) of a `w` by `h` grid.
pub open spec fn gradient_color(start: Color, end: Color, x: int, y: int, w: int, h: int) -> Color {
    let b = blend_of(x, y, w, h);
    Color {
        red: lerp_channel(start.red, end.red, b) as u8,
        green: lerp_channel(start.green, end.green, b) as u8,
        blue: lerp_channel(start.blue, end.blue, b) as u8,
    }
}

/// The whole diagonal gradient from `start` to `end` on a `w` by `h` grid.
pub open spec fn gradient_grid(w: int, h: int, start: Color, end: Color) -> Seq<Seq<Color>> {
    Seq::new(h as nat, |y: int| Seq::new(w as nat, |x: int| gradient_color(start, end, x, y, w, h)))
}

/// The blend weight is always within 0..100, and each blended channel fits a
/// byte.
proof fn lemma_lerp_bounds(s: u8, e: u8, x: int, y: int, w: int, h: int)
    requires
        0 <= x < w,
        0 <= y < h,
    ensures
        0 <= blend_of(x, y, w, h) < 100,
        0 <= lerp_channel(s, e, blend_of(x, y, w, h)) < 256,
{
    let b = blend_of(x, y, w, h);
    assert(100 * (x + y) < 100 * (w + h)) by (nonlinear_arith)
        requires x + y < w + h;
    assert(0 <= b < 100) by (nonlinear_arith)
        requires 0 <= 100 * (x + y) < 100 * (w + h), 0 < w + h, b == 100 * (x + y) / (w + h);
    assert(s * b + e * (100 - b) <= 255 * 100) by (nonlinear_arith)
        requires 0 <= b <= 100, s <= 255, e <= 255;
    assert(s * b + e * (100 - b) >= 0) by (nonlinear_arith)
        requires 0 <= b <= 100;
}

impl Image {
    /// The mathematical view: one sequence of colors per row, top to bottom.
    pub open spec fn grid(self) -> Seq<Seq<Color>> {
        Seq::new(self.pixels@.len() as nat, |y: int| self.pixels@[y]@)
    }

    /// Well-formed: both dimensions at least one, every row exactly `width`
    /// long, and both dimensions small enough for the PNG header's 32-bit
    /// dimension fields.
    pub open spec fn wf(self) -> bool {
        &&& 1 <= self.width <= 0xFFFF_FFFF
        &&& 1 <= self.height <= 0xFFFF_FFFF
        &&& self.pixels@.len() == self.height
        &&& forall|y: int| 0 <= y < self.height ==> (#[trigger] self.pixels@[y])@.len()
            == self.width
    }

    /// Creates a grid of the given dimensions with every cell set to
    /// `bg_color`.
    pub fn new(width: usize, height: usize, bg_color: Color) -> (img: Image)
        requires
            1 <= width <= 0xFFFF_FFFF,
            1 <= height <= 0xFFFF_FFFF,
        ensures
            img.wf(),
            img.width == width,
            img.height == height,
            img.grid() == fill_grid(width as int, height as int, bg_color),
    {
        let mut pixels: Vec<Vec<Color>> = Vec::new();
        let mut y: usize = 0;
        while y < height
            invariant
                y <= height,
                pixels@.len() == y,
                forall|i: int|
                    0 <= i < y ==> (#[trigger] pixels@[i])@ == Seq::new(
                        width as nat,
                        |x: int| bg_color,
                    ),
            decreases height - y,
        {
            let row: Vec<Color> = vec![bg_color; width];
            proof {
                assert(row@ =~= Seq::new(width as nat, |x: int| bg_color));
            }
            pixels.push(row);
            y = y + 1;
        }
        let img = Image { width, height, pixels };
        proof {
            assert(img.grid() =~= fill_grid(width as int, height as int, bg_color));
        }
        img
    }

    /// Writes `color` at column `x`, row `y` if that cell exists; out-of-bounds
    /// coordinates are silently dropped.
    pub fn try_set(&mut self, x: usize, y: usize, color: Color)
        requires
            old(self).wf(),
        ensures
            final(self).wf(),
            final(self).width == old(self).width,
            final(self).height == old(self).height,
            final(self).grid() == set_cell(old(self).grid(), x as int, y as int, color),
    {
        if x < self.width && y < self.height {
            self.pixels[y][x] = color;
            proof {
                assert(self.grid() =~= set_cell(
                    old(self).grid(),
                    x as int,
                    y as int,
                    color,
                ));
            }
        }
    }

    /// Reads the color at column `x`, row `y`.
    pub fn get(&self, x: usize, y: usize) -> (c: Color)
        requires
            self.wf(),
            x < self.width,
            y < self.height,
        ensures
            c == self.grid()[y as int][x as int],
    {
        self.pixels[y][x]
    }

    /// Overwrites every cell with the diagonal gradient from `start` to `end`:
    /// the blend weight grows with x + y, purely in integer arithmetic.
    pub fn draw_gradient(&mut self, start: Color, end: Color)
        requires
            old(self).wf(),
        ensures
            final(self).wf(),
            final(self).width == old(self).width,
            final(self).height == old(self).height,
            final(self).grid() == gradient_grid(
                old(self).width as int,
                old(self).height as int,
                start,
                end,
            ),
    {
        let w = self.width;
        let h = self.height;
        let ghost gspec = gradient_grid(w as int, h as int, start, end);
        let mut x: usize = 0;
        while x < w
            invariant
                self.wf(),
                old(self).wf(),
                self.width == w,
                self.height == h,
                old(self).width == w,
                old(self).height == h,
                x <= w,
                gspec == gradient_grid(w as int, h as int, start, end),
                forall|yy: int, xx: int|
                    0 <= yy < h && 0 <= xx < w ==> #[trigger] self.grid()[yy][xx] == if xx < x {
                        gspec[yy][xx]
                    } else {
                        old(self).grid()[yy][xx]
                    },
            decreases w - x,
        {
            let mut y: usize = 0;
            while y < h
                invariant
                    self.wf(),
                    old(self).wf(),
                    self.width == w,
                    self.height == h,
                    old(self).width == w,
                    old(self).height == h,
                    x < w,
                    y <= h,
                    gspec == gradient_grid(w as int, h as int, start, end),
                    forall|yy: int, xx: int|
                        0 <= yy < h && 0 <= xx < w ==> #[trigger] self.grid()[yy][xx] == if xx < x
                            || (xx == x && yy < y) {
                            gspec[yy][xx]
                        } else {
                            old(self).grid()[yy][xx]
                        },
                decreases h - y,
            {
                proof {
                    lemma_lerp_bounds(start.red, end.red, x as int, y as int, w as int, h as int);
                    lemma_lerp_bounds(
                        start.green,
                        end.green,
                        x as int,
                        y as int,
                        w as int,
                        h as int,
                    );
                    lemma_lerp_bounds(start.blue, end.blue, x as int, y as int, w as int, h as int);
                }
                let blend: u64 = 100u64 * (x as u64 + y as u64) / (w as u64 + h as u64);
                proof {
                    assert(blend == blend_of(x as int, y as int, w as int, h as int));
                }
                let color = Color {
                    red: (((start.red as u64) * blend + (end.red as u64) * (100 - blend))
                        / 100) as u8,
                    green: (((start.green as u64) * blend + (end.green as u64) * (100 - blend))
                        / 100) as u8,
                    blue: (((start.blue as u64) * blend + (end.blue as u64) * (100 - blend))
                        / 100) as u8,
                };
                let ghost prev = self.grid();
                self.pixels[y][x] = color;
                proof {
                    assert(color == gradient_color(
                        start,
                        end,
                        x as int,
                        y as int,
                        w as int,
                        h as int,
                    ));
                    assert(gspec[y as int][x as int] == gradient_color(
                        start,
                        end,
                        x as int,
                        y as int,
                        w as int,
                        h as int,
                    ));
                    assert(forall|yy: int|
                        0 <= yy < h && yy != y ==> #[trigger] self.grid()[yy] == prev[yy]);
                    assert(self.grid()[y as int] == prev[y as int].update(x as int, color));
                    assert forall|yy: int, xx: int| 0 <= yy < h && 0 <= xx < w implies #[trigger] self.grid()[yy][xx]
                        == if xx < x || (xx == x && yy < y + 1) {
                        gspec[yy][xx]
                    } else {
                        old(self).grid()[yy][xx]
                    } by {
                        if yy == y {
                            assert(self.grid()[yy][xx] == if xx == x {
                                color
                            } else {
                                prev[yy][xx]
                            });
                        } else {
                            assert(self.grid()[yy][xx] == prev[yy][xx]);
                        }
                    }
                }
                y = y + 1;
            }
            x = x + 1;
        }
        proof {
            assert(self.grid() =~~= gspec);
        }
    }
}

} // verus!
