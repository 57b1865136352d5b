//! Bresenham line drawing, modeled by an explicit spec-level trace of the
//! painted cells.

use vstd::prelude::*;

use crate::color::Color;
use crate::image::{lemma_paint_cells_at, lemma_paint_cells_snoc, paint_cells, set_cell, Cell, Image};

verus! {

/// |a|.
pub open spec fn iabs(a: int) -> int {
    if a >= 0 {
        a
    } else {
        -a
    }
}

/// The larger of `a` and `b`.
pub open spec fn imax(a: int, b: int) -> int {
    if a >= b {
        a
    } else {
        b
    }
}

/// The step direction along one axis: +1 toward a larger end coordinate,
/// otherwise −1.
pub open spec fn line_step(c0: int, e: int) -> int {
    if e > c0 {
        1
    } else {
        -1
    }
}

/// How many steps of direction `s` remain from `c` to `e`.
pub open spec fn line_rem(c: int, e: int, s: int) -> int {
    if s == 1 {
        e - c
    } else {
        c - e
    }
}

/// The remaining steps on both axes together; strictly falls at every
/// iteration of the line loop.
pub open spec fn line_prog(cx: int, cy: int, ex: int, ey: int, sx: int, sy: int) -> int {
    line_rem(cx, ex, sx) + line_rem(cy, ey, sy)
}

/// A reachable state of the line loop: `dx` and `dy` are the fixed error
/// increments (dx ≥ 0 ≥ dy), the step directions are units, the remaining
/// step counts sit between 0 and the axis totals, and the accumulated error
/// is exactly determined by the remaining counts.
pub open spec fn line_ok(
    x: int,
    y: int,
    err: int,
    ex: int,
    ey: int,
    dx: int,
    dy: int,
    sx: int,
    sy: int,
) -> bool {
    let rx = line_rem(x, ex, sx);
    let ry = line_rem(y, ey, sy);
    &&& dx >= 0
    &&& dy <= 0
    &&& (sx == 1 || sx == -1)
    &&& (sy == 1 || sy == -1)
    &&& 0 <= rx <= dx
    &&& 0 <= ry <= -dy
    &&& err == dx + dy - dy * rx - dx * ry
}

/// The cells the line loop still paints from state (`x`, `y`, `err`): one
/// cell per iteration, after the axis advances of that iteration.
pub open spec fn line_rest(
    x: int,
    y: int,
    err: int,
    ex: int,
    ey: int,
    dx: int,
    dy: int,
    sx: int,
    sy: int,
) -> Seq<(int, int)>
    decreases line_prog(x, y, ex, ey, sx, sy)
        when line_ok(x, y, err, ex, ey, dx, dy, sx, sy)
{
    if x == ex && y == ey {
        Seq::empty()
    } else {
        let e2 = 2 * err;
        let xn = if e2 >= dy {
            x + sx
        } else {
            x
        };
        let e1 = if e2 >= dy {
            err + dy
        } else {
            err
        };
        let yn = if e2 <= dx {
            y + sy
        } else {
            y
        };
        let en = if e2 <= dx {
            e1 + dx
        } else {
            e1
        };
        proof {
            lemma_line_advance(x, y, err, ex, ey, dx, dy, sx, sy);
        }
        seq![(xn, yn)] + line_rest(xn, yn, en, ex, ey, dx, dy, sx, sy)
    }
}

/// One iteration of the line loop from a valid, unfinished state advances at
/// least one axis, stays valid, and strictly lowers the remaining step count;
/// a fired x-branch (resp. y-branch) still has x-steps (resp. y-steps) left.
pub proof fn lemma_line_advance(
    x: int,
    y: int,
    err: int,
    ex: int,
    ey: int,
    dx: int,
    dy: int,
    sx: int,
    sy: int,
)
    requires
        line_ok(x, y, err, ex, ey, dx, dy, sx, sy),
        !(x == ex && y == ey),
    ensures
        2 * err >= dy || 2 * err <= dx,
        2 * err >= dy ==> line_rem(x, ex, sx) >= 1,
        2 * err <= dx ==> line_rem(y, ey, sy) >= 1,
        ({
            let e2 = 2 * err;
            let xn = if e2 >= dy {
                x + sx
            } else {
                x
            };
            let e1 = if e2 >= dy {
                err + dy
            } else {
                err
            };
            let yn = if e2 <= dx {
                y + sy
            } else {
                y
            };
            let en = if e2 <= dx {
                e1 + dx
            } else {
                e1
            };
            &&& line_ok(xn, yn, en, ex, ey, dx, dy, sx, sy)
            &&& line_rem(xn, ex, sx) == line_rem(x, ex, sx) - (if e2 >= dy {
                1int
            } else {
                0int
            })
            &&& line_rem(yn, ey, sy) == line_rem(y, ey, sy) - (if e2 <= dx {
                1int
            } else {
                0int
            })
            &&& 0 <= line_prog(xn, yn, ex, ey, sx, sy) < line_prog(x, y, ex, ey, sx, sy)
        }),
{
    let rx = line_rem(x, ex, sx);
    let ry = line_rem(y, ey, sy);
    assert(rx >= 1 || ry >= 1);
    if 2 * err >= dy && rx == 0 {
        assert(false) by (nonlinear_arith)
            requires
                err == dx + dy - dy * 0 - dx * ry,
                2 * err >= dy,
                dx >= 0,
                dy <= 0,
                ry >= 1,
                -dy >= ry,
        ;
    }
    if 2 * err <= dx && ry == 0 {
        assert(false) by (nonlinear_arith)
            requires
                err == dx + dy - dy * rx - dx * 0,
                2 * err <= dx,
                dx >= rx,
                dy <= 0,
                rx >= 1,
        ;
    }
    let e2 = 2 * err;
    let b1: int = if e2 >= dy {
        1
    } else {
        0
    };
    let b2: int = if e2 <= dx {
        1
    } else {
        0
    };
    let xn = if e2 >= dy {
        x + sx
    } else {
        x
    };
    let yn = if e2 <= dx {
        y + sy
    } else {
        y
    };
    let en = err + b1 * dy + b2 * dx;
    let rxn = line_rem(xn, ex, sx);
    let ryn = line_rem(yn, ey, sy);
    assert(rxn == rx - b1);
    assert(ryn == ry - b2);
    assert(en == dx + dy - dy * rxn - dx * ryn) by (nonlinear_arith)
        requires
            err == dx + dy - dy * rx - dx * ry,
            rxn == rx - b1,
            ryn == ry - b2,
            en == err + b1 * dy + b2 * dx,
            (b1 == 0 || b1 == 1) && (b2 == 0 || b2 == 1),
    ;
    assert(en == if e2 <= dx {
        (if e2 >= dy {
            err + dy
        } else {
            err
        }) + dx
    } else {
        if e2 >= dy {
            err + dy
        } else {
            err
        }
    });
}

/// The facts that make the line loop correct, proved along the whole
/// remaining trace by induction: the trace has exactly `max(rx, ry)` cells,
/// ends at the endpoint, stays between the current cell and the endpoint,
/// and its remaining-step progress falls strictly, so its cells are pairwise
/// distinct.
pub proof fn lemma_line_rest_props(
    x: int,
    y: int,
    err: int,
    ex: int,
    ey: int,
    dx: int,
    dy: int,
    sx: int,
    sy: int,
)
    requires
        line_ok(x, y, err, ex, ey, dx, dy, sx, sy),
        dx >= -dy ==> 2 * err >= dy,
        -dy >= dx ==> 2 * err <= dx,
    ensures
        ({
            let tr = line_rest(x, y, err, ex, ey, dx, dy, sx, sy);
            let rx = line_rem(x, ex, sx);
            let ry = line_rem(y, ey, sy);
            &&& tr.len() == imax(rx, ry)
            &&& tr.len() > 0 ==> tr[tr.len() - 1] == (ex, ey)
            &&& forall|i: int|
                0 <= i < tr.len() ==> {
                    &&& 0 <= line_rem((#[trigger] tr[i]).0, ex, sx) <= rx
                    &&& 0 <= line_rem(tr[i].1, ey, sy) <= ry
                    &&& line_prog(tr[i].0, tr[i].1, ex, ey, sx, sy) < line_prog(
                        x,
                        y,
                        ex,
                        ey,
                        sx,
                        sy,
                    )
                }
            &&& forall|i: int, j: int|
                0 <= i < j < tr.len() ==> line_prog(
                    (#[trigger] tr[j]).0,
                    tr[j].1,
                    ex,
                    ey,
                    sx,
                    sy,
                ) < line_prog((#[trigger] tr[i]).0, tr[i].1, ex, ey, sx, sy)
        }),
    decreases line_prog(x, y, ex, ey, sx, sy),
{
    let tr = line_rest(x, y, err, ex, ey, dx, dy, sx, sy);
    let rx = line_rem(x, ex, sx);
    let ry = line_rem(y, ey, sy);
    if x == ex && y == ey {
        assert(rx == 0 && ry == 0);
        assert(tr.len() == 0);
    } else {
        lemma_line_advance(x, y, err, ex, ey, dx, dy, sx, sy);
        let e2 = 2 * err;
        let b1: int = if e2 >= dy {
            1
        } else {
            0
        };
        let b2: int = if e2 <= dx {
            1
        } else {
            0
        };
        let xn = if e2 >= dy {
            x + sx
        } else {
            x
        };
        let yn = if e2 <= dx {
            y + sy
        } else {
            y
        };
        let en = err + b1 * dy + b2 * dx;
        assert(en == if e2 <= dx {
            (if e2 >= dy {
                err + dy
            } else {
                err
            }) + dx
        } else {
            if e2 >= dy {
                err + dy
            } else {
                err
            }
        });
        let rxn = line_rem(xn, ex, sx);
        let ryn = line_rem(yn, ey, sy);
        let rest = line_rest(xn, yn, en, ex, ey, dx, dy, sx, sy);
        assert(tr == seq![(xn, yn)] + rest);

        // The invariant pair carries to the next state.
        if dx >= -dy {
            assert(b1 == 1);
            if b2 == 1 {
                assert(2 * en >= dy);
            } else {
                assert(2 * en == 2 * err + 2 * dy > dx + 2 * dy >= -dy + 2 * dy == dy);
            }
            // On the x-major side, at least as many x-steps as y-steps remain.
            assert(rx >= ry) by (nonlinear_arith)
                requires
                    err == dx + dy - dy * rx - dx * ry,
                    2 * err >= dy,
                    dx >= -dy,
                    dy <= 0,
                    0 <= rx,
                    0 <= ry <= -dy,
            ;
            if b2 == 0 {
                // Only x advanced, so strictly more x-steps than y-steps remain.
                assert(rx > ry) by (nonlinear_arith)
                    requires
                        err == dx + dy - dy * rx - dx * ry,
                        2 * err > dx,
                        dx >= -dy,
                        dy <= 0,
                        1 <= rx,
                        0 <= ry <= -dy,
                        rx >= ry,
                ;
            }
        }
        if -dy >= dx {
            assert(b2 == 1);
            if b1 == 1 {
                assert(2 * en <= dx);
            } else {
                assert(2 * en == 2 * err + 2 * dx < dy + 2 * dx <= dx);
            }
            assert(ry >= rx) by (nonlinear_arith)
                requires
                    err == dx + dy - dy * rx - dx * ry,
                    2 * err <= dx,
                    -dy >= dx,
                    dy <= 0,
                    0 <= rx <= dx,
                    0 <= ry,
            ;
            if b1 == 0 {
                assert(ry > rx) by (nonlinear_arith)
                    requires
                        err == dx + dy - dy * rx - dx * ry,
                        2 * err < dy,
                        -dy >= dx,
                        dy <= 0,
                        0 <= rx <= dx,
                        1 <= ry,
                        ry >= rx,
                ;
            }
        }
        lemma_line_rest_props(xn, yn, en, ex, ey, dx, dy, sx, sy);
        assert(rest.len() == imax(rxn, ryn));
        assert(rxn == rx - b1 && ryn == ry - b2);
        assert(imax(rxn, ryn) + 1 == imax(rx, ry));
        assert(tr.len() == imax(rx, ry));

        // The endpoint closes the trace.
        if rest.len() > 0 {
            assert(tr[tr.len() - 1] == rest[rest.len() - 1]);
        } else {
            assert(rxn == 0 && ryn == 0);
            assert(xn == ex && yn == ey);
            assert(tr[0] == (xn, yn));
        }

        // Per-element facts: the head is the next state, the tail is covered
        // by the induction hypothesis.
        assert(tr[0] == (xn, yn));
        assert(forall|i: int| 1 <= i < tr.len() ==> #[trigger] tr[i] == rest[i - 1]);
        assert(line_prog(xn, yn, ex, ey, sx, sy) < line_prog(x, y, ex, ey, sx, sy));
        assert forall|i: int| 0 <= i < tr.len() implies {
            &&& 0 <= line_rem((#[trigger] tr[i]).0, ex, sx) <= rx
            &&& 0 <= line_rem(tr[i].1, ey, sy) <= ry
            &&& line_prog(tr[i].0, tr[i].1, ex, ey, sx, sy) < line_prog(x, y, ex, ey, sx, sy)
        } by {
            if i == 0 {
                assert(tr[i] == (xn, yn));
            } else {
                assert(tr[i] == rest[i - 1]);
            }
        }
        assert forall|i: int, j: int| 0 <= i < j < tr.len() implies line_prog(
            (#[trigger] tr[j]).0,
            tr[j].1,
            ex,
            ey,
            sx,
            sy,
        ) < line_prog((#[trigger] tr[i]).0, tr[i].1, ex, ey, sx, sy) by {
            assert(tr[j] == rest[j - 1]);
            if i == 0 {
                assert(tr[i] == (xn, yn));
                assert(line_prog(rest[j - 1].0, rest[j - 1].1, ex, ey, sx, sy) < line_prog(
                    xn,
                    yn,
                    ex,
                    ey,
                    sx,
                    sy,
                ));
            } else {
                assert(tr[i] == rest[i - 1]);
            }
        }
    }
}

/// The smaller of `a` and `b`.
pub open spec fn imin(a: int, b: int) -> int {
    if a <= b {
        a
    } else {
        b
    }
}

/// All cells painted by a line from (`x0`, `y0`) to (`ex`, `ey`): the start
/// cell, then one cell per loop iteration, in paint order.
pub open spec fn line_cells(x0: int, y0: int, ex: int, ey: int) -> Seq<(int, int)> {
    let dx = iabs(ex - x0);
    let dy = -iabs(ey - y0);
    let sx = line_step(x0, ex);
    let sy = line_step(y0, ey);
    seq![(x0, y0)] + line_rest(x0, y0, dx + dy, ex, ey, dx, dy, sx, sy)
}

/// The initial loop state is valid and satisfies the major-axis invariant.
proof fn lemma_line_init(x0: int, y0: int, ex: int, ey: int)
    ensures
        ({
            let dx = iabs(ex - x0);
            let dy = -iabs(ey - y0);
            let sx = line_step(x0, ex);
            let sy = line_step(y0, ey);
            &&& line_ok(x0, y0, dx + dy, ex, ey, dx, dy, sx, sy)
            &&& dx >= -dy ==> 2 * (dx + dy) >= dy
            &&& -dy >= dx ==> 2 * (dx + dy) <= dx
        }),
{
    let dx = iabs(ex - x0);
    let dy = -iabs(ey - y0);
    let sx = line_step(x0, ex);
    let sy = line_step(y0, ey);
    let rx = line_rem(x0, ex, sx);
    let ry = line_rem(y0, ey, sy);
    assert(rx == dx && ry == -dy);
    assert(dx + dy == dx + dy - dy * rx - dx * ry) by (nonlinear_arith)
        requires
            rx == dx,
            ry == -dy,
    ;
}

/// A drawn line paints the start cell first, the end cell last, exactly
/// max(|ex − x0|, |ey − y0|) + 1 pairwise distinct cells in all, and never
/// leaves the bounding box of the two endpoints.
pub proof fn lemma_line_cells_props(x0: int, y0: int, ex: int, ey: int)
    ensures
        ({
            let tr = line_cells(x0, y0, ex, ey);
            &&& tr.len() == 1 + imax(iabs(ex - x0), iabs(ey - y0))
            &&& tr[0] == (x0, y0)
            &&& tr[tr.len() - 1] == (ex, ey)
            &&& forall|i: int|
                0 <= i < tr.len() ==> imin(x0, ex) <= (#[trigger] tr[i]).0 <= imax(x0, ex)
                    && imin(y0, ey) <= tr[i].1 <= imax(y0, ey)
            &&& forall|i: int, j: int| 0 <= i < j < tr.len() ==> tr[i] != tr[j]
        }),
{
    let dx = iabs(ex - x0);
    let dy = -iabs(ey - y0);
    let sx = line_step(x0, ex);
    let sy = line_step(y0, ey);
    let tr = line_cells(x0, y0, ex, ey);
    let rest = line_rest(x0, y0, dx + dy, ex, ey, dx, dy, sx, sy);
    lemma_line_init(x0, y0, ex, ey);
    lemma_line_rest_props(x0, y0, dx + dy, ex, ey, dx, dy, sx, sy);
    assert(tr[0] == (x0, y0));
    assert(forall|i: int| 1 <= i < tr.len() ==> #[trigger] tr[i] == rest[i - 1]);
    if rest.len() > 0 {
        assert(tr[tr.len() - 1] == rest[rest.len() - 1]);
    }
    assert forall|i: int| 0 <= i < tr.len() implies imin(x0, ex) <= (#[trigger] tr[i]).0 <= imax(
        x0,
        ex,
    ) && imin(y0, ey) <= tr[i].1 <= imax(y0, ey) by {
        if i == 0 {
            assert(tr[i] == (x0, y0));
        } else {
            assert(tr[i] == rest[i - 1]);
            assert(0 <= line_rem(rest[i - 1].0, ex, sx) <= dx);
            assert(0 <= line_rem(rest[i - 1].1, ey, sy) <= -dy);
        }
    }
    assert forall|i: int, j: int| 0 <= i < j < tr.len() implies tr[i] != tr[j] by {
        assert(tr[j] == rest[j - 1]);
        if i == 0 {
            assert(line_prog(rest[j - 1].0, rest[j - 1].1, ex, ey, sx, sy) < line_prog(
                x0,
                y0,
                ex,
                ey,
                sx,
                sy,
            ));
            assert(line_prog(x0, y0, ex, ey, sx, sy) == line_prog(tr[0].0, tr[0].1, ex, ey, sx, sy));
        } else {
            assert(tr[i] == rest[i - 1]);
            assert(line_prog(rest[j - 1].0, rest[j - 1].1, ex, ey, sx, sy) < line_prog(
                rest[i - 1].0,
                rest[i - 1].1,
                ex,
                ey,
                sx,
                sy,
            ));
        }
    }
}

/// The endpoint law of the line primitive: painting the cells of a line
/// writes the color at both of its in-bounds endpoints.
pub proof fn lemma_line_paints_endpoints(
    g: Seq<Seq<Color>>,
    x0: int,
    y0: int,
    ex: int,
    ey: int,
    c: Color,
)
    requires
        0 <= y0 < g.len(),
        0 <= x0 < g[y0].len(),
        0 <= ey < g.len(),
        0 <= ex < g[ey].len(),
    ensures
        paint_cells(g, line_cells(x0, y0, ex, ey), c)[y0][x0] == c,
        paint_cells(g, line_cells(x0, y0, ex, ey), c)[ey][ex] == c,
{
    lemma_line_cells_props(x0, y0, ex, ey);
    let tr = line_cells(x0, y0, ex, ey);
    assert(tr.contains((x0, y0))) by {
        assert(tr[0] == (x0, y0));
    }
    assert(tr.contains((ex, ey))) by {
        assert(tr[tr.len() - 1] == (ex, ey));
    }
    lemma_paint_cells_at(g, tr, c, x0, y0);
    lemma_paint_cells_at(g, tr, c, ex, ey);
}

/// In a valid state with both axis totals under 2^30, the accumulated error
/// stays well within an i64, so it can be doubled safely.
proof fn lemma_line_err_bound(
    x: int,
    y: int,
    err: int,
    ex: int,
    ey: int,
    dx: int,
    dy: int,
    sx: int,
    sy: int,
)
    requires
        line_ok(x, y, err, ex, ey, dx, dy, sx, sy),
        dx < 0x4000_0000,
        -dy < 0x4000_0000,
    ensures
        -0x4000_0000_0000_0000 < err < 0x4000_0000_0000_0000,
{
    let rx = line_rem(x, ex, sx);
    let ry = line_rem(y, ey, sy);
    assert(0 >= dy * rx && dy * rx > -0x1000_0000_0000_0000) by (nonlinear_arith)
        requires
            dy <= 0,
            -dy < 0x4000_0000,
            0 <= rx <= dx < 0x4000_0000,
    ;
    assert(0 <= dx * ry && dx * ry < 0x1000_0000_0000_0000) by (nonlinear_arith)
        requires
            0 <= dx < 0x4000_0000,
            0 <= ry <= -dy < 0x4000_0000,
    ;
}

impl Image {
    /// Draws a line from `start` to `end` with the integer Bresenham
    /// algorithm: the start cell is painted first, then one cell per
    /// iteration until the end cell is reached. Every write is bounds
    /// checked, so cells outside the grid are silently dropped.
    pub fn draw_line(&mut self, start: Cell, end: Cell, color: Color)
        requires
            old(self).wf(),
            start.x < 0x4000_0000,
            start.y < 0x4000_0000,
            end.x < 0x4000_0000,
            end.y < 0x4000_0000,
        ensures
            final(self).wf(),
            final(self).width == old(self).width,
            final(self).height == old(self).height,
            final(self).grid() == paint_cells(
                old(self).grid(),
                line_cells(start.x as int, start.y as int, end.x as int, end.y as int),
                color,
            ),
    {
        let ghost g0 = self.grid();
        let ghost x0 = start.x as int;
        let ghost y0 = start.y as int;
        let ghost ex = end.x as int;
        let ghost ey = end.y as int;
        let x_up = end.x > start.x;
        let y_up = end.y > start.y;
        let dxu = if x_up {
            end.x - start.x
        } else {
            start.x - end.x
        };
        let dyu = if y_up {
            end.y - start.y
        } else {
            start.y - end.y
        };
        let dx: i64 = dxu as i64;
        let dy: i64 = -(dyu as i64);
        let mut err: i64 = dx + dy;
        let mut x = start.x;
        let mut y = start.y;
        let ghost sx = line_step(x0, ex);
        let ghost sy = line_step(y0, ey);
        let ghost mut done: Seq<(int, int)> = seq![(x0, y0)];
        proof {
            lemma_line_init(x0, y0, ex, ey);
            assert(done.skip(1) =~= Seq::<(int, int)>::empty());
        }
        self.try_set(start.x, start.y, color);
        proof {
            assert(done[0] == (x0, y0));
            assert(paint_cells(g0, done, color) == paint_cells(
                set_cell(g0, x0, y0, color),
                Seq::<(int, int)>::empty(),
                color,
            ));
            assert(self.grid() == paint_cells(g0, done, color));
        }
        while x != end.x || y != end.y
            invariant
                self.wf(),
                old(self).wf(),
                self.width == old(self).width,
                self.height == old(self).height,
                g0 == old(self).grid(),
                x0 == start.x as int && y0 == start.y as int,
                ex == end.x as int && ey == end.y as int,
                ex < 0x4000_0000 && ey < 0x4000_0000,
                x0 < 0x4000_0000 && y0 < 0x4000_0000,
                sx == line_step(x0, ex) && sy == line_step(y0, ey),
                (sx == 1) == x_up && (sy == 1) == y_up,
                dx == iabs(ex - x0) && dy == -iabs(ey - y0),
                line_ok(x as int, y as int, err as int, ex, ey, dx as int, dy as int, sx, sy),
                self.grid() == paint_cells(g0, done, color),
                seq![(x0, y0)] + line_rest(
                    x0,
                    y0,
                    dx as int + dy as int,
                    ex,
                    ey,
                    dx as int,
                    dy as int,
                    sx,
                    sy,
                ) == done + line_rest(
                    x as int,
                    y as int,
                    err as int,
                    ex,
                    ey,
                    dx as int,
                    dy as int,
                    sx,
                    sy,
                ),
            decreases line_prog(x as int, y as int, ex, ey, sx, sy),
        {
            let ghost done_pre = done;
            let ghost xp = x as int;
            let ghost yp = y as int;
            let ghost ep = err as int;
            proof {
                lemma_line_err_bound(xp, yp, ep, ex, ey, dx as int, dy as int, sx, sy);
                lemma_line_advance(xp, yp, ep, ex, ey, dx as int, dy as int, sx, sy);
            }
            let e2 = 2 * err;
            if e2 >= dy {
                if x_up {
                    x = x + 1;
                } else {
                    x = x - 1;
                }
                err = err + dy;
            }
            if e2 <= dx {
                if y_up {
                    y = y + 1;
                } else {
                    y = y - 1;
                }
                err = err + dx;
            }
            self.try_set(x, y, color);
            proof {
                lemma_paint_cells_snoc(g0, done_pre, (x as int, y as int), color);
                done = done_pre.push((x as int, y as int));
                assert(line_rest(xp, yp, ep, ex, ey, dx as int, dy as int, sx, sy) == seq![
                    (x as int, y as int),
                ] + line_rest(
                    x as int,
                    y as int,
                    err as int,
                    ex,
                    ey,
                    dx as int,
                    dy as int,
                    sx,
                    sy,
                ));
                assert(done_pre + (seq![(x as int, y as int)] + line_rest(
                    x as int,
                    y as int,
                    err as int,
                    ex,
                    ey,
                    dx as int,
                    dy as int,
                    sx,
                    sy,
                )) =~= done + line_rest(
                    x as int,
                    y as int,
                    err as int,
                    ex,
                    ey,
                    dx as int,
                    dy as int,
                    sx,
                    sy,
                ));
            }
        }
        proof {
            assert(line_rest(x as int, y as int, err as int, ex, ey, dx as int, dy as int, sx, sy)
                == Seq::<(int, int)>::empty());
            assert(done + Seq::<(int, int)>::empty() =~= done);
            assert(done == line_cells(x0, y0, ex, ey));
        }
    }
}

} // verus!
