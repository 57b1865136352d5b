//! Midpoint ellipse drawing, modeled by an explicit spec-level trace of the
//! arc offsets, their quadrant mirrors, and the flat-ellipse cap.

use vstd::prelude::*;

use crate::color::Color;
use crate::image::{lemma_paint_cells_snoc, paint_cells, set_cell, Cell, Image};

verus! {

/// How far the x-branch condition 2·err ≥ dx is from firing; zero once it
/// fires. Second component of the loop's termination measure.
pub open spec fn ellipse_gap(dx: int, err: int) -> int {
    if dx - 2 * err > 0 {
        dx - 2 * err
    } else {
        0
    }
}

/// A reachable state of the ellipse loop for semi-axes `a` (horizontal) and
/// `b` (vertical): the offsets stay within the axes, the two error
/// increments and the accumulated error are exactly determined by the
/// offsets, and once x reaches 0 the x-branch is ready to fire.
pub open spec fn ellipse_ok(x: int, y: int, dx: int, dy: int, err: int, a: int, b: int) -> bool {
    &&& 0 <= x <= a
    &&& 0 <= y <= b
    &&& dx == (1 - 2 * x) * (b * b)
    &&& dy == (2 * y + 1) * (a * a)
    &&& err == (b * b) * ((x - 1) * (x - 1) - a * a) + (a * a) * ((y + 1) * (y + 1))
    &&& (x == 0 ==> 2 * err >= dx)
}

/// The arc offsets (x, y) plotted by the ellipse loop from the given state
/// on, one per iteration, the final one at x == 0 included.
pub open spec fn ellipse_points(
    x: int,
    y: int,
    dx: int,
    dy: int,
    err: int,
    a: int,
    b: int,
) -> Seq<(int, int)>
    decreases x, ellipse_gap(dx, err)
        when ellipse_ok(x, y, dx, dy, err, a, b)
{
    let e2 = 2 * err;
    if e2 >= dx && x == 0 {
        seq![(x, y)]
    } else {
        let xn = if e2 >= dx {
            x - 1
        } else {
            x
        };
        let dxn = if e2 >= dx {
            dx + 2 * (b * b)
        } else {
            dx
        };
        let e1 = if e2 >= dx {
            err + dxn
        } else {
            err
        };
        let yn = if e2 <= dy {
            y + 1
        } else {
            y
        };
        let dyn2 = if e2 <= dy {
            dy + 2 * (a * a)
        } else {
            dy
        };
        let en = if e2 <= dy {
            e1 + dyn2
        } else {
            e1
        };
        proof {
            lemma_ellipse_advance(x, y, dx, dy, err, a, b);
        }
        seq![(x, y)] + ellipse_points(xn, yn, dxn, dyn2, en, a, b)
    }
}

/// One iteration of the ellipse loop from a valid, non-final state: at least
/// one branch fires, the state stays valid, and the pair (x, gap) falls
/// lexicographically.
pub proof fn lemma_ellipse_advance(x: int, y: int, dx: int, dy: int, err: int, a: int, b: int)
    requires
        ellipse_ok(x, y, dx, dy, err, a, b),
        !(2 * err >= dx && x == 0),
    ensures
        x >= 1,
        a >= 1,
        2 * err <= dy ==> y < b,
        !(2 * err >= dx) ==> 2 * err <= dy,
        ({
            let e2 = 2 * err;
            let xn = if e2 >= dx {
                x - 1
            } else {
                x
            };
            let dxn = if e2 >= dx {
                dx + 2 * (b * b)
            } else {
                dx
            };
            let e1 = if e2 >= dx {
                err + dxn
            } else {
                err
            };
            let yn = if e2 <= dy {
                y + 1
            } else {
                y
            };
            let dyn2 = if e2 <= dy {
                dy + 2 * (a * a)
            } else {
                dy
            };
            let en = if e2 <= dy {
                e1 + dyn2
            } else {
                e1
            };
            &&& ellipse_ok(xn, yn, dxn, dyn2, en, a, b)
            &&& (xn < x || (xn == x && ellipse_gap(dxn, en) < ellipse_gap(dx, err)))
        }),
{
    let e2 = 2 * err;
    assert(x >= 1);
    assert(a >= 1);
    assert(b >= 0);
    assert(a * a >= 1 && b * b >= 0 && 2 * (a * a) >= 2 && 2 * (b * b) >= 0) by (nonlinear_arith)
        requires
            a >= 1,
            b >= 0,
    ;
    if e2 <= dy {
        // The y-branch only fires below the top of the ellipse.
        assert(y < b) by (nonlinear_arith)
            requires
                err == (b * b) * ((x - 1) * (x - 1) - a * a) + (a * a) * ((y + 1) * (y + 1)),
                dy == (2 * y + 1) * (a * a),
                2 * err <= dy,
                a >= 1,
                0 <= y <= b,
                0 <= x,
        ;
    }
    if !(e2 >= dx) {
        // If the x-branch is quiet, the vertical axis is real and the
        // y-branch fires.
        if b == 0 {
            assert(false) by (nonlinear_arith)
                requires
                    err == (b * b) * ((x - 1) * (x - 1) - a * a) + (a * a) * ((y + 1) * (y + 1)),
                    dx == (1 - 2 * x) * (b * b),
                    2 * err < dx,
                    b == 0,
                    a >= 1,
                    y >= 0,
            ;
        }
        assert(dx < 0 <= dy) by (nonlinear_arith)
            requires
                dx == (1 - 2 * x) * (b * b),
                dy == (2 * y + 1) * (a * a),
                x >= 1,
                y >= 0,
                b >= 1,
                a >= 1,
        ;
    }
    let xn = if e2 >= dx {
        x - 1
    } else {
        x
    };
    let dxn = if e2 >= dx {
        dx + 2 * (b * b)
    } else {
        dx
    };
    let e1 = if e2 >= dx {
        err + dxn
    } else {
        err
    };
    let yn = if e2 <= dy {
        y + 1
    } else {
        y
    };
    let dyn2 = if e2 <= dy {
        dy + 2 * (a * a)
    } else {
        dy
    };
    let en = if e2 <= dy {
        e1 + dyn2
    } else {
        e1
    };
    if e2 >= dx {
        assert(dxn == (1 - 2 * xn) * (b * b)) by (nonlinear_arith)
            requires
                dx == (1 - 2 * x) * (b * b),
                dxn == dx + 2 * (b * b),
                xn == x - 1,
        ;
        assert(e1 == (b * b) * ((xn - 1) * (xn - 1) - a * a) + (a * a) * ((y + 1) * (y + 1)))
            by (nonlinear_arith)
            requires
                err == (b * b) * ((x - 1) * (x - 1) - a * a) + (a * a) * ((y + 1) * (y + 1)),
                dxn == (1 - 2 * xn) * (b * b),
                e1 == err + dxn,
                xn == x - 1,
        ;
    }
    if e2 <= dy {
        assert(dyn2 == (2 * yn + 1) * (a * a)) by (nonlinear_arith)
            requires
                dy == (2 * y + 1) * (a * a),
                dyn2 == dy + 2 * (a * a),
                yn == y + 1,
        ;
        assert(en == (b * b) * ((xn - 1) * (xn - 1) - a * a) + (a * a) * ((yn + 1) * (yn + 1)))
            by (nonlinear_arith)
            requires
                e1 == (b * b) * ((xn - 1) * (xn - 1) - a * a) + (a * a) * ((y + 1) * (y + 1)),
                dyn2 == (2 * yn + 1) * (a * a),
                en == e1 + dyn2,
                yn == y + 1,
        ;
    }
    assert(dyn2 >= 0) by (nonlinear_arith)
        requires
            dyn2 == (2 * yn + 1) * (a * a),
            yn >= 0,
    ;
    // Once x reaches 0, the x-branch is ready to fire.
    if xn == 0 {
        assert(x == 1 && 2 * err >= dx);
        assert(dxn == (1 - 2 * 0) * (b * b));
        assert(dxn == b * b) by (nonlinear_arith)
            requires
                dxn == (1 - 2 * 0) * (b * b),
        ;
        assert(dx == -(b * b)) by (nonlinear_arith)
            requires
                dx == (1 - 2 * 1) * (b * b),
        ;
        assert(2 * e1 >= dxn);
        assert(2 * en >= dxn);
    }
    // Lexicographic termination.
    if !(e2 >= dx) {
        assert(xn == x);
        assert(dx - 2 * err > 0);
        assert(dyn2 >= 3) by (nonlinear_arith)
            requires
                dyn2 == (2 * yn + 1) * (a * a),
                yn >= 1,
                a * a >= 1,
        ;
        assert(en == err + dyn2);
        assert(ellipse_gap(dxn, en) < ellipse_gap(dx, err));
    }
}

/// The grid cells written for arc offset (`px`, `py`) around the center, one
/// per selected quadrant: I is top-right and the rest follow
/// counter-clockwise. Cells with negative coordinates are dropped by the
/// bounds-checked write.
pub open spec fn quad_cells(
    cx: int,
    cy: int,
    px: int,
    py: int,
    q1: bool,
    q2: bool,
    q3: bool,
    q4: bool,
) -> Seq<(int, int)> {
    (if q1 {
        seq![(cx + px, cy - py)]
    } else {
        Seq::<(int, int)>::empty()
    }) + (if q2 {
        seq![(cx - px, cy - py)]
    } else {
        Seq::<(int, int)>::empty()
    }) + (if q3 {
        seq![(cx - px, cy + py)]
    } else {
        Seq::<(int, int)>::empty()
    }) + (if q4 {
        seq![(cx + px, cy + py)]
    } else {
        Seq::<(int, int)>::empty()
    })
}

/// The grid cells written for a whole sequence of arc offsets, in plot
/// order.
pub open spec fn arc_cells(
    cx: int,
    cy: int,
    pts: Seq<(int, int)>,
    q1: bool,
    q2: bool,
    q3: bool,
    q4: bool,
) -> Seq<(int, int)>
    decreases pts.len(),
{
    if pts.len() == 0 {
        Seq::<(int, int)>::empty()
    } else {
        quad_cells(cx, cy, pts[0].0, pts[0].1, q1, q2, q3, q4) + arc_cells(
            cx,
            cy,
            pts.skip(1),
            q1,
            q2,
            q3,
            q4,
        )
    }
}

/// The cells of the flat-ellipse cap: walking up from arc end `y` to `b`,
/// the single top column cell if a top quadrant was selected, and the single
/// bottom column cell if a bottom quadrant was.
pub open spec fn cap_cells(cx: int, cy: int, y: int, b: int, top: bool, bottom: bool) -> Seq<
    (int, int),
>
    decreases b - y
        when y <= b
{
    if y >= b {
        Seq::<(int, int)>::empty()
    } else {
        (if top {
            seq![(cx, cy - (y + 1))]
        } else {
            Seq::<(int, int)>::empty()
        }) + (if bottom {
            seq![(cx, cy + (y + 1))]
        } else {
            Seq::<(int, int)>::empty()
        }) + cap_cells(cx, cy, y + 1, b, top, bottom)
    }
}

/// The starting state of the ellipse loop is valid.
pub proof fn lemma_ellipse_init(a: int, b: int)
    requires
        a >= 0,
        b >= 0,
    ensures
        ellipse_ok(a, 0, (1 - 2 * a) * (b * b), a * a, (1 - 2 * a) * (b * b) + a * a, a, b),
{
    let dx0 = (1 - 2 * a) * (b * b);
    assert(dx0 + a * a == (b * b) * ((a - 1) * (a - 1) - a * a) + (a * a) * ((0 + 1) * (0 + 1)))
        by (nonlinear_arith)
        requires
            dx0 == (1 - 2 * a) * (b * b),
    ;
    if a == 0 {
        assert(dx0 == b * b) by (nonlinear_arith)
            requires
                dx0 == (1 - 2 * a) * (b * b),
                a == 0,
        ;
        assert(2 * (dx0 + a * a) >= dx0) by (nonlinear_arith)
            requires
                dx0 == b * b,
                b >= 0,
                a == 0,
        ;
    }
    assert(a * a == (2 * 0 + 1) * (a * a)) by (nonlinear_arith);
    assert(dx0 == (1 - 2 * a) * (b * b));
    assert((1 - 2 * a) * (b * b) + a * a == (b * b) * ((a - 1) * (a - 1) - a * a) + (a * a) * ((0
        + 1) * (0 + 1))) by (nonlinear_arith);
}

/// Every sequence of remaining arc offsets holds at least one point, the
/// final one at x == 0; its offsets stay within the two semi-axes.
pub proof fn lemma_ellipse_points_props(x: int, y: int, dx: int, dy: int, err: int, a: int, b: int)
    requires
        ellipse_ok(x, y, dx, dy, err, a, b),
    ensures
        ({
            let pts = ellipse_points(x, y, dx, dy, err, a, b);
            &&& pts.len() >= 1
            &&& pts[0] == (x, y)
            &&& pts[pts.len() - 1].0 == 0
            &&& 0 <= pts[pts.len() - 1].1 <= b
            &&& forall|i: int|
                0 <= i < pts.len() ==> 0 <= (#[trigger] pts[i]).0 <= a && 0 <= pts[i].1 <= b
        }),
    decreases x, ellipse_gap(dx, err),
{
    let pts = ellipse_points(x, y, dx, dy, err, a, b);
    let e2 = 2 * err;
    if e2 >= dx && x == 0 {
        assert(pts == seq![(x, y)]);
    } else {
        lemma_ellipse_advance(x, y, dx, dy, err, a, b);
        let xn = if e2 >= dx {
            x - 1
        } else {
            x
        };
        let dxn = if e2 >= dx {
            dx + 2 * (b * b)
        } else {
            dx
        };
        let e1 = if e2 >= dx {
            err + dxn
        } else {
            err
        };
        let yn = if e2 <= dy {
            y + 1
        } else {
            y
        };
        let dyn2 = if e2 <= dy {
            dy + 2 * (a * a)
        } else {
            dy
        };
        let en = if e2 <= dy {
            e1 + dyn2
        } else {
            e1
        };
        lemma_ellipse_points_props(xn, yn, dxn, dyn2, en, a, b);
        let rest = ellipse_points(xn, yn, dxn, dyn2, en, a, b);
        assert(pts == seq![(x, y)] + rest);
        assert(pts[pts.len() - 1] == rest[rest.len() - 1]);
        assert(forall|i: int| 1 <= i < pts.len() ==> #[trigger] pts[i] == rest[i - 1]);
    }
}

/// All cells painted by `draw_ellipse`: the quadrant mirrors of every arc
/// offset, then the flat-ellipse cap from the arc's final height up to `b`.
pub open spec fn ellipse_cells(
    cx: int,
    cy: int,
    a: int,
    b: int,
    q1: bool,
    q2: bool,
    q3: bool,
    q4: bool,
) -> Seq<(int, int)> {
    let dx0 = (1 - 2 * a) * (b * b);
    let dy0 = a * a;
    let pts = ellipse_points(a, 0, dx0, dy0, dx0 + dy0, a, b);
    arc_cells(cx, cy, pts, q1, q2, q3, q4) + cap_cells(
        cx,
        cy,
        pts[pts.len() - 1].1,
        b,
        q1 || q2,
        q3 || q4,
    )
}

/// In a valid state with both semi-axes at most 2^15 − 1, all three error
/// values stay well within an i64.
proof fn lemma_ellipse_bounds(x: int, y: int, dx: int, dy: int, err: int, a: int, b: int)
    requires
        ellipse_ok(x, y, dx, dy, err, a, b),
        a <= 0x7FFF,
        b <= 0x7FFF,
    ensures
        -0x8000_0000_0000 < dx < 0x8000_0000_0000,
        0 <= dy < 0x8000_0000_0000,
        -0x4000_0000_0000_0000 < err < 0x4000_0000_0000_0000,
{
    assert(0 <= a * a < 0x4000_0000 && 0 <= b * b < 0x4000_0000) by (nonlinear_arith)
        requires
            0 <= a <= 0x7FFF,
            0 <= b <= 0x7FFF,
    ;
    assert(-0x8000_0000_0000 < dx < 0x8000_0000_0000) by (nonlinear_arith)
        requires
            dx == (1 - 2 * x) * (b * b),
            0 <= x <= a <= 0x7FFF,
            0 <= b * b < 0x4000_0000,
    ;
    assert(0 <= dy < 0x8000_0000_0000) by (nonlinear_arith)
        requires
            dy == (2 * y + 1) * (a * a),
            0 <= y <= b <= 0x7FFF,
            0 <= a * a < 0x4000_0000,
    ;
    assert(-0x4000_0000_0000_0000 < err < 0x4000_0000_0000_0000) by (nonlinear_arith)
        requires
            err == (b * b) * ((x - 1) * (x - 1) - a * a) + (a * a) * ((y + 1) * (y + 1)),
            0 <= x <= a <= 0x7FFF,
            0 <= y <= b <= 0x7FFF,
            0 <= a * a < 0x4000_0000,
            0 <= b * b < 0x4000_0000,
    ;
}

/// Membership in a concatenation is membership in either part.
proof fn lemma_concat_contains(s: Seq<(int, int)>, t: Seq<(int, int)>, e: (int, int))
    ensures
        (s + t).contains(e) == (s.contains(e) || t.contains(e)),
{
    if s.contains(e) {
        let i = choose|i: int| 0 <= i < s.len() && s[i] == e;
        assert((s + t)[i] == e);
    }
    if t.contains(e) {
        let i = choose|i: int| 0 <= i < t.len() && t[i] == e;
        assert((s + t)[s.len() + i] == e);
    }
    if (s + t).contains(e) {
        let i = choose|i: int| 0 <= i < (s + t).len() && (s + t)[i] == e;
        if i < s.len() {
            assert(s[i] == e);
        } else {
            assert(t[i - s.len()] == e);
        }
    }
}

/// Whether the four mirrors of arc offset (`px`, `py`) hit the cell at
/// offset (`u`, `v`) from the center; visibly unchanged when `u` or `v`
/// flips sign.
spec fn quad_hits(px: int, py: int, u: int, v: int) -> bool {
    ||| (u == px && v == -py)
    ||| (u == -px && v == -py)
    ||| (u == -px && v == py)
    ||| (u == px && v == py)
}

/// With all four quadrants selected, one arc offset's mirrors hit (u, v)
/// exactly as `quad_hits` says.
proof fn lemma_quad_cells_sym(cx: int, cy: int, px: int, py: int, u: int, v: int)
    ensures
        quad_cells(cx, cy, px, py, true, true, true, true).contains((cx + u, cy + v))
            == quad_hits(px, py, u, v),
{
    let q = quad_cells(cx, cy, px, py, true, true, true, true);
    assert(q.len() == 4);
    assert(q[0] == (cx + px, cy - py));
    assert(q[1] == (cx - px, cy - py));
    assert(q[2] == (cx - px, cy + py));
    assert(q[3] == (cx + px, cy + py));
    if quad_hits(px, py, u, v) {
        if u == px && v == -py {
            assert(q[0] == (cx + u, cy + v));
        } else if u == -px && v == -py {
            assert(q[1] == (cx + u, cy + v));
        } else if u == -px && v == py {
            assert(q[2] == (cx + u, cy + v));
        } else {
            assert(q[3] == (cx + u, cy + v));
        }
    }
    if q.contains((cx + u, cy + v)) {
        let i = choose|i: int| 0 <= i < q.len() && q[i] == (cx + u, cy + v);
        assert(quad_hits(px, py, u, v));
    }
}

/// With all four quadrants selected, the mirrored arc cells hit offsets
/// symmetrically in both axes.
proof fn lemma_arc_cells_sym(cx: int, cy: int, pts: Seq<(int, int)>, u: int, v: int)
    ensures
        arc_cells(cx, cy, pts, true, true, true, true).contains((cx + u, cy + v)) == arc_cells(
            cx,
            cy,
            pts,
            true,
            true,
            true,
            true,
        ).contains((cx - u, cy + v)),
        arc_cells(cx, cy, pts, true, true, true, true).contains((cx + u, cy + v)) == arc_cells(
            cx,
            cy,
            pts,
            true,
            true,
            true,
            true,
        ).contains((cx + u, cy - v)),
    decreases pts.len(),
{
    if pts.len() == 0 {
    } else {
        let head = quad_cells(cx, cy, pts[0].0, pts[0].1, true, true, true, true);
        let rest = arc_cells(cx, cy, pts.skip(1), true, true, true, true);
        lemma_concat_contains(head, rest, (cx + u, cy + v));
        lemma_concat_contains(head, rest, (cx - u, cy + v));
        lemma_concat_contains(head, rest, (cx + u, cy - v));
        lemma_quad_cells_sym(cx, cy, pts[0].0, pts[0].1, u, v);
        lemma_quad_cells_sym(cx, cy, pts[0].0, pts[0].1, -u, v);
        lemma_quad_cells_sym(cx, cy, pts[0].0, pts[0].1, u, -v);
        assert(head.contains((cx + (-u), cy + v)) == head.contains((cx - u, cy + v)));
        assert(head.contains((cx + u, cy + (-v))) == head.contains((cx + u, cy - v)));
        lemma_arc_cells_sym(cx, cy, pts.skip(1), u, v);
    }
}

/// With both a top and a bottom quadrant selected, the cap cells hit
/// offsets symmetrically in both axes.
proof fn lemma_cap_cells_sym(cx: int, cy: int, y: int, b: int, u: int, v: int)
    requires
        y <= b,
    ensures
        cap_cells(cx, cy, y, b, true, true).contains((cx + u, cy + v)) == cap_cells(
            cx,
            cy,
            y,
            b,
            true,
            true,
        ).contains((cx - u, cy + v)),
        cap_cells(cx, cy, y, b, true, true).contains((cx + u, cy + v)) == cap_cells(
            cx,
            cy,
            y,
            b,
            true,
            true,
        ).contains((cx + u, cy - v)),
    decreases b - y,
{
    if y >= b {
    } else {
        let pair = seq![(cx, cy - (y + 1))] + seq![(cx, cy + (y + 1))];
        let rest = cap_cells(cx, cy, y + 1, b, true, true);
        assert(cap_cells(cx, cy, y, b, true, true) == pair + rest);
        lemma_concat_contains(pair, rest, (cx + u, cy + v));
        lemma_concat_contains(pair, rest, (cx - u, cy + v));
        lemma_concat_contains(pair, rest, (cx + u, cy - v));
        assert(pair.len() == 2 && pair[0] == (cx, cy - (y + 1)) && pair[1] == (cx, cy + (y + 1)));
        assert(pair.contains((cx + u, cy + v)) == (u == 0 && (v == -(y + 1) || v == y + 1))) by {
            if pair.contains((cx + u, cy + v)) {
                let i = choose|i: int| 0 <= i < pair.len() && pair[i] == (cx + u, cy + v);
            }
        }
        assert(pair.contains((cx - u, cy + v)) == (u == 0 && (v == -(y + 1) || v == y + 1))) by {
            if pair.contains((cx - u, cy + v)) {
                let i = choose|i: int| 0 <= i < pair.len() && pair[i] == (cx - u, cy + v);
            }
        }
        assert(pair.contains((cx + u, cy - v)) == (u == 0 && (v == -(y + 1) || v == y + 1))) by {
            if pair.contains((cx + u, cy - v)) {
                let i = choose|i: int| 0 <= i < pair.len() && pair[i] == (cx + u, cy - v);
            }
        }
        lemma_cap_cells_sym(cx, cy, y + 1, b, u, v);
    }
}

/// With all four quadrants selected, the point set an ellipse paints is
/// symmetric under reflection in the horizontal and the vertical axis
/// through the center: the cell at offset (u, v) from the center is in the
/// set exactly when the cells at offsets (−u, v) and (u, −v) are. For
/// a == b this is the axis-reflection part of a circle's symmetry.
pub proof fn lemma_ellipse_cells_reflection(cx: int, cy: int, a: int, b: int, u: int, v: int)
    requires
        a >= 0,
        b >= 0,
    ensures
        ellipse_cells(cx, cy, a, b, true, true, true, true).contains((cx + u, cy + v))
            == ellipse_cells(cx, cy, a, b, true, true, true, true).contains((cx - u, cy + v)),
        ellipse_cells(cx, cy, a, b, true, true, true, true).contains((cx + u, cy + v))
            == ellipse_cells(cx, cy, a, b, true, true, true, true).contains((cx + u, cy - v)),
{
    let dx0 = (1 - 2 * a) * (b * b);
    let dy0 = a * a;
    lemma_ellipse_init(a, b);
    lemma_ellipse_points_props(a, 0, dx0, dy0, dx0 + dy0, a, b);
    let pts = ellipse_points(a, 0, dx0, dy0, dx0 + dy0, a, b);
    let arc = arc_cells(cx, cy, pts, true, true, true, true);
    let cap = cap_cells(cx, cy, pts[pts.len() - 1].1, b, true, true);
    lemma_concat_contains(arc, cap, (cx + u, cy + v));
    lemma_concat_contains(arc, cap, (cx - u, cy + v));
    lemma_concat_contains(arc, cap, (cx + u, cy - v));
    lemma_arc_cells_sym(cx, cy, pts, u, v);
    lemma_cap_cells_sym(cx, cy, pts[pts.len() - 1].1, b, u, v);
}

impl Image {
    /// One bounds-checked write at a mirrored arc cell whose true coordinates
    /// are (`gx`, `gy`); a `None` coordinate lies outside the usize range and
    /// hence outside the grid.
    fn plot_mirror(
        &mut self,
        xo: Option<usize>,
        yo: Option<usize>,
        color: Color,
        Ghost(gx): Ghost<int>,
        Ghost(gy): Ghost<int>,
    )
        requires
            old(self).wf(),
            match xo {
                Some(v) => v as int == gx,
                None => !(0 <= gx <= usize::MAX),
            },
            match yo {
                Some(v) => v as int == gy,
                None => !(0 <= gy <= usize::MAX),
            },
        ensures
            final(self).wf(),
            final(self).width == old(self).width,
            final(self).height == old(self).height,
            final(self).grid() == set_cell(old(self).grid(), gx, gy, color),
    {
        if let (Some(px), Some(py)) = (xo, yo) {
            self.try_set(px, py, color);
        } else {
            proof {
                assert(self.grid().len() == self.height);
                assert(gx > usize::MAX ==> gx >= self.width);
                assert(gy > usize::MAX ==> gy >= self.height);
                assert(set_cell(self.grid(), gx, gy, color) == self.grid());
            }
        }
    }

    /// Draws the midpoint-ellipse arc with horizontal semi-axis `a` and
    /// vertical semi-axis `b` around `center`, mirrored into the quadrants
    /// selected by `draw_quadrants` (quadrant I first, counter-clockwise),
    /// then closes very flat ellipses with a single top and/or bottom column
    /// walk. Out-of-bounds cells are silently dropped.
    #[verifier::rlimit(60)]
    pub fn draw_ellipse(
        &mut self,
        center: Cell,
        a: usize,
        b: usize,
        draw_quadrants: [bool; 4],
        color: Color,
    )
        requires
            old(self).wf(),
            a <= 0x7FFF,
            b <= 0x7FFF,
        ensures
            final(self).wf(),
            final(self).width == old(self).width,
            final(self).height == old(self).height,
            final(self).grid() == paint_cells(
                old(self).grid(),
                ellipse_cells(
                    center.x as int,
                    center.y as int,
                    a as int,
                    b as int,
                    draw_quadrants[0],
                    draw_quadrants[1],
                    draw_quadrants[2],
                    draw_quadrants[3],
                ),
                color,
            ),
    {
        let ghost g0 = self.grid();
        let ghost cxg = center.x as int;
        let ghost cyg = center.y as int;
        let ghost ag = a as int;
        let ghost bg = b as int;
        let q1 = draw_quadrants[0];
        let q2 = draw_quadrants[1];
        let q3 = draw_quadrants[2];
        let q4 = draw_quadrants[3];
        let mut x: usize = a;
        let mut y: usize = 0;
        let ai: i64 = a as i64;
        let bi: i64 = b as i64;
        proof {
            assert(0 <= ai * ai < 0x4000_0000 && 0 <= bi * bi < 0x4000_0000) by (nonlinear_arith)
                requires
                    0 <= ai <= 0x7FFF,
                    0 <= bi <= 0x7FFF,
            ;
        }
        let aa: i64 = ai * ai;
        let bb: i64 = bi * bi;
        let aa2: i64 = 2 * aa;
        let bb2: i64 = 2 * bb;
        proof {
            assert(-0x8000_0000_0000 < (1 - 2 * ai) * bb < 0x8000_0000_0000) by (nonlinear_arith)
                requires
                    0 <= ai <= 0x7FFF,
                    0 <= bb < 0x4000_0000,
            ;
        }
        let mut dx: i64 = (1 - 2 * ai) * bb;
        let mut dy: i64 = aa;
        let mut err: i64 = dx + dy;
        let ghost pts_full = ellipse_points(ag, 0, dx as int, dy as int, err as int, ag, bg);
        let ghost mut done: Seq<(int, int)> = Seq::empty();
        proof {
            lemma_ellipse_init(ag, bg);
            assert(dx as int == (1 - 2 * ag) * (bg * bg));
            assert(dy as int == ag * ag);
            lemma_ellipse_points_props(ag, 0, dx as int, dy as int, err as int, ag, bg);
        }
        loop
            invariant_except_break
                arc_cells(cxg, cyg, pts_full, q1, q2, q3, q4) == done + arc_cells(
                    cxg,
                    cyg,
                    ellipse_points(x as int, y as int, dx as int, dy as int, err as int, ag, bg),
                    q1,
                    q2,
                    q3,
                    q4,
                ),
                ({
                    let pts = ellipse_points(
                        x as int,
                        y as int,
                        dx as int,
                        dy as int,
                        err as int,
                        ag,
                        bg,
                    );
                    pts.len() >= 1 && pts_full[pts_full.len() - 1] == pts[pts.len() - 1]
                }),
            invariant
                self.wf(),
                old(self).wf(),
                self.width == old(self).width,
                self.height == old(self).height,
                g0 == old(self).grid(),
                cxg == center.x as int && cyg == center.y as int,
                ag == a as int && bg == b as int,
                a <= 0x7FFF && b <= 0x7FFF,
                aa2 == 2 * (ag * ag) && bb2 == 2 * (bg * bg),
                0 <= aa2 < 0x1_0000_0000 && 0 <= bb2 < 0x1_0000_0000,
                q1 == draw_quadrants[0] && q2 == draw_quadrants[1],
                q3 == draw_quadrants[2] && q4 == draw_quadrants[3],
                ellipse_ok(x as int, y as int, dx as int, dy as int, err as int, ag, bg),
                self.grid() == paint_cells(g0, done, color),
            ensures
                self.wf(),
                self.width == old(self).width,
                self.height == old(self).height,
                y <= b,
                y as int == pts_full[pts_full.len() - 1].1,
                done == arc_cells(cxg, cyg, pts_full, q1, q2, q3, q4),
                self.grid() == paint_cells(g0, done, color),
            decreases x, ellipse_gap(dx as int, err as int),
        {
            let ghost done0 = done;
            let ghost pts_cur = ellipse_points(
                x as int,
                y as int,
                dx as int,
                dy as int,
                err as int,
                ag,
                bg,
            );
            proof {
                lemma_ellipse_bounds(x as int, y as int, dx as int, dy as int, err as int, ag, bg);
            }
            // Plot the four mirrors of the current arc offset.
            if q1 {
                let xo = center.x.checked_add(x);
                let yo = center.y.checked_sub(y);
                self.plot_mirror(xo, yo, color, Ghost(cxg + x as int), Ghost(cyg - y as int));
                proof {
                    lemma_paint_cells_snoc(g0, done, (cxg + x as int, cyg - y as int), color);
                    done = done.push((cxg + x as int, cyg - y as int));
                }
            }
            if q2 {
                let xo = center.x.checked_sub(x);
                let yo = center.y.checked_sub(y);
                self.plot_mirror(xo, yo, color, Ghost(cxg - x as int), Ghost(cyg - y as int));
                proof {
                    lemma_paint_cells_snoc(g0, done, (cxg - x as int, cyg - y as int), color);
                    done = done.push((cxg - x as int, cyg - y as int));
                }
            }
            if q3 {
                let xo = center.x.checked_sub(x);
                let yo = center.y.checked_add(y);
                self.plot_mirror(xo, yo, color, Ghost(cxg - x as int), Ghost(cyg + y as int));
                proof {
                    lemma_paint_cells_snoc(g0, done, (cxg - x as int, cyg + y as int), color);
                    done = done.push((cxg - x as int, cyg + y as int));
                }
            }
            if q4 {
                let xo = center.x.checked_add(x);
                let yo = center.y.checked_add(y);
                self.plot_mirror(xo, yo, color, Ghost(cxg + x as int), Ghost(cyg + y as int));
                proof {
                    lemma_paint_cells_snoc(g0, done, (cxg + x as int, cyg + y as int), color);
                    done = done.push((cxg + x as int, cyg + y as int));
                }
            }
            proof {
                assert(done =~= done0 + quad_cells(
                    cxg,
                    cyg,
                    x as int,
                    y as int,
                    q1,
                    q2,
                    q3,
                    q4,
                ));
            }
            let e2 = 2 * err;
            if e2 >= dx {
                if x == 0 {
                    proof {
                        assert(pts_cur == seq![(x as int, y as int)]);
                        assert(arc_cells(cxg, cyg, pts_cur, q1, q2, q3, q4) == quad_cells(
                            cxg,
                            cyg,
                            x as int,
                            y as int,
                            q1,
                            q2,
                            q3,
                            q4,
                        ) + arc_cells(cxg, cyg, pts_cur.skip(1), q1, q2, q3, q4));
                        assert(pts_cur.skip(1) =~= Seq::<(int, int)>::empty());
                        assert(arc_cells(cxg, cyg, pts_full, q1, q2, q3, q4) =~= done);
                    }
                    break ;
                }
                proof {
                    lemma_ellipse_advance(
                        x as int,
                        y as int,
                        dx as int,
                        dy as int,
                        err as int,
                        ag,
                        bg,
                    );
                }
                x = x - 1;
                dx = dx + bb2;
                err = err + dx;
            } else {
                proof {
                    lemma_ellipse_advance(
                        x as int,
                        y as int,
                        dx as int,
                        dy as int,
                        err as int,
                        ag,
                        bg,
                    );
                }
            }
            if e2 <= dy {
                y = y + 1;
                dy = dy + aa2;
                err = err + dy;
            }
            proof {
                let pts_next = ellipse_points(
                    x as int,
                    y as int,
                    dx as int,
                    dy as int,
                    err as int,
                    ag,
                    bg,
                );
                assert(pts_cur == seq![pts_cur[0]] + pts_next);
                assert(pts_cur.skip(1) =~= pts_next);
                lemma_ellipse_points_props(
                    x as int,
                    y as int,
                    dx as int,
                    dy as int,
                    err as int,
                    ag,
                    bg,
                );
                assert(pts_full[pts_full.len() - 1] == pts_next[pts_next.len() - 1]);
                assert(done0 + (quad_cells(cxg, cyg, pts_cur[0].0, pts_cur[0].1, q1, q2, q3, q4)
                    + arc_cells(cxg, cyg, pts_next, q1, q2, q3, q4)) =~= done + arc_cells(
                    cxg,
                    cyg,
                    pts_next,
                    q1,
                    q2,
                    q3,
                    q4,
                ));
            }
        }
        // Close very flat ellipses: walk the remaining height and plot the
        // single top and/or bottom column cells.
        let ghost cap_start = y as int;
        let ghost arc_done = done;
        let ghost capf = cap_cells(cxg, cyg, cap_start, bg, q1 || q2, q3 || q4);
        let ghost mut capdone: Seq<(int, int)> = Seq::empty();
        proof {
            assert(done + Seq::<(int, int)>::empty() =~= done);
        }
        while y < b
            invariant
                self.wf(),
                old(self).wf(),
                self.width == old(self).width,
                self.height == old(self).height,
                g0 == old(self).grid(),
                cxg == center.x as int && cyg == center.y as int,
                bg == b as int,
                b <= 0x7FFF,
                q1 == draw_quadrants[0] && q2 == draw_quadrants[1],
                q3 == draw_quadrants[2] && q4 == draw_quadrants[3],
                cap_start <= y as int <= bg,
                capf == cap_cells(cxg, cyg, cap_start, bg, q1 || q2, q3 || q4),
                capf == capdone + cap_cells(cxg, cyg, y as int, bg, q1 || q2, q3 || q4),
                done == arc_done + capdone,
                self.grid() == paint_cells(g0, done, color),
            decreases b - y,
        {
            let ghost capdone0 = capdone;
            let ghost yprev = y as int;
            y = y + 1;
            if q1 || q2 {
                let yo = center.y.checked_sub(y);
                self.plot_mirror(Some(center.x), yo, color, Ghost(cxg), Ghost(cyg - y as int));
                proof {
                    lemma_paint_cells_snoc(g0, done, (cxg, cyg - y as int), color);
                    done = done.push((cxg, cyg - y as int));
                    capdone = capdone.push((cxg, cyg - y as int));
                }
            }
            if q3 || q4 {
                let yo = center.y.checked_add(y);
                self.plot_mirror(Some(center.x), yo, color, Ghost(cxg), Ghost(cyg + y as int));
                proof {
                    lemma_paint_cells_snoc(g0, done, (cxg, cyg + y as int), color);
                    done = done.push((cxg, cyg + y as int));
                    capdone = capdone.push((cxg, cyg + y as int));
                }
            }
            proof {
                let pair = (if q1 || q2 {
                    seq![(cxg, cyg - (yprev + 1))]
                } else {
                    Seq::<(int, int)>::empty()
                }) + (if q3 || q4 {
                    seq![(cxg, cyg + (yprev + 1))]
                } else {
                    Seq::<(int, int)>::empty()
                });
                assert(cap_cells(cxg, cyg, yprev, bg, q1 || q2, q3 || q4) == pair + cap_cells(
                    cxg,
                    cyg,
                    yprev + 1,
                    bg,
                    q1 || q2,
                    q3 || q4,
                ));
                assert(capdone =~= capdone0 + pair);
                assert(capdone0 + (pair + cap_cells(cxg, cyg, y as int, bg, q1 || q2, q3 || q4))
                    =~= capdone + cap_cells(cxg, cyg, y as int, bg, q1 || q2, q3 || q4));
                assert(done =~= arc_done + capdone);
                assert(self.grid() == paint_cells(g0, done, color));
            }
        }
        proof {
            assert(cap_cells(cxg, cyg, y as int, bg, q1 || q2, q3 || q4) == Seq::<(
                int,
                int,
            )>::empty());
            assert(capdone + Seq::<(int, int)>::empty() =~= capdone);
            assert(done == arc_done + capf);
            assert(done == ellipse_cells(
                cxg,
                cyg,
                ag,
                bg,
                draw_quadrants[0],
                draw_quadrants[1],
                draw_quadrants[2],
                draw_quadrants[3],
            ));
        }
    }
}

} // verus!
