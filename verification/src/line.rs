use vstd::prelude::*;

verus! {

/// Distance between two integers on the number line.
pub open spec fn abs_diff(a: int, b: int) -> int {
    if a >= b {
        a - b
    } else {
        b - a
    }
}

/// A segment is steep when its vertical extent exceeds its horizontal one;
/// such a segment is rasterized in transposed coordinates so that the
/// iteration always follows the major axis.
pub open spec fn steep_of(x1: int, y1: int, x2: int, y2: int) -> bool {
    abs_diff(y2, y1) > abs_diff(x2, x1)
}

/// The cells visited by the Bresenham error-accumulation loop, starting at
/// `(x, y)` with error term `err` and stepping the major coordinate up to
/// `x_end`.  `dx` is the full major-axis span, `d_err` the minor-axis span,
/// and `iy` the minor-axis step direction.  When `steep` is set the walk
/// happens in transposed coordinates and each emitted point is swapped back.
pub open spec fn bres_steps(
    x: int,
    y: int,
    err: int,
    x_end: int,
    dx: int,
    d_err: int,
    iy: int,
    steep: bool,
) -> Seq<(int, int)>
    decreases x_end - x + 1,
{
    if x > x_end {
        Seq::empty()
    } else {
        let p = if steep {
            (y, x)
        } else {
            (x, y)
        };
        let e = err - d_err;
        let y_next = if e < 0 {
            y + iy
        } else {
            y
        };
        let e_next = if e < 0 {
            e + dx
        } else {
            e
        };
        seq![p] + bres_steps(x + 1, y_next, e_next, x_end, dx, d_err, iy, steep)
    }
}

/// The Bresenham walk over endpoints already ordered along the major axis
/// (`x1 <= x2` is expected): the error term starts at half the major span.
pub open spec fn line_points_ordered(x1: int, y1: int, x2: int, y2: int, steep: bool) -> Seq<
    (int, int),
> {
    bres_steps(
        x1,
        y1,
        (x2 - x1) / 2,
        x2,
        x2 - x1,
        abs_diff(y2, y1),
        if y1 < y2 {
            1
        } else {
            -1
        },
        steep,
    )
}

/// Orders the endpoints so the walk proceeds with increasing major
/// coordinate, then hands them to the ordered walk.
pub open spec fn line_points_axis(x1: int, y1: int, x2: int, y2: int, steep: bool) -> Seq<
    (int, int),
> {
    if x1 > x2 {
        line_points_ordered(x2, y2, x1, y1, steep)
    } else {
        line_points_ordered(x1, y1, x2, y2, steep)
    }
}

/// The cells of the rasterized segment from `(x1, y1)` to `(x2, y2)`, in the
/// order they are plotted: round-free integer Bresenham with the steep-line
/// transpose and the increasing-major-axis normalization.
pub open spec fn line_points(x1: int, y1: int, x2: int, y2: int) -> Seq<(int, int)> {
    if steep_of(x1, y1, x2, y2) {
        line_points_axis(y1, x1, y2, x2, true)
    } else {
        line_points_axis(x1, y1, x2, y2, false)
    }
}

/// The walk emits one point per major-axis step, endpoints inclusive.
proof fn lemma_bres_steps_len(
    x: int,
    y: int,
    err: int,
    x_end: int,
    dx: int,
    d_err: int,
    iy: int,
    steep: bool,
)
    ensures
        bres_steps(x, y, err, x_end, dx, d_err, iy, steep).len() == if x > x_end {
            0int
        } else {
            x_end - x + 1
        },
    decreases x_end - x + 1,
{
    if x <= x_end {
        let e = err - d_err;
        let y_next = if e < 0 {
            y + iy
        } else {
            y
        };
        let e_next = if e < 0 {
            e + dx
        } else {
            e
        };
        lemma_bres_steps_len(x + 1, y_next, e_next, x_end, dx, d_err, iy, steep);
    }
}

/// The error term tracks the walk exactly: from a state whose error satisfies
/// the Bresenham balance (half the major span, plus the minor span owed per
/// remaining step, minus a full span per minor step already owed), the walk's
/// last point is the far endpoint `(x_end, y_end)`.
proof fn lemma_bres_last(
    x: int,
    y: int,
    err: int,
    x_end: int,
    dx: int,
    d_err: int,
    iy: int,
    steep: bool,
    y_end: int,
)
    requires
        x <= x_end,
        0 <= d_err <= dx,
        0 <= err <= dx,
        iy == 1 || iy == -1,
        err == dx / 2 + (x_end - x) * d_err - (iy * (y_end - y)) * dx,
        0 <= iy * (y_end - y) <= x_end - x,
        dx == 0 ==> y == y_end,
    ensures
        bres_steps(x, y, err, x_end, dx, d_err, iy, steep).last() == (if steep {
            (y_end, x_end)
        } else {
            (x_end, y_end)
        }),
    decreases x_end - x,
{
    let pts = bres_steps(x, y, err, x_end, dx, d_err, iy, steep);
    let k = x_end - x;
    let m = iy * (y_end - y);
    let p = if steep {
        (y, x)
    } else {
        (x, y)
    };
    let e = err - d_err;
    let y_next = if e < 0 {
        y + iy
    } else {
        y
    };
    let e_next = if e < 0 {
        e + dx
    } else {
        e
    };
    let rest = bres_steps(x + 1, y_next, e_next, x_end, dx, d_err, iy, steep);
    if x == x_end {
        assert(m == 0);
        assert(y == y_end) by (nonlinear_arith)
            requires
                iy == 1 || iy == -1,
                iy * (y_end - y) == 0,
        ;
        assert(rest == Seq::<(int, int)>::empty());
        assert(pts =~= seq![p]);
    } else {
        if e < 0 {
            assert(m >= 1) by {
                if m == 0 {
                    assert(err == dx / 2 + k * d_err) by (nonlinear_arith)
                        requires
                            m == 0,
                            err == dx / 2 + k * d_err - m * dx,
                    ;
                    assert(k * d_err >= d_err) by (nonlinear_arith)
                        requires
                            k >= 1,
                            d_err >= 0,
                    ;
                    assert(false);
                }
            }
            assert(iy * (y_end - y_next) == m - 1) by (nonlinear_arith)
                requires
                    iy == 1 || iy == -1,
                    y_next == y + iy,
                    m == iy * (y_end - y),
            ;
            assert(e_next == dx / 2 + (k - 1) * d_err - (m - 1) * dx) by (nonlinear_arith)
                requires
                    e_next == err - d_err + dx,
                    err == dx / 2 + k * d_err - m * dx,
            ;
            lemma_bres_last(x + 1, y_next, e_next, x_end, dx, d_err, iy, steep, y_end);
        } else {
            assert(m <= k - 1) by {
                if m >= k {
                    assert(m == k);
                    assert(dx > 0) by {
                        if dx == 0 {
                            assert(m == 0);
                        }
                    }
                    assert((k - 1) * d_err <= (k - 1) * dx) by (nonlinear_arith)
                        requires
                            k >= 1,
                            0 <= d_err <= dx,
                    ;
                    assert(e == dx / 2 + (k - 1) * d_err - k * dx) by (nonlinear_arith)
                        requires
                            e == err - d_err,
                            m == k,
                            err == dx / 2 + k * d_err - m * dx,
                    ;
                    assert(e <= dx / 2 - dx) by (nonlinear_arith)
                        requires
                            e == dx / 2 + (k - 1) * d_err - k * dx,
                            (k - 1) * d_err <= (k - 1) * dx,
                    ;
                    assert(false);
                }
            }
            assert(e_next == dx / 2 + (k - 1) * d_err - m * dx) by (nonlinear_arith)
                requires
                    e_next == err - d_err,
                    err == dx / 2 + k * d_err - m * dx,
            ;
            lemma_bres_last(x + 1, y, e_next, x_end, dx, d_err, iy, steep, y_end);
        }
        lemma_bres_steps_len(x + 1, y_next, e_next, x_end, dx, d_err, iy, steep);
        assert(rest.len() == k);
        assert(pts.last() == rest.last());
    }
}

/// A rasterized segment contains both of its endpoints: the normalized walk
/// starts at one, and the error accumulation lands exactly on the other.
pub proof fn lemma_line_endpoints(x1: int, y1: int, x2: int, y2: int)
    ensures
        line_points(x1, y1, x2, y2).contains((x1, y1)),
        line_points(x1, y1, x2, y2).contains((x2, y2)),
        line_points(x1, y1, x2, y2).len() == 1 + if steep_of(x1, y1, x2, y2) {
            abs_diff(y2, y1)
        } else {
            abs_diff(x2, x1)
        },
{
    let steep = steep_of(x1, y1, x2, y2);
    let u1 = if steep {
        y1
    } else {
        x1
    };
    let v1 = if steep {
        x1
    } else {
        y1
    };
    let u2 = if steep {
        y2
    } else {
        x2
    };
    let v2 = if steep {
        x2
    } else {
        y2
    };
    let o1 = if u1 > u2 {
        u2
    } else {
        u1
    };
    let p1 = if u1 > u2 {
        v2
    } else {
        v1
    };
    let o2 = if u1 > u2 {
        u1
    } else {
        u2
    };
    let p2 = if u1 > u2 {
        v1
    } else {
        v2
    };
    let dx = o2 - o1;
    let d_err = abs_diff(p2, p1);
    let iy: int = if p1 < p2 {
        1
    } else {
        -1
    };
    let pts = line_points(x1, y1, x2, y2);
    assert(pts == bres_steps(o1, p1, dx / 2, o2, dx, d_err, iy, steep));
    lemma_bres_steps_len(o1, p1, dx / 2, o2, dx, d_err, iy, steep);
    assert(pts.len() == dx + 1);
    assert(pts[0] == if steep {
        (p1, o1)
    } else {
        (o1, p1)
    });
    assert(iy * (p2 - p1) == d_err);
    assert(dx / 2 == dx / 2 + (o2 - o1) * d_err - (iy * (p2 - p1)) * dx) by (nonlinear_arith)
        requires
            dx == o2 - o1,
            iy * (p2 - p1) == d_err,
    ;
    lemma_bres_last(o1, p1, dx / 2, o2, dx, d_err, iy, steep, p2);
    assert(pts.last() == if steep {
        (p2, o2)
    } else {
        (o2, p2)
    });
    assert(pts.contains(pts[0])) by {
        assert(pts[0] == pts[0]);
    }
    assert(pts.contains(pts.last())) by {
        assert(pts[pts.len() - 1] == pts.last());
    }
}

/// Rasterization is direction-independent: a segment and its reversal visit
/// exactly the same cells, in the same normalized order.
pub proof fn lemma_line_symmetry(x1: int, y1: int, x2: int, y2: int)
    ensures
        line_points(x1, y1, x2, y2) == line_points(x2, y2, x1, y1),
{
    assert(steep_of(x1, y1, x2, y2) == steep_of(x2, y2, x1, y1));
    if steep_of(x1, y1, x2, y2) {
        if y1 == y2 {
            assert(abs_diff(y2, y1) == 0);
            assert(false);
        }
    } else {
        if x1 == x2 {
            assert(abs_diff(y2, y1) <= 0);
            assert(y1 == y2);
        }
    }
}

} // verus!
