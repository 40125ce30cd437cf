use vstd::prelude::*;

use crate::line::bres_steps;
use crate::line::line_points;

verus! {

/// A grid of `sx` by `sy` blank cells.
pub open spec fn blank_grid(sx: int, sy: int) -> Seq<Seq<bool>> {
    Seq::new(sx as nat, |i: int| Seq::new(sy as nat, |j: int| false))
}

/// One plot into a grid of the given dimensions: the point is translated by
/// half the grid size on each axis, so that the logical origin sits at the
/// centre, and a write whose translated index falls outside the grid is
/// dropped silently.
pub open spec fn plot_spec(v: Seq<Seq<bool>>, sx: int, sy: int, p: (int, int)) -> Seq<
    Seq<bool>,
> {
    let i = p.0 + sx / 2;
    let j = p.1 + sy / 2;
    if 0 <= i < sx && 0 <= j < sy {
        v.update(i, v[i].update(j, true))
    } else {
        v
    }
}

/// The grid after plotting each point of `pts` in order.
pub open spec fn plotted(v: Seq<Seq<bool>>, sx: int, sy: int, pts: Seq<(int, int)>) -> Seq<
    Seq<bool>,
>
    decreases pts.len(),
{
    if pts.len() == 0 {
        v
    } else {
        plotted(plot_spec(v, sx, sy, pts[0]), sx, sy, pts.drop_first())
    }
}

/// Peeling the first point off a plot sequence.
proof fn lemma_plotted_step(
    v: Seq<Seq<bool>>,
    sx: int,
    sy: int,
    p: (int, int),
    rest: Seq<(int, int)>,
)
    ensures
        plotted(v, sx, sy, seq![p] + rest) == plotted(plot_spec(v, sx, sy, p), sx, sy, rest),
{
    let pts = seq![p] + rest;
    assert(pts[0] == p);
    assert(pts.drop_first() =~= rest);
}

/// Bounds safety: plotting a point whose translated index falls outside the
/// grid leaves the grid exactly as it was, on any coordinates whatsoever.
pub proof fn lemma_plot_out_of_range(v: Seq<Seq<bool>>, sx: int, sy: int, p: (int, int))
    requires
        !(0 <= p.0 + sx / 2 < sx) || !(0 <= p.1 + sy / 2 < sy),
    ensures
        plot_spec(v, sx, sy, p) == v,
{
}

/// Drawing a segment marks the same cells whichever endpoint comes first:
/// starting from any grid, plotting the cells of a segment and of its
/// reversal leaves identical grids.
pub proof fn lemma_draw_line_symmetry(
    v: Seq<Seq<bool>>,
    sx: int,
    sy: int,
    x1: int,
    y1: int,
    x2: int,
    y2: int,
)
    ensures
        plotted(v, sx, sy, line_points(x1, y1, x2, y2)) == plotted(
            v,
            sx,
            sy,
            line_points(x2, y2, x1, y1),
        ),
{
    crate::line::lemma_line_symmetry(x1, y1, x2, y2);
}

/// The character standing for one cell: `.` blank, `@` marked.
pub open spec fn cell_byte(c: bool) -> u8 {
    if c {
        64u8
    } else {
        46u8
    }
}

/// One rendered grid row: its cells' characters, then a newline.
pub open spec fn render_row(r: Seq<bool>) -> Seq<u8> {
    r.map_values(|c: bool| cell_byte(c)).push(10u8)
}

/// Rows `i - 1` down to `0` of the grid, rendered top to bottom.
pub open spec fn render_rows(v: Seq<Seq<bool>>, i: int) -> Seq<u8>
    decreases i,
{
    if i <= 0 {
        Seq::empty()
    } else {
        render_row(v[i - 1]) + render_rows(v, i - 1)
    }
}

/// The textual dump of a grid: rows in reverse storage order, so that the
/// bottom-up internal coordinates come out as conventional top-down text.
pub open spec fn render_spec(v: Seq<Seq<bool>>) -> Seq<u8> {
    render_rows(v, v.len() as int)
}

/// A raster buffer of cells, each blank (`false`) or marked (`true`), with
/// the logical origin at its centre.  Out-of-range writes are clipped, never
/// reported: that is the buffer's sole bounds policy.
pub struct Canvas {
    size_x: usize,
    size_y: usize,
    cells: Vec<Vec<bool>>,
}

impl View for Canvas {
    type V = Seq<Seq<bool>>;

    closed spec fn view(&self) -> Seq<Seq<bool>> {
        self.cells@.map_values(|row: Vec<bool>| row@)
    }
}

impl Canvas {
    /// Number of cells along the first (major row) axis.
    pub closed spec fn spec_size_x(&self) -> int {
        self.size_x as int
    }

    /// Number of cells along the second axis.
    pub closed spec fn spec_size_y(&self) -> int {
        self.size_y as int
    }

    /// The stored grid matches the advertised dimensions.
    pub open spec fn wf(&self) -> bool {
        &&& self@.len() == self.spec_size_x()
        &&& forall|i: int| 0 <= i < self@.len() ==> (#[trigger] self@[i]).len() == self.spec_size_y()
    }

    /// A fresh canvas: `size_x` rows of `size_y` blank cells.
    pub fn new(size_x: usize, size_y: usize) -> (c: Canvas)
        ensures
            c.wf(),
            c.spec_size_x() == size_x as int,
            c.spec_size_y() == size_y as int,
            c@ == blank_grid(size_x as int, size_y as int),
    {
        let mut cells: Vec<Vec<bool>> = Vec::new();
        let mut i: usize = 0;
        while i < size_x
            invariant
                i <= size_x,
                cells@.len() == i as int,
                forall|k: int|
                    0 <= k < i as int ==> (#[trigger] cells@[k])@ =~= Seq::new(
                        size_y as nat,
                        |j: int| false,
                    ),
            decreases size_x - i,
        {
            let mut row: Vec<bool> = Vec::new();
            let mut j: usize = 0;
            while j < size_y
                invariant
                    j <= size_y,
                    row@.len() == j as int,
                    forall|k: int| 0 <= k < j as int ==> !(#[trigger] row@[k]),
                decreases size_y - j,
            {
                row.push(false);
                j = j + 1;
            }
            assert(row@ =~= Seq::new(size_y as nat, |j: int| false));
            cells.push(row);
            i = i + 1;
        }
        let c = Canvas { size_x, size_y, cells };
        assert(c@ =~~= blank_grid(size_x as int, size_y as int));
        c
    }

    pub fn size_x(&self) -> (r: usize)
        ensures
            r as int == self.spec_size_x(),
    {
        self.size_x
    }

    pub fn size_y(&self) -> (r: usize)
        ensures
            r as int == self.spec_size_y(),
    {
        self.size_y
    }

    /// Whether the cell at buffer index `(i, j)` is marked; out-of-range
    /// indices read as blank.
    pub fn is_marked(&self, i: usize, j: usize) -> (r: bool)
        requires
            self.wf(),
        ensures
            r == ((i as int) < self@.len() && (j as int) < self@[i as int].len()
                && self@[i as int][j as int]),
    {
        proof {
            assert(self.cells@.len() == self@.len());
            assert(forall|k: int|
                0 <= k < self@.len() ==> (#[trigger] self.cells@[k])@ == self@[k]);
        }
        i < self.size_x && j < self.size_y && self.cells[i][j]
    }

    /// Marks the cell holding the logical point `(x, y)`; a point outside
    /// the buffer is dropped silently and leaves the canvas unchanged.
    pub fn plot(&mut self, x: i32, y: i32)
        requires
            old(self).wf(),
        ensures
            final(self).wf(),
            final(self).spec_size_x() == old(self).spec_size_x(),
            final(self).spec_size_y() == old(self).spec_size_y(),
            final(self)@ == plot_spec(
                old(self)@,
                old(self).spec_size_x(),
                old(self).spec_size_y(),
                (x as int, y as int),
            ),
    {
        self.plot_wide(x as i64, y as i64);
    }

    /// Rasterizes the straight segment between the logical points
    /// `(x1, y1)` and `(x2, y2)`: integer Bresenham error accumulation,
    /// stepping along the axis with the larger extent (transposing steep
    /// segments), with out-of-range cells clipped silently.  The cells it
    /// marks, in order, are exactly `line_points(x1, y1, x2, y2)`.
    pub fn draw_line(&mut self, x1: i32, y1: i32, x2: i32, y2: i32)
        requires
            old(self).wf(),
        ensures
            final(self).wf(),
            final(self).spec_size_x() == old(self).spec_size_x(),
            final(self).spec_size_y() == old(self).spec_size_y(),
            final(self)@ == plotted(
                old(self)@,
                old(self).spec_size_x(),
                old(self).spec_size_y(),
                line_points(x1 as int, y1 as int, x2 as int, y2 as int),
            ),
    {
        let mut a1: i64 = x1 as i64;
        let mut b1: i64 = y1 as i64;
        let mut a2: i64 = x2 as i64;
        let mut b2: i64 = y2 as i64;

        let rise: i64 = if b2 >= b1 {
            b2 - b1
        } else {
            b1 - b2
        };
        let run: i64 = if a2 >= a1 {
            a2 - a1
        } else {
            a1 - a2
        };
        let steep = rise > run;
        if steep {
            let t1 = a1;
            a1 = b1;
            b1 = t1;
            let t2 = a2;
            a2 = b2;
            b2 = t2;
        }
        if a1 > a2 {
            let ta = a1;
            a1 = a2;
            a2 = ta;
            let tb = b1;
            b1 = b2;
            b2 = tb;
        }
        let d_err: i64 = if b2 >= b1 {
            b2 - b1
        } else {
            b1 - b2
        };
        let dx: i64 = a2 - a1;
        let iy: i64 = if b1 < b2 {
            1
        } else {
            -1
        };
        let mut err: i64 = dx / 2;
        let mut y: i64 = b1;
        let mut x: i64 = a1;

        let ghost v0 = self@;
        let ghost sx = self.spec_size_x();
        let ghost sy = self.spec_size_y();
        let ghost pts = line_points(x1 as int, y1 as int, x2 as int, y2 as int);
        proof {
            assert(steep == crate::line::steep_of(x1 as int, y1 as int, x2 as int, y2 as int));
            assert(bres_steps(
                x as int,
                y as int,
                err as int,
                a2 as int,
                dx as int,
                d_err as int,
                iy as int,
                steep,
            ) == pts);
        }
        while x <= a2
            invariant
                self.wf(),
                self.spec_size_x() == sx,
                self.spec_size_y() == sy,
                -0x8000_0000 <= a1 <= 0x8000_0000,
                -0x8000_0000 <= b1 <= 0x8000_0000,
                -0x8000_0000 <= a2 <= 0x8000_0000,
                a1 <= x <= a2 + 1,
                dx == a2 - a1,
                0 <= d_err <= dx,
                0 <= err <= dx,
                iy == 1 || iy == -1,
                iy == 1 ==> b1 <= y <= b1 + (x - a1),
                iy == -1 ==> b1 - (x - a1) <= y <= b1,
                plotted(
                    self@,
                    sx,
                    sy,
                    bres_steps(
                        x as int,
                        y as int,
                        err as int,
                        a2 as int,
                        dx as int,
                        d_err as int,
                        iy as int,
                        steep,
                    ),
                ) == plotted(v0, sx, sy, pts),
            decreases a2 + 1 - x,
        {
            let ghost v_prev = self@;
            let ghost rem = bres_steps(
                x as int,
                y as int,
                err as int,
                a2 as int,
                dx as int,
                d_err as int,
                iy as int,
                steep,
            );
            if steep {
                self.plot_wide(y, x);
            } else {
                self.plot_wide(x, y);
            }
            proof {
                let p = if steep {
                    (y as int, x as int)
                } else {
                    (x as int, y as int)
                };
                let e = err as int - d_err as int;
                let y_next: int = if e < 0 {
                    y as int + iy as int
                } else {
                    y as int
                };
                let e_next: int = if e < 0 {
                    e + dx as int
                } else {
                    e
                };
                let rest = bres_steps(
                    x as int + 1,
                    y_next,
                    e_next,
                    a2 as int,
                    dx as int,
                    d_err as int,
                    iy as int,
                    steep,
                );
                assert(rem == seq![p] + rest);
                lemma_plotted_step(v_prev, sx, sy, p, rest);
            }
            err = err - d_err;
            if err < 0 {
                y = y + iy;
                err = err + dx;
            }
            x = x + 1;
        }
    }

    /// The canvas as text, one line per row, rows in reverse storage order.
    pub fn render(&self) -> (out: Vec<u8>)
        requires
            self.wf(),
        ensures
            out@ == render_spec(self@),
    {
        let mut out: Vec<u8> = Vec::new();
        let mut i: usize = self.size_x;
        proof {
            assert(self.cells@.len() == self@.len());
            assert(forall|k: int|
                0 <= k < self@.len() ==> (#[trigger] self.cells@[k])@ == self@[k]);
        }
        while i > 0
            invariant
                self.wf(),
                i <= self.size_x,
                self@.len() == self.size_x as int,
                self.cells@.len() == self@.len(),
                forall|k: int| 0 <= k < self@.len() ==> (#[trigger] self.cells@[k])@ == self@[k],
                out@ + render_rows(self@, i as int) == render_spec(self@),
            decreases i,
        {
            i = i - 1;
            let ghost out0 = out@;
            let row = &self.cells[i];
            let mut j: usize = 0;
            while j < row.len()
                invariant
                    j <= row@.len(),
                    out@ == out0 + row@.take(j as int).map_values(|c: bool| cell_byte(c)),
                decreases row@.len() - j as int,
            {
                let c = row[j];
                out.push(if c {
                    64u8
                } else {
                    46u8
                });
                proof {
                    assert(out@ =~= out0 + row@.take(j as int + 1).map_values(
                        |c: bool| cell_byte(c),
                    ));
                }
                j = j + 1;
            }
            out.push(10u8);
            proof {
                assert(row@.take(row@.len() as int) =~= row@);
                assert(out@ =~= out0 + render_row(self@[i as int]));
                assert(out@ + render_rows(self@, i as int) =~= out0 + render_rows(
                    self@,
                    i as int + 1,
                ));
            }
        }
        proof {
            assert(out@ + render_rows(self@, 0) =~= out@);
        }
        out
    }

    /// `plot` on wide coordinates, shared with the rasterizer's loop.
    fn plot_wide(&mut self, x: i64, y: i64)
        requires
            old(self).wf(),
        ensures
            final(self).wf(),
            final(self).spec_size_x() == old(self).spec_size_x(),
            final(self).spec_size_y() == old(self).spec_size_y(),
            final(self)@ == plot_spec(
                old(self)@,
                old(self).spec_size_x(),
                old(self).spec_size_y(),
                (x as int, y as int),
            ),
    {
        let i = x as i128 + (self.size_x / 2) as i128;
        let j = y as i128 + (self.size_y / 2) as i128;
        if 0 <= i && i < self.size_x as i128 && 0 <= j && j < self.size_y as i128 {
            let ii = i as usize;
            let jj = j as usize;
            proof {
                assert(self.cells@.len() == self@.len());
                assert(forall|k: int|
                    0 <= k < self@.len() ==> (#[trigger] self.cells@[k])@ == self@[k]);
            }
            self.cells[ii][jj] = true;
            assert(self@ =~~= plot_spec(
                old(self)@,
                old(self).spec_size_x(),
                old(self).spec_size_y(),
                (x as int, y as int),
            ));
        }
    }
}

} // verus!
