use vstd::prelude::*;
use vstd::arithmetic::div_mod::{lemma_div_is_ordered_by_denominator, lemma_fundamental_div_mod};

use crate::cell::Cell;

verus! {

/// Why a grid could not be laid out.
#[derive(Clone, Copy, Debug, PartialEq, Eq, Structural)]
pub enum ConfigError {
    /// The grid has no rows or no columns.
    EmptyGrid,
    /// A cell has zero width or zero height.
    EmptyCell,
}

/// The parameters a grid was laid out with.
#[derive(Clone, Copy, Debug, PartialEq, Eq, Structural)]
pub struct Layout {
    pub rows: u16,
    pub columns: u16,
    pub cell_width: u16,
    pub cell_height: u16,
    /// The gap between two neighbouring cells, also kept (halved) at the
    /// grid's border.
    pub margin: u16,
    /// The top-left corner of the grid.
    pub origin_x: i32,
    pub origin_y: i32,
}

impl Layout {
    pub open spec fn valid(self) -> bool {
        &&& self.rows > 0
        &&& self.columns > 0
        &&& self.cell_width > 0
        &&& self.cell_height > 0
    }

    pub open spec fn cell_count(self) -> int {
        self.rows as int * self.columns as int
    }
}

/// Twice the x coordinate of the centre of the cells in column `col`:
/// `origin_x + margin/2 + width/2 + col * (width + margin)`, doubled.
pub open spec fn center_x2_of(origin_x: int, margin: int, width: int, col: int) -> int {
    2 * origin_x + margin + width + 2 * col * (width + margin)
}

/// Twice the y coordinate of the centre of the cells in row `row`:
/// `origin_y - margin/2 - height/2 - row * (height + margin)`, doubled.
pub open spec fn center_y2_of(origin_y: int, margin: int, height: int, row: int) -> int {
    2 * origin_y - margin - height - 2 * row * (height + margin)
}

/// Cell `c` has the rectangle that `l` gives to index `i` in row-major
/// order (row `i / columns`, column `i % columns`).
pub open spec fn placed(c: Cell, l: Layout, i: int) -> bool {
    &&& c.center_x2 as int == center_x2_of(
        l.origin_x as int,
        l.margin as int,
        l.cell_width as int,
        i % (l.columns as int),
    )
    &&& c.center_y2 as int == center_y2_of(
        l.origin_y as int,
        l.margin as int,
        l.cell_height as int,
        i / (l.columns as int),
    )
    &&& c.width == l.cell_width
    &&& c.height == l.cell_height
}

/// `i` is the lowest index of a cell whose rectangle holds the point.
pub open spec fn is_first_hit(cells: Seq<Cell>, px: int, py: int, i: int) -> bool {
    &&& 0 <= i < cells.len()
    &&& cells[i].contains(px, py)
    &&& forall|j: int| 0 <= j < i ==> !(#[trigger] cells[j]).contains(px, py)
}

/// No two cells are hovered.
pub open spec fn at_most_one_hovered(cells: Seq<Cell>) -> bool {
    forall|i: int, j: int|
        0 <= i < cells.len() && 0 <= j < cells.len() && (#[trigger] cells[i]).hover && (
        #[trigger] cells[j]).hover ==> i == j
}

/// The cells after one tick with the pointer at `(px, py)`: the first cell
/// that holds the pointer is the only one hovered, and on a press it is
/// toggled.
pub open spec fn ticked(cells: Seq<Cell>, px: int, py: int, pressed: bool) -> Seq<Cell> {
    Seq::new(
        cells.len(),
        |i: int|
            {
                let hit = is_first_hit(cells, px, py, i);
                Cell {
                    hover: hit,
                    state: if pressed && hit {
                        !cells[i].state
                    } else {
                        cells[i].state
                    },
                    ..cells[i]
                }
            },
    )
}

/// Every tick leaves at most one cell hovered: only the first cell that holds
/// the pointer is.
pub proof fn lemma_ticked_one_hover(cells: Seq<Cell>, px: int, py: int, pressed: bool)
    ensures
        at_most_one_hovered(ticked(cells, px, py, pressed)),
{
    let t = ticked(cells, px, py, pressed);
    assert forall|i: int, j: int|
        0 <= i < t.len() && 0 <= j < t.len() && (#[trigger] t[i]).hover && (
        #[trigger] t[j]).hover implies i == j by {
        assert(is_first_hit(cells, px, py, i));
        assert(is_first_hit(cells, px, py, j));
        if i < j {
            assert(!cells[i].contains(px, py));
        } else if j < i {
            assert(!cells[j].contains(px, py));
        }
    }
}

/// A grid of cells laid out in rows and columns.
pub struct LightsOut {
    layout: Layout,
    cells: Vec<Cell>,
}

impl View for LightsOut {
    type V = Seq<Cell>;

    /// The cells in row-major order.
    closed spec fn view(&self) -> Seq<Cell> {
        self.cells@
    }
}

impl LightsOut {
    pub closed spec fn spec_layout(&self) -> Layout {
        self.layout
    }

    /// The grid is laid out as its layout says and at most one cell is
    /// hovered.
    pub closed spec fn wf(&self) -> bool {
        &&& self.layout.valid()
        &&& self.cells@.len() == self.layout.cell_count()
        &&& forall|i: int|
            0 <= i < self.cells@.len() ==> placed(#[trigger] self.cells@[i], self.layout, i)
        &&& at_most_one_hovered(self.cells@)
    }

    /// Lays out `rows * columns` cells, all off and none hovered, row by
    /// row from the top-left corner `origin`, each `cell_size` wide with
    /// `margin` between neighbours.
    pub fn new(rows: u16, columns: u16, cell_size: (u16, u16), margin: u16, origin: (i32, i32)) -> (r:
        Result<LightsOut, ConfigError>)
        ensures
            match r {
                Ok(g) => {
                    &&& g.wf()
                    &&& g.spec_layout() == (Layout {
                        rows,
                        columns,
                        cell_width: cell_size.0,
                        cell_height: cell_size.1,
                        margin,
                        origin_x: origin.0,
                        origin_y: origin.1,
                    })
                    &&& g@.len() == rows * columns
                    &&& forall|i: int|
                        0 <= i < g@.len() ==> placed(#[trigger] g@[i], g.spec_layout(), i)
                            && !g@[i].state && !g@[i].hover
                },
                Err(ConfigError::EmptyGrid) => rows == 0 || columns == 0,
                Err(ConfigError::EmptyCell) => rows > 0 && columns > 0 && (cell_size.0 == 0
                    || cell_size.1 == 0),
            },
            r is Ok <==> (rows > 0 && columns > 0 && cell_size.0 > 0 && cell_size.1 > 0),
    {
        if rows == 0 || columns == 0 {
            return Err(ConfigError::EmptyGrid);
        }
        if cell_size.0 == 0 || cell_size.1 == 0 {
            return Err(ConfigError::EmptyCell);
        }
        let layout = Layout {
            rows,
            columns,
            cell_width: cell_size.0,
            cell_height: cell_size.1,
            margin,
            origin_x: origin.0,
            origin_y: origin.1,
        };
        assert(rows as int * columns as int <= 65535 * 65535) by (nonlinear_arith)
            requires
                rows <= 65535,
                columns <= 65535,
        ;
        let n: usize = rows as usize * columns as usize;
        let mut cells: Vec<Cell> = Vec::new();
        let mut i: usize = 0;
        while i < n
            invariant
                n == layout.cell_count(),
                n <= 65535 * 65535,
                layout.valid(),
                layout.rows == rows,
                layout.columns == columns,
                layout.cell_width == cell_size.0,
                layout.cell_height == cell_size.1,
                layout.margin == margin,
                layout.origin_x == origin.0,
                layout.origin_y == origin.1,
                0 <= i <= n,
                cells@.len() == i,
                forall|k: int|
                    0 <= k < i ==> placed(#[trigger] cells@[k], layout, k) && !cells@[k].state
                        && !cells@[k].hover,
            decreases n - i,
        {
            let row: usize = i / (columns as usize);
            let col: usize = i % (columns as usize);
            assert(col < columns);
            proof {
                lemma_div_is_ordered_by_denominator(i as int, 1, columns as int);
            }
            let w: i64 = cell_size.0 as i64;
            let h: i64 = cell_size.1 as i64;
            let m: i64 = margin as i64;
            assert(col as int * (w + m) <= 65535 * 131070) by (nonlinear_arith)
                requires
                    0 <= col <= 65535,
                    0 <= w + m <= 131070,
            ;
            assert(row as int * (h + m) <= 65535 * 65535 * 131070) by (nonlinear_arith)
                requires
                    0 <= row <= 65535 * 65535,
                    0 <= h + m <= 131070,
            ;
            let dx: i64 = (col as i64) * (w + m);
            let dy: i64 = (row as i64) * (h + m);
            let cx2: i64 = 2 * (origin.0 as i64) + m + w + 2 * dx;
            let cy2: i64 = 2 * (origin.1 as i64) - m - h - 2 * dy;
            assert(2 * col * (w + m) == 2 * dx) by (nonlinear_arith)
                requires
                    dx == col * (w + m),
            ;
            assert(2 * row * (h + m) == 2 * dy) by (nonlinear_arith)
                requires
                    dy == row * (h + m),
            ;
            cells.push(Cell::new(cx2, cy2, cell_size.0, cell_size.1));
            i += 1;
        }
        Ok(LightsOut { layout, cells })
    }

    /// What well-formedness means for the cells.
    pub proof fn lemma_wf(&self)
        requires
            self.wf(),
        ensures
            self.spec_layout().valid(),
            self@.len() == self.spec_layout().cell_count(),
            forall|i: int| 0 <= i < self@.len() ==> placed(#[trigger] self@[i], self.spec_layout(), i),
            at_most_one_hovered(self@),
    {
    }

    /// With a positive margin the cells of a grid do not overlap: no point
    /// lies in the rectangles of two different cells.
    pub proof fn lemma_cells_disjoint(&self, i: int, j: int, px: int, py: int)
        requires
            self.wf(),
            self.spec_layout().margin > 0,
            0 <= i < self@.len(),
            0 <= j < self@.len(),
            i != j,
        ensures
            !(self@[i].contains(px, py) && self@[j].contains(px, py)),
    {
        let l = self.layout;
        let c = l.columns as int;
        let ci = i % c;
        let cj = j % c;
        let ri = i / c;
        let rj = j / c;
        assert(placed(self.cells@[i], l, i));
        assert(placed(self.cells@[j], l, j));
        lemma_fundamental_div_mod(i, c);
        lemma_fundamental_div_mod(j, c);
        if self@[i].contains(px, py) && self@[j].contains(px, py) {
            let w = l.cell_width as int;
            let h = l.cell_height as int;
            let m = l.margin as int;
            if ci != cj {
                let dx = self@[i].center_x2 - self@[j].center_x2;
                assert(dx == 2 * (ci - cj) * (w + m)) by (nonlinear_arith)
                    requires
                        self@[i].center_x2 == 2 * l.origin_x + m + w + 2 * ci * (w + m),
                        self@[j].center_x2 == 2 * l.origin_x + m + w + 2 * cj * (w + m),
                        dx == self@[i].center_x2 - self@[j].center_x2,
                ;
                assert(dx > 2 * w || dx < -2 * w) by (nonlinear_arith)
                    requires
                        dx == 2 * (ci - cj) * (w + m),
                        ci != cj,
                        m > 0,
                        w > 0,
                ;
            } else {
                assert(ri != rj) by (nonlinear_arith)
                    requires
                        i == c * ri + ci,
                        j == c * rj + cj,
                        ci == cj,
                        i != j,
                ;
                let dy = self@[i].center_y2 - self@[j].center_y2;
                assert(dy == 2 * (rj - ri) * (h + m)) by (nonlinear_arith)
                    requires
                        self@[i].center_y2 == 2 * l.origin_y - m - h - 2 * ri * (h + m),
                        self@[j].center_y2 == 2 * l.origin_y - m - h - 2 * rj * (h + m),
                        dy == self@[i].center_y2 - self@[j].center_y2,
                ;
                assert(dy > 2 * h || dy < -2 * h) by (nonlinear_arith)
                    requires
                        dy == 2 * (rj - ri) * (h + m),
                        ri != rj,
                        m > 0,
                        h > 0,
                ;
            }
        }
    }

    /// On a grid with a positive margin, a tick with the pointer in cell
    /// `i`'s rectangle leaves exactly cell `i` hovered.
    pub proof fn lemma_tick_hovers_cell_under_pointer(
        &self,
        px: int,
        py: int,
        pressed: bool,
        i: int,
    )
        requires
            self.wf(),
            self.spec_layout().margin > 0,
            0 <= i < self@.len(),
            self@[i].contains(px, py),
        ensures
            forall|j: int|
                0 <= j < self@.len() ==> (#[trigger] ticked(self@, px, py, pressed)[j]).hover
                    == (j == i),
    {
        assert forall|j: int| 0 <= j < self@.len() && j != i implies !(
        #[trigger] self@[j]).contains(px, py) by {
            self.lemma_cells_disjoint(i, j, px, py);
        }
        assert(is_first_hit(self@, px, py, i));
        assert forall|j: int| 0 <= j < self@.len() && j != i implies !is_first_hit(
            self@,
            px,
            py,
            j,
        ) by {
            self.lemma_cells_disjoint(i, j, px, py);
        }
    }

    /// The parameters the grid was laid out with.
    pub fn layout(&self) -> (r: Layout)
        ensures
            r == self.spec_layout(),
    {
        self.layout
    }

    /// The cells in row-major order.
    pub fn cells(&self) -> (r: &Vec<Cell>)
        ensures
            r@ == self@,
    {
        &self.cells
    }

    /// The cell in row `row` and column `column`, if the grid has one there.
    pub fn cell(&self, row: u16, column: u16) -> (r: Option<Cell>)
        requires
            self.wf(),
        ensures
            match r {
                Some(c) => row < self.spec_layout().rows && column < self.spec_layout().columns
                    && c == self@[row * self.spec_layout().columns + column],
                None => row >= self.spec_layout().rows || column >= self.spec_layout().columns,
            },
    {
        if row >= self.layout.rows || column >= self.layout.columns {
            return None;
        }
        assert(row as int * self.layout.columns as int + column < self.layout.cell_count())
            by (nonlinear_arith)
            requires
                row + 1 <= self.layout.rows,
                column < self.layout.columns,
        ;
        let n: usize = self.cells.len();
        assert(row as int * self.layout.columns as int <= n);
        let i: usize = row as usize * self.layout.columns as usize + column as usize;
        Some(self.cells[i])
    }

    /// The index of the hovered cell, if any.
    pub fn hovered(&self) -> (r: Option<usize>)
        requires
            self.wf(),
        ensures
            match r {
                Some(i) => i < self@.len() && self@[i as int].hover && forall|j: int|
                    0 <= j < self@.len() && j != i ==> !(#[trigger] self@[j]).hover,
                None => forall|j: int| 0 <= j < self@.len() ==> !(#[trigger] self@[j]).hover,
            },
    {
        let n: usize = self.cells.len();
        let mut i: usize = 0;
        while i < n
            invariant
                self.wf(),
                n == self@.len(),
                0 <= i <= n,
                forall|j: int| 0 <= j < i ==> !(#[trigger] self@[j]).hover,
            decreases n - i,
        {
            if self.cells[i].hover {
                proof {
                    assert forall|j: int| 0 <= j < self@.len() && j != i implies !(
                    #[trigger] self@[j]).hover by {
                        assert(at_most_one_hovered(self.cells@));
                        if self.cells@[j].hover {
                            assert(self.cells@[i as int].hover);
                        }
                    }
                }
                return Some(i);
            }
            i += 1;
        }
        None
    }

    /// One frame of interaction with the pointer at `(px, py)`; `pressed`
    /// tells whether the pointer button went down during the frame.
    ///
    /// The first cell in row-major order whose rectangle holds the pointer
    /// becomes the only hovered cell (none is when no cell holds it), and on
    /// a press that cell's state flips. Nothing else changes.
    pub fn tick(&mut self, px: i32, py: i32, pressed: bool)
        requires
            old(self).wf(),
        ensures
            final(self).wf(),
            final(self).spec_layout() == old(self).spec_layout(),
            final(self)@ == ticked(old(self)@, px as int, py as int, pressed),
    {
        let ghost cells0 = self.cells@;
        let ghost layout0 = self.layout;
        let n: usize = self.cells.len();
        let mut hit: Option<usize> = None;
        let mut i: usize = 0;
        while i < n
            invariant
                n == self.cells@.len(),
                n == cells0.len(),
                self.layout == layout0,
                forall|k: int| 0 <= k < n ==> placed(#[trigger] cells0[k], layout0, k),
                0 <= i <= n,
                forall|k: int| i <= k < n ==> self.cells@[k] == cells0[k],
                forall|k: int|
                    0 <= k < i ==> self.cells@[k] == (Cell {
                        hover: is_first_hit(cells0, px as int, py as int, k),
                        ..cells0[k]
                    }),
                match hit {
                    Some(h) => h < i && is_first_hit(cells0, px as int, py as int, h as int),
                    None => forall|k: int|
                        0 <= k < i ==> !(#[trigger] cells0[k]).contains(px as int, py as int),
                },
            decreases n - i,
        {
            let mut c = self.cells[i];
            let inside = hit.is_none() && c.contains_point(px, py);
            proof {
                if let Some(h) = hit {
                    assert(cells0[h as int].contains(px as int, py as int));
                    assert(!is_first_hit(cells0, px as int, py as int, i as int));
                }
            }
            c.set_hover(inside);
            self.cells.set(i, c);
            if inside {
                hit = Some(i);
            }
            i += 1;
        }
        if pressed {
            if let Some(h) = hit {
                let mut c = self.cells[h];
                c.toggle();
                self.cells.set(h, c);
            }
        }
        proof {
            let t = ticked(cells0, px as int, py as int, pressed);
            assert forall|k: int| 0 <= k < n implies self.cells@[k] == t[k] by {
                if let Some(h) = hit {
                    if k != h {
                        assert(!is_first_hit(cells0, px as int, py as int, k)) by {
                            if k > h {
                                assert(cells0[h as int].contains(px as int, py as int));
                            } else {
                                assert(is_first_hit(cells0, px as int, py as int, h as int));
                                assert(!cells0[k].contains(px as int, py as int));
                            }
                        }
                    }
                }
            }
            assert(self.cells@ =~= t);
            lemma_ticked_one_hover(cells0, px as int, py as int, pressed);
            assert forall|k: int| 0 <= k < self.cells@.len() implies placed(
                #[trigger] self.cells@[k],
                self.layout,
                k,
            ) by {
                assert(placed(cells0[k], self.layout, k));
            }
        }
    }
}

} // verus!
