//! The mathematical model of a row-major matrix.
//!
//! A [`Grid`] is a shape together with a flat sequence of cells. Every
//! operation of the executable matrix is specified as a function from grids
//! to grids, and the algebraic laws that relate those operations are proved
//! here, once, over the model.

use vstd::arithmetic::div_mod::lemma_fundamental_div_mod;
use vstd::arithmetic::div_mod::lemma_fundamental_div_mod_converse_div;
use vstd::arithmetic::div_mod::lemma_fundamental_div_mod_converse_mod;
use vstd::arithmetic::div_mod::lemma_div_pos_is_pos;
use vstd::arithmetic::div_mod::lemma_mod_bound;
use vstd::prelude::*;

verus! {

/// A rectangular arrangement of values, stored row after row.
pub struct Grid<T> {
    /// Number of rows.
    pub rows: nat,
    /// Number of columns.
    pub cols: nat,
    /// All cells, row after row.
    pub cells: Seq<T>,
}

impl<T> Grid<T> {
    /// The flat buffer holds exactly `rows * cols` values, and a grid has no
    /// rows exactly when it has no columns.
    pub open spec fn wf(self) -> bool {
        &&& self.cells.len() == self.rows * self.cols
        &&& (self.rows == 0 <==> self.cols == 0)
    }

    /// The grid without any cell.
    pub open spec fn empty() -> Self {
        Grid { rows: 0, cols: 0, cells: Seq::empty() }
    }

    /// Whether `(r, c)` names a cell of the grid.
    pub open spec fn contains(self, r: int, c: int) -> bool {
        0 <= r < self.rows && 0 <= c < self.cols
    }

    /// The value at row `r` and column `c`.
    pub open spec fn at(self, r: int, c: int) -> T
        recommends
            self.contains(r, c),
    {
        self.cells[r * self.cols + c]
    }

    /// Row `r`, as the contiguous stretch of the buffer that holds it.
    pub open spec fn row(self, r: int) -> Seq<T>
        recommends
            0 <= r < self.rows,
    {
        self.cells.subrange(r * self.cols, r * self.cols + self.cols)
    }

    /// Column `c`, top to bottom.
    pub open spec fn col(self, c: int) -> Seq<T>
        recommends
            0 <= c < self.cols,
    {
        Seq::new(self.rows, |r: int| self.at(r, c))
    }

    /// The grid of the given shape whose cell `(r, c)` is `f(r, c)`.
    pub open spec fn tabulate(rows: nat, cols: nat, f: spec_fn(int, int) -> T) -> Self {
        Grid {
            rows,
            cols,
            cells: Seq::new(rows * cols, |i: int| f(i / (cols as int), i % (cols as int))),
        }
    }

    /// The grid that reads a flat sequence as rows of `cols` cells each.
    pub open spec fn from_flat(cells: Seq<T>, cols: nat) -> Self {
        Grid { rows: if cols == 0 { 0 } else { cells.len() / cols }, cols, cells }
    }

    /// The same grid with the cell at `(r, c)` replaced by `value`.
    pub open spec fn set(self, r: int, c: int, value: T) -> Self
        recommends
            self.contains(r, c),
    {
        Grid { cells: self.cells.update(r * self.cols + c, value), ..self }
    }

    /// The grid of the same shape that holds `cells`.
    pub open spec fn with_cells(self, cells: Seq<T>) -> Self
        recommends
            cells.len() == self.cells.len(),
    {
        Grid { cells, ..self }
    }

    /// The same grid with column `c` replaced by `values`, top to bottom.
    pub open spec fn set_col(self, c: int, values: Seq<T>) -> Self
        recommends
            0 <= c < self.cols,
            values.len() == self.rows,
    {
        Self::tabulate(
            self.rows,
            self.cols,
            |r: int, k: int|
                if k == c {
                    values[r]
                } else {
                    self.at(r, k)
                },
        )
    }

    /// The same grid with row `r` replaced by `values`.
    pub open spec fn set_row(self, r: int, values: Seq<T>) -> Self
        recommends
            0 <= r < self.rows,
            values.len() == self.cols,
    {
        Grid {
            cells: self.cells.take(r * self.cols) + values + self.cells.skip(
                r * self.cols + self.cols,
            ),
            ..self
        }
    }

    /// The grid with `values` added below the last row. On the empty grid the
    /// new row decides the number of columns.
    pub open spec fn push_row(self, values: Seq<T>) -> Self {
        Grid { rows: self.rows + 1, cols: values.len(), cells: self.cells + values }
    }

    /// The grid without its last row; the empty grid once no row is left.
    pub open spec fn pop_row(self) -> Self
        recommends
            self.rows > 0,
    {
        let rows = (self.rows - 1) as nat;
        Grid {
            rows,
            cols: if rows == 0 { 0 } else { self.cols },
            cells: self.cells.take((rows * self.cols) as int),
        }
    }

    /// The grid with `values` as its new row number `idx`; the rows from
    /// `idx` on move one down.
    pub open spec fn insert_row(self, idx: int, values: Seq<T>) -> Self
        recommends
            0 <= idx <= self.rows,
            values.len() == self.cols,
    {
        Grid {
            rows: self.rows + 1,
            cols: self.cols,
            cells: self.cells.take(idx * self.cols) + values + self.cells.skip(idx * self.cols),
        }
    }

    /// The grid with `values` as its new column number `idx`, one value per
    /// row; the columns from `idx` on move one to the right. The number of
    /// rows is the number of values.
    pub open spec fn insert_col(self, idx: int, values: Seq<T>) -> Self
        recommends
            0 <= idx <= self.cols,
    {
        Self::tabulate(
            values.len(),
            self.cols + 1,
            |r: int, c: int|
                if c < idx {
                    self.at(r, c)
                } else if c == idx {
                    values[r]
                } else {
                    self.at(r, c - 1)
                },
        )
    }

    /// The grid with `values` added right of the last column. On the empty
    /// grid the new column decides the number of rows.
    pub open spec fn push_col(self, values: Seq<T>) -> Self {
        self.insert_col(self.cols as int, values)
    }

    /// The grid without its last column; the empty grid once no column is
    /// left.
    pub open spec fn pop_col(self) -> Self
        recommends
            self.cols > 0,
    {
        let cols = (self.cols - 1) as nat;
        Self::tabulate(if cols == 0 { 0 } else { self.rows }, cols, |r: int, c: int| self.at(r, c))
    }

    /// The grid mirrored at its diagonal: cell `(c, r)` of the result is cell
    /// `(r, c)` of `self`.
    pub open spec fn transpose(self) -> Self {
        Self::tabulate(self.cols, self.rows, |r: int, c: int| self.at(c, r))
    }
}

impl<T: Clone> Grid<T> {
    /// Whether `self` has the shape of `src` and each of its cells is a clone
    /// of the cell of `src` at the same place.
    pub open spec fn is_clone_of(self, src: Grid<T>) -> bool {
        &&& self.rows == src.rows
        &&& self.cols == src.cols
        &&& self.cells.len() == src.cells.len()
        &&& forall|i: int|
            0 <= i < src.cells.len() ==> cloned(src.cells[i], #[trigger] self.cells[i])
    }
}

/// The flat position of a cell lies inside the buffer, and so does the whole
/// row that the cell belongs to.
pub proof fn lemma_flat_index_in_bounds(rows: int, cols: int, r: int, c: int)
    requires
        0 <= r < rows,
        0 <= c < cols,
    ensures
        0 <= r * cols <= r * cols + c < r * cols + cols <= rows * cols,
{
    assert(0 <= r * cols) by (nonlinear_arith)
        requires
            r >= 0,
            cols >= 0,
    ;
    assert(r * cols + cols <= rows * cols) by (nonlinear_arith)
        requires
            r + 1 <= rows,
            cols >= 0,
    ;
}

/// A flat position determines its row and column: dividing `r * cols + c` by
/// `cols` gives back `r`, with remainder `c`.
pub proof fn lemma_flat_index_splits(cols: int, r: int, c: int)
    requires
        0 <= c < cols,
    ensures
        (r * cols + c) / cols == r,
        (r * cols + c) % cols == c,
{
    lemma_fundamental_div_mod_converse_div(r * cols + c, cols, r, c);
    lemma_fundamental_div_mod_converse_mod(r * cols + c, cols, r, c);
}

/// Every flat position of a buffer of `rows * cols` cells is the position of
/// exactly one cell `(i / cols, i % cols)`.
pub proof fn lemma_flat_index_joins(rows: int, cols: int, i: int)
    requires
        0 <= i < rows * cols,
        0 < cols,
    ensures
        0 <= i / cols < rows,
        0 <= i % cols < cols,
        i == (i / cols) * cols + i % cols,
{
    lemma_fundamental_div_mod(i, cols);
    lemma_mod_bound(i, cols);
    lemma_div_pos_is_pos(i, cols);
    let q = i / cols;
    assert(cols * q == q * cols) by (nonlinear_arith);
    assert(q < rows) by (nonlinear_arith)
        requires
            q * cols <= i,
            i < rows * cols,
            0 < cols,
    ;
}

/// A tabulated grid is well formed (given that it has rows exactly when it
/// has columns) and holds `f(r, c)` at every cell `(r, c)`.
pub proof fn lemma_tabulate<T>(rows: nat, cols: nat, f: spec_fn(int, int) -> T)
    ensures
        Grid::tabulate(rows, cols, f).rows == rows,
        Grid::tabulate(rows, cols, f).cols == cols,
        Grid::tabulate(rows, cols, f).cells.len() == rows * cols,
        (rows == 0 <==> cols == 0) ==> Grid::tabulate(rows, cols, f).wf(),
        forall|r: int, c: int|
            0 <= r < rows && 0 <= c < cols ==> #[trigger] Grid::tabulate(rows, cols, f).at(r, c)
                == f(r, c),
{
    let g = Grid::tabulate(rows, cols, f);
    assert forall|r: int, c: int| 0 <= r < rows && 0 <= c < cols implies #[trigger] g.at(r, c)
        == f(r, c) by {
        lemma_flat_index_in_bounds(rows as int, cols as int, r, c);
        lemma_flat_index_splits(cols as int, r, c);
    }
}

/// What inserting a column gives: one more column, as many rows as there
/// are new values, the new values at column `idx`, and every old cell at its
/// old place or one to the right of it.
pub proof fn lemma_insert_col<T>(g: Grid<T>, idx: int, values: Seq<T>)
    requires
        0 <= idx <= g.cols,
        values.len() > 0,
    ensures
        g.insert_col(idx, values).wf(),
        g.insert_col(idx, values).rows == values.len(),
        g.insert_col(idx, values).cols == g.cols + 1,
        forall|r: int, c: int|
            0 <= r < values.len() && 0 <= c <= g.cols ==> #[trigger] g.insert_col(idx, values).at(
                r,
                c,
            ) == if c < idx {
                g.at(r, c)
            } else if c == idx {
                values[r]
            } else {
                g.at(r, c - 1)
            },
{
    let wide = g.insert_col(idx, values);
    assert forall|r: int, c: int| 0 <= r < values.len() && 0 <= c <= g.cols implies #[trigger] wide.at(
        r,
        c,
    ) == if c < idx {
        g.at(r, c)
    } else if c == idx {
        values[r]
    } else {
        g.at(r, c - 1)
    } by {
        lemma_flat_index_in_bounds(values.len() as int, (g.cols + 1) as int, r, c);
        lemma_flat_index_splits((g.cols + 1) as int, r, c);
    }
}

/// What replacing a column gives: the same shape, the new values in column
/// `c`, and every other cell as it was.
pub proof fn lemma_set_col<T>(g: Grid<T>, c: int, values: Seq<T>)
    requires
        g.wf(),
        0 <= c < g.cols,
        values.len() == g.rows,
    ensures
        g.set_col(c, values).wf(),
        g.set_col(c, values).rows == g.rows,
        g.set_col(c, values).cols == g.cols,
        forall|r: int, k: int|
            g.contains(r, k) ==> #[trigger] g.set_col(c, values).at(r, k) == if k == c {
                values[r]
            } else {
                g.at(r, k)
            },
{
    let changed = g.set_col(c, values);
    assert forall|r: int, k: int| g.contains(r, k) implies #[trigger] changed.at(r, k) == if k
        == c {
        values[r]
    } else {
        g.at(r, k)
    } by {
        lemma_flat_index_in_bounds(g.rows as int, g.cols as int, r, k);
        lemma_flat_index_splits(g.cols as int, r, k);
    }
}

/// What replacing a row gives: the same shape, the new values in row `r`,
/// and every other row as it was.
pub proof fn lemma_set_row<T>(g: Grid<T>, r: int, values: Seq<T>)
    requires
        g.wf(),
        0 <= r < g.rows,
        values.len() == g.cols,
    ensures
        g.set_row(r, values).wf(),
        g.set_row(r, values).row(r) == values,
        forall|other: int|
            0 <= other < g.rows && other != r ==> #[trigger] g.set_row(r, values).row(other)
                == g.row(other),
{
    let changed = g.set_row(r, values);
    let cols = g.cols as int;
    lemma_flat_index_in_bounds(g.rows as int, cols, r, 0);
    assert(changed.row(r) =~= values);
    assert forall|other: int| 0 <= other < g.rows && other != r implies #[trigger] changed.row(
        other,
    ) == g.row(other) by {
        lemma_flat_index_in_bounds(g.rows as int, cols, other, 0);
        if other < r {
            assert(other * cols + cols <= r * cols) by (nonlinear_arith)
                requires
                    other + 1 <= r,
                    0 <= cols,
            ;
        } else {
            assert(r * cols + cols <= other * cols) by (nonlinear_arith)
                requires
                    r + 1 <= other,
                    0 <= cols,
            ;
        }
        assert(changed.row(other) =~= g.row(other));
    }
}

/// What taking the last column off gives: one column less, the same rows
/// unless none is left, and every remaining cell at its old place.
pub proof fn lemma_pop_col<T>(g: Grid<T>)
    requires
        g.wf(),
        g.cols > 0,
    ensures
        g.pop_col().wf(),
        g.pop_col().cols == g.cols - 1,
        g.pop_col().rows == if g.cols == 1 { 0 } else { g.rows },
        forall|r: int, c: int|
            g.pop_col().contains(r, c) ==> #[trigger] g.pop_col().at(r, c) == g.at(r, c),
{
    let cols = (g.cols - 1) as nat;
    lemma_tabulate(if cols == 0 { 0 } else { g.rows }, cols, |r: int, c: int| g.at(r, c));
}

/// What transposing gives: rows and columns exchanged, and cell `(r, c)` of
/// the grid at `(c, r)` of the result.
pub proof fn lemma_transpose<T>(g: Grid<T>)
    requires
        g.wf(),
    ensures
        g.transpose().wf(),
        g.transpose().rows == g.cols,
        g.transpose().cols == g.rows,
        forall|r: int, c: int| g.contains(r, c) ==> #[trigger] g.transpose().at(c, r) == g.at(r, c),
{
    lemma_tabulate(g.cols, g.rows, |r: int, c: int| g.at(c, r));
}

/// Two well-formed grids of the same shape that agree cell by cell are the
/// same grid.
pub proof fn lemma_grid_ext<T>(a: Grid<T>, b: Grid<T>)
    requires
        a.wf(),
        b.wf(),
        a.rows == b.rows,
        a.cols == b.cols,
        forall|r: int, c: int| a.contains(r, c) ==> #[trigger] a.at(r, c) == b.at(r, c),
    ensures
        a == b,
{
    assert forall|i: int| 0 <= i < a.cells.len() implies a.cells[i] == b.cells[i] by {
        if a.cols > 0 {
            lemma_flat_index_joins(a.rows as int, a.cols as int, i);
            let r = i / (a.cols as int);
            let c = i % (a.cols as int);
            assert(a.contains(r, c));
            assert(a.at(r, c) == b.at(r, c));
            assert(r * a.cols + c == i);
        } else {
            assert(a.rows * a.cols == 0) by (nonlinear_arith)
                requires
                    a.cols == 0,
            ;
        }
    }
    assert(a.cells =~= b.cells);
}

/// Reading row `r` and then its value number `c` is reading the cell
/// `(r, c)`; a row has as many values as the grid has columns.
pub proof fn lemma_row_holds_cells<T>(g: Grid<T>, r: int, c: int)
    requires
        g.wf(),
        g.contains(r, c),
    ensures
        g.row(r).len() == g.cols,
        g.row(r)[c] == g.at(r, c),
{
    lemma_flat_index_in_bounds(g.rows as int, g.cols as int, r, c);
}

/// Column `c` holds, at place `r`, the cell `(r, c)`; a column has as many
/// values as the grid has rows.
pub proof fn lemma_col_holds_cells<T>(g: Grid<T>, r: int, c: int)
    requires
        g.contains(r, c),
    ensures
        g.col(c).len() == g.rows,
        g.col(c)[r] == g.at(r, c),
{
}

/// Transposing twice gives back the grid.
pub proof fn lemma_transpose_twice<T>(g: Grid<T>)
    requires
        g.wf(),
    ensures
        g.transpose().transpose() == g,
{
    let once = g.transpose();
    let twice = once.transpose();
    lemma_transpose(g);
    lemma_transpose(once);
    assert forall|r: int, c: int| twice.contains(r, c) implies #[trigger] twice.at(r, c) == g.at(
        r,
        c,
    ) by {
        assert(once.contains(c, r));
        assert(twice.at(r, c) == once.at(c, r));
        assert(once.at(c, r) == g.at(r, c));
    }
    lemma_grid_ext(twice, g);
}

/// A row that was pushed is the last row, and popping it gives back the grid
/// as it was before the push.
pub proof fn lemma_push_then_pop_row<T>(g: Grid<T>, values: Seq<T>)
    requires
        g.wf(),
        g.rows > 0 ==> values.len() == g.cols,
        g.rows == 0 ==> values.len() > 0,
    ensures
        g.push_row(values).wf(),
        g.push_row(values).row(g.push_row(values).rows - 1) == values,
        g.push_row(values).pop_row() == g,
{
    let pushed = g.push_row(values);
    let n = values.len() as int;
    let rows = g.rows as int;
    if rows == 0 {
        assert(rows * g.cols == 0) by (nonlinear_arith)
            requires
                rows == 0,
        ;
        assert(rows * n == 0) by (nonlinear_arith)
            requires
                rows == 0,
        ;
    }
    assert((rows + 1) * n == rows * n + n) by (nonlinear_arith);
    assert(pushed.cells.len() == (rows + 1) * n);
    assert(g.cells.len() == rows * n);
    assert(pushed.row(rows) =~= values);
    assert(pushed.pop_row().cells =~= g.cells);
}

/// A column that was pushed is the last column, and popping it gives back
/// the grid as it was before the push.
pub proof fn lemma_push_then_pop_col<T>(g: Grid<T>, values: Seq<T>)
    requires
        g.wf(),
        g.cols > 0 ==> values.len() == g.rows,
        g.cols == 0 ==> values.len() > 0,
    ensures
        g.push_col(values).wf(),
        g.push_col(values).col(g.push_col(values).cols - 1) == values,
        g.push_col(values).pop_col() == g,
{
    let pushed = g.push_col(values);
    lemma_insert_col(g, g.cols as int, values);
    lemma_pop_col(pushed);
    assert(pushed.col(g.cols as int) =~= values);
    let popped = pushed.pop_col();
    if g.cols == 0 {
        assert(g.rows * g.cols == 0) by (nonlinear_arith)
            requires
                g.cols == 0,
        ;
        assert(popped.rows * popped.cols == 0) by (nonlinear_arith)
            requires
                popped.cols == 0,
        ;
        assert(popped.cells =~= g.cells);
    } else {
        assert forall|r: int, c: int| popped.contains(r, c) implies #[trigger] popped.at(r, c)
            == g.at(r, c) by {
            assert(popped.at(r, c) == pushed.at(r, c));
        }
        lemma_grid_ext(popped, g);
    }
}

/// A row that was inserted as row `idx` is read back there unchanged; the
/// rows before it stay where they were and the rows after it are one further
/// down.
pub proof fn lemma_insert_row<T>(g: Grid<T>, idx: int, values: Seq<T>)
    requires
        g.wf(),
        0 <= idx <= g.rows,
        values.len() == g.cols,
        values.len() > 0,
    ensures
        g.insert_row(idx, values).wf(),
        g.insert_row(idx, values).row(idx) == values,
        forall|r: int| 0 <= r < idx ==> #[trigger] g.insert_row(idx, values).row(r) == g.row(r),
        forall|r: int|
            idx <= r < g.rows ==> #[trigger] g.insert_row(idx, values).row(r + 1) == g.row(r),
{
    let grown = g.insert_row(idx, values);
    let rows = g.rows as int;
    let cols = g.cols as int;
    assert(0 <= idx * cols <= rows * cols) by (nonlinear_arith)
        requires
            0 <= idx <= rows,
            0 <= cols,
    ;
    assert((rows + 1) * cols == rows * cols + cols) by (nonlinear_arith);
    assert(grown.row(idx) =~= values);
    assert forall|r: int| 0 <= r < idx implies #[trigger] grown.row(r) == g.row(r) by {
        assert(0 <= r * cols && r * cols + cols <= idx * cols) by (nonlinear_arith)
            requires
                0 <= r < idx,
                0 <= cols,
        ;
        assert(grown.row(r) =~= g.row(r));
    }
    assert forall|r: int| idx <= r < g.rows implies #[trigger] grown.row(r + 1) == g.row(r) by {
        assert(idx * cols <= r * cols && r * cols + cols <= rows * cols && (r + 1) * cols == r
            * cols + cols) by (nonlinear_arith)
            requires
                idx <= r < rows,
                0 <= cols,
        ;
        assert(grown.row(r + 1) =~= g.row(r));
    }
}

/// Where a clone of a value is always that value, a clone of a grid is that
/// grid.
pub proof fn lemma_exact_clone<T: Clone>(copy: Grid<T>, src: Grid<T>)
    requires
        copy.is_clone_of(src),
        forall|a: T, b: T| #[trigger] cloned(a, b) ==> a == b,
    ensures
        copy == src,
{
    assert(copy.cells =~= src.cells);
}

/// Where a clone of a value is always that value, a grid whose cells were
/// cloned into its transpose, and from there into the transpose of that, is
/// reached again.
pub proof fn lemma_transpose_twice_cloned<T: Clone>(g: Grid<T>, once: Grid<T>, twice: Grid<T>)
    requires
        g.wf(),
        once.is_clone_of(g.transpose()),
        twice.is_clone_of(once.transpose()),
        forall|a: T, b: T| #[trigger] cloned(a, b) ==> a == b,
    ensures
        twice == g,
{
    lemma_exact_clone(once, g.transpose());
    lemma_exact_clone(twice, once.transpose());
    lemma_transpose_twice(g);
}

} // verus!
