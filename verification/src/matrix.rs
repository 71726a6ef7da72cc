//! A dense matrix that keeps all its cells in one row-major buffer.

use crate::col_iter::ColIter;
use crate::grid::lemma_flat_index_in_bounds;
use crate::grid::lemma_flat_index_joins;
use crate::grid::lemma_insert_col;
use crate::grid::lemma_pop_col;
use crate::grid::lemma_set_col;
use crate::grid::lemma_set_row;
use crate::grid::lemma_transpose;
use crate::grid::Grid;
use crate::stride::restepped;
use crate::stride::step_by_mut;
use crate::weave::lemma_unwoven_ends;
use crate::weave::lemma_unwoven_step;
use crate::weave::lemma_woven_ends;
use crate::weave::lemma_woven_step;
use crate::weave::unwoven;
use crate::weave::woven;
use vstd::arithmetic::div_mod::lemma_fundamental_div_mod;
use vstd::prelude::*;
use vstd::std_specs::cmp::PartialEqSpec;
use vstd::std_specs::iter::IteratorSpec;

verus! {

/// A dense two-dimensional container. Cell `(r, c)` lives at position
/// `r * cols + c` of a single buffer.
pub struct Matrix<T> {
    val: Vec<T>,
    col: usize,
    row: usize,
}

impl<T> View for Matrix<T> {
    type V = Grid<T>;

    closed spec fn view(&self) -> Grid<T> {
        Grid { rows: self.row as nat, cols: self.col as nat, cells: self.val@ }
    }
}

impl<T> Matrix<T> {
    /// The invariant of the type: the buffer holds `rows * cols` cells, and
    /// the matrix has no rows exactly when it has no columns.
    pub open spec fn wf(&self) -> bool {
        self@.wf()
    }

    /// Creates a `row` by `col` matrix whose every cell is a default value of
    /// `T`.
    pub fn new(row: usize, col: usize) -> (m: Self) where T: Default
        requires
            row >= 1,
            col >= 1,
            row * col <= usize::MAX,
        ensures
            m.wf(),
            m@.rows == row,
            m@.cols == col,
            forall|r: int, c: int|
                m@.contains(r, c) ==> call_ensures(T::default, (), #[trigger] m@.at(r, c)),
    {
        let n = row * col;
        let mut val: Vec<T> = Vec::with_capacity(n);
        let mut i: usize = 0;
        while i < n
            invariant
                i <= n,
                val@.len() == i,
                forall|j: int| 0 <= j < i ==> call_ensures(T::default, (), #[trigger] val@[j]),
            decreases n - i,
        {
            val.push(T::default());
            i += 1;
        }
        let m = Matrix { val, col, row };
        proof {
            assert forall|r: int, c: int| m@.contains(r, c) implies call_ensures(
                T::default,
                (),
                #[trigger] m@.at(r, c),
            ) by {
                lemma_flat_index_in_bounds(row as int, col as int, r, c);
            }
        }
        m
    }

    /// Creates a `row` by `col` matrix whose every cell is a clone of `val`.
    pub fn init(row: usize, col: usize, val: T) -> (m: Self) where T: Clone
        requires
            row >= 1,
            col >= 1,
            row * col <= usize::MAX,
        ensures
            m.wf(),
            m@.rows == row,
            m@.cols == col,
            forall|r: int, c: int| m@.contains(r, c) ==> cloned(val, #[trigger] m@.at(r, c)),
    {
        let m = Matrix { val: vec![val; row * col], col, row };
        proof {
            assert forall|r: int, c: int| m@.contains(r, c) implies cloned(
                val,
                #[trigger] m@.at(r, c),
            ) by {
                lemma_flat_index_in_bounds(row as int, col as int, r, c);
            }
        }
        m
    }

    /// Builds a matrix from cells that are already laid out row after row,
    /// `col` cells to a row. No cells and no columns give the empty matrix.
    pub fn from_vec(vec: Vec<T>, col: usize) -> (m: Self)
        requires
            vec@.len() == 0 <==> col == 0,
            col > 0 ==> vec@.len() % (col as nat) == 0,
        ensures
            m.wf(),
            m@ == Grid::from_flat(vec@, col as nat),
    {
        let len = vec.len();
        if len == 0 {
            Matrix { val: vec, row: 0, col: 0 }
        } else {
            let row = len / col;
            proof {
                lemma_fundamental_div_mod(len as int, col as int);
                assert(col * row == row * col) by (nonlinear_arith);
                assert(row != 0) by (nonlinear_arith)
                    requires
                        row * col == len,
                        len > 0,
                ;
            }
            Matrix { val: vec, row, col }
        }
    }

    /// Where the cell `(r, c)` lies in the buffer, and that computing the
    /// position stays within `usize`.
    proof fn lemma_cell_position(&self, r: int, c: int)
        requires
            self.wf(),
            self@.contains(r, c),
        ensures
            0 <= r * self.col <= r * self.col + c < r * self.col + self.col <= self.val.len()
                <= usize::MAX,
            self.val.len() == self.row * self.col,
    {
        lemma_flat_index_in_bounds(self.row as int, self.col as int, r, c);
    }

    /// The number of rows.
    pub fn rows(&self) -> (n: usize)
        ensures
            n == self@.rows,
    {
        self.row
    }

    /// The number of columns.
    pub fn cols(&self) -> (n: usize)
        ensures
            n == self@.cols,
    {
        self.col
    }

    /// The cell at `(row, col)`, without a bounds check of its own: the
    /// caller answers for the position being inside the matrix.
    pub fn unchecked(&self, row: usize, col: usize) -> (cell: &T)
        requires
            self.wf(),
            self@.contains(row as int, col as int),
        ensures
            *cell == self@.at(row as int, col as int),
    {
        proof {
            self.lemma_cell_position(row as int, col as int);
        }
        &self.val[row * self.col + col]
    }

    /// Mutable access to the cell at `(row, col)`, without a bounds check of
    /// its own: the caller answers for the position being inside the matrix.
    pub fn unchecked_mut(&mut self, row: usize, col: usize) -> (cell: &mut T)
        requires
            old(self).wf(),
            old(self)@.contains(row as int, col as int),
        ensures
            *cell == old(self)@.at(row as int, col as int),
            final(self)@ == old(self)@.set(row as int, col as int, *final(cell)),
            final(self).wf(),
    {
        proof {
            self.lemma_cell_position(row as int, col as int);
        }
        let cols = self.col;
        &mut self.val[row * cols + col]
    }

    /// The cell at `(row, col)`, or `None` where the matrix has no such cell.
    pub fn get(&self, row: usize, col: usize) -> (cell: Option<&T>)
        requires
            self.wf(),
        ensures
            self@.contains(row as int, col as int) ==> cell == Some(
                &self@.at(row as int, col as int),
            ),
            !self@.contains(row as int, col as int) ==> cell is None,
    {
        if row < self.row && col < self.col {
            Some(self.unchecked(row, col))
        } else {
            None
        }
    }

    /// Mutable access to the cell at `(row, col)`, or `None` where the matrix
    /// has no such cell. What is written through the reference becomes the
    /// cell's value; nothing else changes.
    pub fn get_mut(&mut self, row: usize, col: usize) -> (cell: Option<&mut T>)
        requires
            old(self).wf(),
        ensures
            old(self)@.contains(row as int, col as int) ==> cell is Some && *cell->0 == old(
                self,
            )@.at(row as int, col as int) && final(self)@ == old(self)@.set(
                row as int,
                col as int,
                *final(cell->0),
            ),
            !old(self)@.contains(row as int, col as int) ==> cell is None && final(self)@ == old(
                self,
            )@,
            final(self).wf(),
    {
        if row < self.row && col < self.col {
            Some(self.unchecked_mut(row, col))
        } else {
            None
        }
    }

    /// Adds `row` below the last row. An empty matrix takes its number of
    /// columns from the row.
    pub fn push_row(&mut self, row: Vec<T>)
        requires
            old(self).wf(),
            old(self)@.rows > 0 ==> row@.len() == old(self)@.cols,
            old(self)@.rows == 0 ==> row@.len() > 0,
        ensures
            final(self).wf(),
            final(self)@ == old(self)@.push_row(row@),
    {
        let mut row = row;
        let inp_row_len = row.len();
        self.val.append(&mut row);
        proof {
            let rows = self.row as int;
            let cols = inp_row_len as int;
            let old_cols = self.col as int;
            let len = self.val.len() as int;
            assert(len == rows * old_cols + cols);
            if rows == 0 {
                assert(rows * old_cols == 0) by (nonlinear_arith)
                    requires
                        rows == 0,
                ;
            }
            assert(len == (rows + 1) * cols) by (nonlinear_arith)
                requires
                    len == rows * cols + cols,
            ;
            assert(rows + 1 <= (rows + 1) * cols) by (nonlinear_arith)
                requires
                    rows >= 0,
                    cols >= 1,
            ;
        }
        self.row += 1;
        self.col = inp_row_len;
    }

    /// Adds `col` right of the last column, one value to each row. An empty
    /// matrix takes its number of rows from the column.
    pub fn push_col(&mut self, col: Vec<T>)
        requires
            old(self).wf(),
            old(self)@.cols > 0 ==> col@.len() == old(self)@.rows,
            old(self)@.cols == 0 ==> col@.len() > 0,
        ensures
            final(self).wf(),
            final(self)@ == old(self)@.push_col(col@),
    {
        let inp_col_len = col.len();
        let idx = self.col;
        proof {
            let rows = self.row as int;
            let len = self.val@.len() as int;
            assert(len == inp_col_len * idx) by (nonlinear_arith)
                requires
                    len == rows * idx,
                    idx > 0 ==> inp_col_len == rows,
                    idx == 0 ==> rows == 0,
            ;
        }
        self.weave_col(idx, col);
        proof {
            lemma_insert_col(old(self)@, idx as int, col@);
            assert(self.val.len() == inp_col_len * (idx + 1));
            assert(idx + 1 <= inp_col_len * (idx + 1)) by (nonlinear_arith)
                requires
                    inp_col_len >= 1,
                    idx >= 0,
            ;
        }
        self.col += 1;
        self.row = inp_col_len;
    }

    /// Takes the last row off the matrix and returns it, or returns `None`
    /// where the matrix is empty. Without its only row the matrix is empty.
    pub fn pop_row(&mut self) -> (popped: Option<Vec<T>>)
        requires
            old(self).wf(),
        ensures
            final(self).wf(),
            old(self)@.rows == 0 ==> popped is None && final(self)@ == old(self)@,
            old(self)@.rows > 0 ==> popped is Some && popped->0@ == old(self)@.row(
                old(self)@.rows - 1,
            ) && final(self)@ == old(self)@.pop_row(),
    {
        if self.row > 0 {
            proof {
                self.lemma_cell_position(self.row - 1, 0);
                let rows = self.row as int;
                let cols = self.col as int;
                assert((rows - 1) * cols + cols == rows * cols) by (nonlinear_arith);
            }
            let row = self.val.split_off((self.row - 1) * self.col);
            self.row -= 1;
            if self.row == 0 {
                self.col = 0;
            }
            proof {
                let rows = self.row as int;
                let cols = self.col as int;
                let old_cols = old(self).col as int;
                let len = self.val@.len() as int;
                assert(len == rows * cols) by (nonlinear_arith)
                    requires
                        len == rows * old_cols,
                        rows == 0 || cols == old_cols,
                ;
            }
            Some(row)
        } else {
            None
        }
    }

    /// Takes the last column off the matrix and returns it, top to bottom, or
    /// returns `None` where the matrix is empty. Without its only column the
    /// matrix is empty.
    pub fn pop_col(&mut self) -> (popped: Option<Vec<T>>)
        requires
            old(self).wf(),
        ensures
            final(self).wf(),
            old(self)@.cols == 0 ==> popped is None && final(self)@ == old(self)@,
            old(self)@.cols > 0 ==> popped is Some && popped->0@ == old(self)@.col(
                old(self)@.cols - 1,
            ) && final(self)@ == old(self)@.pop_col(),
    {
        if self.col > 0 {
            let ghost g = self@;
            let mut col: Vec<T> = Vec::with_capacity(self.row);
            let mut i: usize = 0;
            proof {
                lemma_unwoven_ends(g);
                assert(g.cells.len() == self.val.len());
            }
            while i < self.row
                invariant
                    g.wf(),
                    g.cols > 0,
                    g.rows == self.row,
                    g.cols == self.col,
                    g.cells.len() <= usize::MAX,
                    i <= self.row,
                    self.val@ == unwoven(g, i as int),
                    col@ == g.col(g.cols - 1).take(i as int),
                decreases self.row - i,
            {
                proof {
                    lemma_unwoven_step(g, i as int);
                }
                let idx = i * self.col + self.col - 1 - i;
                col.push(self.val.remove(idx));
                i += 1;
                assert(col@ =~= g.col(g.cols - 1).take(i as int));
            }
            self.col -= 1;
            if self.col == 0 {
                self.row = 0;
            }
            proof {
                lemma_pop_col(g);
                assert(col@ =~= g.col(g.cols - 1));
            }
            Some(col)
        } else {
            None
        }
    }

    /// Makes `row` the row number `idx`; the rows from `idx` on move one
    /// down. The row has the length of the rows that are there, so the matrix
    /// is not empty: an empty matrix gets its first row by `push_row`, which
    /// also settles the number of columns.
    pub fn insert_row(&mut self, idx: usize, row: Vec<T>)
        requires
            old(self).wf(),
            row@.len() == old(self)@.cols,
            idx <= old(self)@.rows,
            row@.len() > 0,
        ensures
            final(self).wf(),
            final(self)@ == old(self)@.insert_row(idx as int, row@),
    {
        let mut row = row;
        proof {
            let rows = self.row as int;
            let cols = self.col as int;
            assert(0 <= idx * cols <= rows * cols) by (nonlinear_arith)
                requires
                    0 <= idx <= rows,
                    0 <= cols,
            ;
            assert(self.val.len() == rows * cols);
        }
        let val_idx = idx * self.col;
        let mut tail = self.val.split_off(val_idx);
        self.val.append(&mut row);
        self.val.append(&mut tail);
        proof {
            let rows = self.row as int;
            let cols = self.col as int;
            let len = self.val.len() as int;
            assert(len == (rows + 1) * cols) by (nonlinear_arith)
                requires
                    len == rows * cols + cols,
            ;
            assert(rows + 1 <= (rows + 1) * cols) by (nonlinear_arith)
                requires
                    rows >= 0,
                    cols >= 1,
            ;
        }
        self.row += 1;
    }

    /// Makes `col` the column number `idx`, one value to each row; the
    /// columns from `idx` on move one to the right. The column has the length
    /// of the columns that are there, so the matrix is not empty: an empty
    /// matrix gets its first column by `push_col`, which also settles the
    /// number of rows.
    pub fn insert_col(&mut self, idx: usize, col: Vec<T>)
        requires
            old(self).wf(),
            col@.len() == old(self)@.rows,
            idx <= old(self)@.cols,
            col@.len() > 0,
        ensures
            final(self).wf(),
            final(self)@ == old(self)@.insert_col(idx as int, col@),
    {
        proof {
            assert(self.val@.len() == col@.len() * self.col);
        }
        self.weave_col(idx, col);
        proof {
            lemma_insert_col(old(self)@, idx as int, col@);
            assert(self.val.len() == self.row * (self.col + 1));
            let rows = self.row as int;
            let cols = self.col as int;
            assert(cols + 1 <= rows * (cols + 1)) by (nonlinear_arith)
                requires
                    rows >= 1,
                    cols >= 0,
            ;
        }
        self.col += 1;
    }

    /// Puts the values of `col` into the buffer, one to each row at column
    /// `idx`, and leaves the recorded shape as it is.
    fn weave_col(&mut self, idx: usize, col: Vec<T>)
        requires
            idx <= old(self).col,
            old(self).val@.len() == col@.len() * old(self).col,
        ensures
            final(self).val@ == old(self)@.insert_col(idx as int, col@).cells,
            final(self).col == old(self).col,
            final(self).row == old(self).row,
    {
        let ghost g = self@;
        let ghost values = col@;
        let cols = self.col;
        let mut row_idx: usize = 0;
        self.val.reserve(col.len());
        proof {
            lemma_woven_ends(g, idx as int, values);
            assert(values.len() == col.len());
        }
        for col_val in it: col
            invariant
                it.seq() == values,
                row_idx == it.index(),
                idx <= cols,
                g.cols == cols,
                g.cells.len() == values.len() * cols,
                values.len() <= usize::MAX,
                self.col == cols,
                self.row == old(self).row,
                self.val@ == woven(g, idx as int, values, row_idx as int),
        {
            proof {
                lemma_woven_step(g, idx as int, values, row_idx as int);
                assert(self.val.len() == woven(g, idx as int, values, row_idx as int).len());
            }
            let val_idx = row_idx * cols + idx + row_idx;
            self.val.insert(val_idx, col_val);
            row_idx += 1;
        }
    }

    /// A new matrix with rows and columns exchanged: its cell `(c, r)` is a
    /// clone of the cell `(r, c)` of `self`.
    pub fn transpose(&self) -> (t: Self) where T: Clone
        requires
            self.wf(),
        ensures
            t.wf(),
            t@.is_clone_of(self@.transpose()),
            forall|r: int, c: int|
                self@.contains(r, c) ==> cloned(self@.at(r, c), #[trigger] t@.at(c, r)),
    {
        let ghost mirrored = self@.transpose();
        let mut val: Vec<T> = Vec::with_capacity(self.val.len());
        let mut c: usize = 0;
        proof {
            lemma_transpose(self@);
        }
        while c < self.col
            invariant
                self.wf(),
                mirrored == self@.transpose(),
                c <= self.col,
                val@.len() == c * self.row,
                forall|j: int| 0 <= j < val@.len() ==> cloned(mirrored.cells[j], #[trigger] val@[j]),
            decreases self.col - c,
        {
            let mut r: usize = 0;
            while r < self.row
                invariant
                    self.wf(),
                    mirrored == self@.transpose(),
                    c < self.col,
                    r <= self.row,
                    val@.len() == c * self.row + r,
                    forall|j: int|
                        0 <= j < val@.len() ==> cloned(mirrored.cells[j], #[trigger] val@[j]),
                decreases self.row - r,
            {
                proof {
                    lemma_transpose(self@);
                    assert(mirrored.at(c as int, r as int) == self@.at(r as int, c as int));
                }
                val.push(self.unchecked(r, c).clone());
                r += 1;
            }
            proof {
                let rows = self.row as int;
                assert((c + 1) * rows == c * rows + rows) by (nonlinear_arith);
            }
            c += 1;
        }
        let t = Matrix { val, col: self.row, row: self.col };
        proof {
            let rows = self.row as int;
            let cols = self.col as int;
            assert(cols * rows == rows * cols) by (nonlinear_arith);
            assert forall|r: int, c: int| self@.contains(r, c) implies cloned(
                self@.at(r, c),
                #[trigger] t@.at(c, r),
            ) by {
                lemma_flat_index_in_bounds(self.col as int, self.row as int, c, r);
                assert(mirrored.at(c, r) == self@.at(r, c));
            }
        }
        t
    }

    /// An iterator over all cells, row after row.
    pub fn iter(&self) -> (it: core::slice::Iter<'_, T>)
        ensures
            it.remaining() == self@.cells.as_ref(),
            it.decrease() is Some,
            it.initial_value_relation(&it),
    {
        self.val.iter()
    }

    /// An iterator over the cells of row `row`, left to right.
    pub fn iter_row(&self, row: usize) -> (it: core::slice::Iter<'_, T>)
        requires
            self.wf(),
            row < self@.rows,
        ensures
            it.remaining() == self@.row(row as int).as_ref(),
            it.decrease() is Some,
            it.initial_value_relation(&it),
    {
        self[row].iter()
    }

    /// An iterator over the cells of column `col`, top to bottom.
    pub fn iter_col(&self, col: usize) -> (it: ColIter<'_, T>)
        requires
            self.wf(),
            col < self@.cols,
        ensures
            it.remaining() == self@.col(col as int).as_ref(),
            it.decrease() is Some,
            it.initial_value_relation(&it),
    {
        ColIter::new(self, col)
    }

    /// An iterator over mutable references to all cells, row after row. The
    /// matrix keeps its shape; what is written through the references is what
    /// its cells hold afterwards.
    pub fn iter_mut(&mut self) -> (it: std::vec::IntoIter<&mut T>)
        requires
            old(self).wf(),
        ensures
            it.remaining().len() == old(self)@.cells.len(),
            forall|i: int|
                0 <= i < old(self)@.cells.len() ==> *#[trigger] it.remaining()[i] == old(
                    self,
                )@.cells[i],
            final(self)@ == old(self)@.with_cells(
                Seq::new(old(self)@.cells.len(), |i: int| *final(it.remaining()[i])),
            ),
            final(self).wf(),
            it.decrease() is Some,
            it.initial_value_relation(&it),
    {
        let ghost before = self.val@;
        let len = self.val.len();
        let picked = step_by_mut(self.val.as_mut_slice(), 1, 0, len);
        proof {
            let written = Seq::new(len as nat, |i: int| *final(picked@[i]));
            assert(restepped(before, 1, 0, written) =~= written);
        }
        picked.into_iter()
    }

    /// An iterator over mutable references to the cells of row `row`, left to
    /// right. The matrix keeps its shape and its other rows; what is written
    /// through the references is what the row holds afterwards.
    pub fn iter_row_mut(&mut self, row: usize) -> (it: std::vec::IntoIter<&mut T>)
        requires
            old(self).wf(),
            row < old(self)@.rows,
        ensures
            it.remaining().len() == old(self)@.cols,
            forall|c: int|
                0 <= c < old(self)@.cols ==> *#[trigger] it.remaining()[c] == old(self)@.at(
                    row as int,
                    c,
                ),
            final(self)@ == old(self)@.set_row(
                row as int,
                Seq::new(old(self)@.cols, |c: int| *final(it.remaining()[c])),
            ),
            final(self).wf(),
            it.decrease() is Some,
            it.initial_value_relation(&it),
    {
        proof {
            self.lemma_cell_position(row as int, 0);
        }
        let cols = self.col;
        let start = row * cols;
        let ghost g = self@;
        let ghost after = final(self)@;
        let (above, rest) = self.val.as_mut_slice().split_at_mut(start);
        let (cells, below) = rest.split_at_mut(cols);
        let ghost before = cells@;
        let picked = step_by_mut(cells, 1, 0, cols);
        proof {
            let written = Seq::new(cols as nat, |c: int| *final(picked@[c]));
            assert(restepped(before, 1, 0, written) =~= written);
            assert(final(above)@ == above@);
            assert(final(below)@ == below@);
            assert(after.cells =~= g.set_row(row as int, written).cells);
            lemma_set_row(g, row as int, written);
        }
        picked.into_iter()
    }

    /// An iterator over mutable references to the cells of column `col`, top
    /// to bottom. The matrix keeps its shape and its other columns; what is
    /// written through the references is what the column holds afterwards.
    pub fn iter_col_mut(&mut self, col: usize) -> (it: std::vec::IntoIter<&mut T>)
        requires
            old(self).wf(),
            col < old(self)@.cols,
        ensures
            it.remaining().len() == old(self)@.rows,
            forall|r: int|
                0 <= r < old(self)@.rows ==> *#[trigger] it.remaining()[r] == old(self)@.at(
                    r,
                    col as int,
                ),
            final(self)@ == old(self)@.set_col(
                col as int,
                Seq::new(old(self)@.rows, |r: int| *final(it.remaining()[r])),
            ),
            final(self).wf(),
            it.decrease() is Some,
            it.initial_value_relation(&it),
    {
        let cols = self.col;
        let rows = self.row;
        let ghost g = self@;
        let picked = step_by_mut(self.val.as_mut_slice(), cols, col, rows);
        proof {
            let written = Seq::new(rows as nat, |r: int| *final(picked@[r]));
            let target = g.set_col(col as int, written).cells;
            let woven = restepped(g.cells, cols as int, col as int, written);
            assert forall|j: int| 0 <= j < g.cells.len() implies woven[j] == target[j] by {
                lemma_flat_index_joins(rows as int, cols as int, j);
            }
            assert(woven =~= target);
            lemma_set_col(g, col as int, written);
        }
        picked.into_iter()
    }

    /// All cells, row after row.
    pub fn flatten(&self) -> (cells: &Vec<T>)
        ensures
            cells@ == self@.cells,
    {
        &self.val
    }

    /// Gives up the matrix for its cells, row after row.
    pub fn into_vec(self) -> (cells: Vec<T>)
        ensures
            cells@ == self@.cells,
    {
        self.val
    }
}

impl<T> core::ops::Index<usize> for Matrix<T> {
    type Output = [T];

    /// Row `idx`, as a slice of the buffer.
    fn index(&self, idx: usize) -> (row: &[T])
        ensures
            row@ == self@.row(idx as int),
            row@.len() == self@.cols,
    {
        proof {
            self.lemma_cell_position(idx as int, 0);
        }
        let start_idx = idx * self.col;
        &self.val[start_idx..start_idx + self.col]
    }
}

impl<T> vstd::std_specs::core::IndexSpecImpl<usize> for Matrix<T> {
    /// Indexing asks for a row that the matrix has.
    open spec fn index_req(&self, index: &usize) -> bool {
        self.wf() && *index < self@.rows
    }
}

impl<T: Clone> Clone for Matrix<T> {
    /// A matrix of the same shape whose every cell is a clone of the cell at
    /// the same place.
    fn clone(&self) -> (m: Self)
        ensures
            m@.is_clone_of(self@),
            self.wf() ==> m.wf(),
    {
        Self { row: self.row, col: self.col, val: self.val.clone() }
    }
}

impl<T: PartialEq> PartialEq for Matrix<T> {
    /// Whether both matrices have the same shape and, cell by cell, values
    /// that compare equal.
    fn eq(&self, other: &Self) -> (equal: bool) {
        self.row == other.row && self.col == other.col && self.val == other.val
    }
}

impl<T: PartialEq> vstd::std_specs::cmp::PartialEqSpecImpl for Matrix<T> {
    open spec fn obeys_eq_spec() -> bool {
        T::obeys_eq_spec()
    }

    open spec fn eq_spec(&self, other: &Self) -> bool {
        &&& self@.rows == other@.rows
        &&& self@.cols == other@.cols
        &&& self@.cells.len() == other@.cells.len()
        &&& forall|i: int|
            0 <= i < self@.cells.len() ==> #[trigger] self@.cells[i].eq_spec(&other@.cells[i])
    }
}

impl<T: Eq> Eq for Matrix<T> {

}

/// Every matrix equals itself, as long as every cell value equals itself.
pub proof fn lemma_eq_reflexive<T: PartialEq>(a: Matrix<T>)
    requires
        forall|x: T| #[trigger] x.eq_spec(&x),
    ensures
        a.eq_spec(&a),
{
}

/// Equality of matrices does not depend on the order of the two sides, as
/// long as equality of cell values does not.
pub proof fn lemma_eq_symmetric<T: PartialEq>(a: Matrix<T>, b: Matrix<T>)
    requires
        forall|x: T, y: T| #[trigger] x.eq_spec(&y) <==> y.eq_spec(&x),
    ensures
        a.eq_spec(&b) <==> b.eq_spec(&a),
{
}

/// Matrices of different shapes are not equal.
pub proof fn lemma_eq_needs_same_shape<T: PartialEq>(a: Matrix<T>, b: Matrix<T>)
    requires
        a@.rows != b@.rows || a@.cols != b@.cols,
    ensures
        !a.eq_spec(&b),
{
}

/// Two matrices of the same shape are not equal once they differ in a single
/// cell.
pub proof fn lemma_eq_needs_same_cells<T: PartialEq>(a: Matrix<T>, b: Matrix<T>, r: int, c: int)
    requires
        a.wf(),
        b.wf(),
        a@.rows == b@.rows,
        a@.cols == b@.cols,
        a@.contains(r, c),
        !a@.at(r, c).eq_spec(&b@.at(r, c)),
    ensures
        !a.eq_spec(&b),
{
    lemma_flat_index_in_bounds(a@.rows as int, a@.cols as int, r, c);
}

/// Where equality of cell values means being the same value, two matrices
/// are equal exactly when they have the same shape and the same cells.
pub proof fn lemma_eq_is_same_grid<T: PartialEq>(a: Matrix<T>, b: Matrix<T>)
    requires
        forall|x: T, y: T| #[trigger] x.eq_spec(&y) <==> x == y,
    ensures
        a.eq_spec(&b) <==> a@ == b@,
{
    if a.eq_spec(&b) {
        assert forall|i: int| 0 <= i < a@.cells.len() implies a@.cells[i] == b@.cells[i] by {
            assert(a@.cells[i].eq_spec(&b@.cells[i]));
        }
        assert(a@.cells =~= b@.cells);
    }
}

} // verus!
