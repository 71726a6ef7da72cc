//! The steps by which a column enters or leaves the row-major buffer.
//!
//! A column is woven in by one insertion for each row, and taken out by one
//! removal for each row. The functions here name the buffer between two such
//! steps, and the lemmas show that each step leads from one to the next.

use crate::grid::lemma_flat_index_splits;
use crate::grid::Grid;
use vstd::prelude::*;

verus! {

/// The buffer while a column is being woven in, row by row: the first `done`
/// rows already hold their new cell, the rows after them are as they were.
pub open spec fn woven<T>(g: Grid<T>, idx: int, values: Seq<T>, done: int) -> Seq<T> {
    g.insert_col(idx, values).cells.take(done * (g.cols + 1)) + g.cells.skip(done * g.cols)
}

/// Weaving starts from the old buffer and ends with the buffer of the grid
/// that has the new column.
pub proof fn lemma_woven_ends<T>(g: Grid<T>, idx: int, values: Seq<T>)
    requires
        g.cells.len() == values.len() * g.cols,
    ensures
        woven(g, idx, values, 0) == g.cells,
        woven(g, idx, values, values.len() as int) == g.insert_col(idx, values).cells,
{
    let n = values.len() as int;
    let full = g.insert_col(idx, values).cells;
    assert(woven(g, idx, values, 0) =~= g.cells);
    assert(full.len() == n * (g.cols + 1));
    assert(g.cells.skip(n * g.cols) =~= Seq::<T>::empty());
    assert(woven(g, idx, values, n) =~= full);
}

/// One step of weaving: putting `values[done]` at position
/// `done * (cols + 1) + idx` completes row `done`.
pub proof fn lemma_woven_step<T>(g: Grid<T>, idx: int, values: Seq<T>, done: int)
    requires
        0 <= idx <= g.cols,
        g.cells.len() == values.len() * g.cols,
        0 <= done < values.len(),
    ensures
        woven(g, idx, values, done).len() == done * (g.cols + 1) + (values.len() - done) * g.cols,
        0 <= done * g.cols <= done * g.cols + idx + done == done * (g.cols + 1) + idx <= woven(
            g,
            idx,
            values,
            done,
        ).len(),
        woven(g, idx, values, done).insert(done * (g.cols + 1) + idx, values[done]) == woven(
            g,
            idx,
            values,
            done + 1,
        ),
{
    let n = values.len() as int;
    let cols = g.cols as int;
    let w = cols + 1;
    let full = g.insert_col(idx, values);
    let before = woven(g, idx, values, done);
    let after = woven(g, idx, values, done + 1);
    let p = done * w + idx;
    assert(done * w == done * cols + done) by (nonlinear_arith)
        requires
            w == cols + 1,
    ;
    assert((done + 1) * w == done * w + w) by (nonlinear_arith);
    assert((done + 1) * cols == done * cols + cols) by (nonlinear_arith);
    assert(0 <= done * cols && (done + 1) * cols <= n * cols && (done + 1) * w <= n * w)
        by (nonlinear_arith)
        requires
            0 <= done < n,
            0 <= cols,
            w == cols + 1,
    ;
    assert((n - done) * cols == n * cols - done * cols) by (nonlinear_arith);
    assert(full.cells.len() == n * w);
    let put = before.insert(p, values[done]);
    assert(put.len() == after.len());
    assert forall|j: int| 0 <= j < put.len() implies put[j] == after[j] by {
        if done * w <= j < (done + 1) * w {
            let c = j - done * w;
            lemma_flat_index_splits(w, done, c);
            assert(after[j] == full.cells[j]);
        }
    }
    assert(put =~= after);
}

/// The buffer while the last column is being taken out, row by row: the
/// first `done` rows have lost their last cell, the rows after them are as
/// they were.
pub open spec fn unwoven<T>(g: Grid<T>, done: int) -> Seq<T> {
    Grid::tabulate(g.rows, (g.cols - 1) as nat, |r: int, c: int| g.at(r, c)).cells.take(
        done * (g.cols - 1),
    ) + g.cells.skip(done * g.cols)
}

/// Taking the last column out starts from the old buffer and ends with the
/// buffer of the grid without that column.
pub proof fn lemma_unwoven_ends<T>(g: Grid<T>)
    requires
        g.wf(),
        g.cols > 0,
    ensures
        unwoven(g, 0) == g.cells,
        unwoven(g, g.rows as int) == g.pop_col().cells,
{
    let rows = g.rows as int;
    let narrow = Grid::tabulate(g.rows, (g.cols - 1) as nat, |r: int, c: int| g.at(r, c));
    assert(unwoven(g, 0) =~= g.cells);
    assert(g.cells.skip(rows * g.cols) =~= Seq::<T>::empty());
    assert(unwoven(g, rows) =~= narrow.cells);
    if g.cols == 1 {
        assert(rows * 0 == 0) by (nonlinear_arith);
        assert(narrow.cells =~= g.pop_col().cells);
    }
}

/// One step of taking the last column out: the cell at position
/// `done * (cols - 1) + cols - 1` is the last cell of row `done`, and
/// removing it shortens that row.
pub proof fn lemma_unwoven_step<T>(g: Grid<T>, done: int)
    requires
        g.wf(),
        g.cols > 0,
        0 <= done < g.rows,
    ensures
        unwoven(g, done).len() == done * (g.cols - 1) + (g.rows - done) * g.cols,
        0 <= done * g.cols <= done * g.cols + g.cols - 1 < g.cells.len(),
        0 <= done * g.cols + g.cols - 1 - done == done * (g.cols - 1) + g.cols - 1 < unwoven(
            g,
            done,
        ).len(),
        unwoven(g, done)[done * (g.cols - 1) + g.cols - 1] == g.at(done, g.cols - 1),
        unwoven(g, done).remove(done * (g.cols - 1) + g.cols - 1) == unwoven(g, done + 1),
{
    let rows = g.rows as int;
    let cols = g.cols as int;
    let w = cols - 1;
    let narrow = Grid::tabulate(g.rows, w as nat, |r: int, c: int| g.at(r, c));
    let before = unwoven(g, done);
    let after = unwoven(g, done + 1);
    let p = done * w + w;
    assert(done * w == done * cols - done) by (nonlinear_arith)
        requires
            w == cols - 1,
    ;
    assert((done + 1) * w == done * w + w) by (nonlinear_arith);
    assert((done + 1) * cols == done * cols + cols) by (nonlinear_arith);
    assert(0 <= done * w && 0 <= done * cols && (done + 1) * cols <= rows * cols && (done + 1) * w
        <= rows * w) by (nonlinear_arith)
        requires
            0 <= done < rows,
            0 <= w,
            cols == w + 1,
    ;
    assert((rows - done) * cols == rows * cols - done * cols) by (nonlinear_arith);
    assert(narrow.cells.len() == rows * w);
    let cut = before.remove(p);
    assert(cut.len() == after.len());
    assert forall|j: int| 0 <= j < cut.len() implies cut[j] == after[j] by {
        if done * w <= j < (done + 1) * w {
            let c = j - done * w;
            lemma_flat_index_splits(w, done, c);
            assert(after[j] == narrow.cells[j]);
        }
    }
    assert(cut =~= after);
}

} // verus!
