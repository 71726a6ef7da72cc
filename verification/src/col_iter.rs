//! Walking down one column of a matrix.

use crate::matrix::Matrix;
use vstd::prelude::*;

verus! {

/// An iterator over the cells of one column of a [`Matrix`], top to bottom.
/// From one cell to the next it moves on by a whole row in the buffer.
pub struct ColIter<'a, T> {
    matrix: &'a Matrix<T>,
    col: usize,
    row: usize,
}

impl<'a, T> ColIter<'a, T> {
    #[verifier::type_invariant]
    spec fn inv(self) -> bool {
        &&& self.matrix.wf()
        &&& self.col < self.matrix@.cols
        &&& self.row <= self.matrix@.rows
    }

    /// The whole column that the iterator walks down.
    pub closed spec fn column(self) -> Seq<T> {
        self.matrix@.col(self.col as int)
    }

    /// How many cells the iterator has handed out.
    pub closed spec fn passed(self) -> int {
        self.row as int
    }

    /// An iterator that stands above the first cell of column `col`.
    pub fn new(matrix: &'a Matrix<T>, col: usize) -> (it: Self)
        requires
            matrix.wf(),
            col < matrix@.cols,
        ensures
            it.column() == matrix@.col(col as int),
            it.passed() == 0,
    {
        ColIter { matrix, col, row: 0 }
    }
}

impl<'a, T> Iterator for ColIter<'a, T> {
    type Item = &'a T;

    /// The next cell down the column; `None` below the last row.
    fn next(&mut self) -> (cell: Option<&'a T>) {
        proof {
            use_type_invariant(&*self);
        }
        if self.row < self.matrix.rows() {
            let cell = self.matrix.unchecked(self.row, self.col);
            self.row += 1;
            Some(cell)
        } else {
            None
        }
    }
}

impl<'a, T> vstd::std_specs::iter::IteratorSpecImpl for ColIter<'a, T> {
    open spec fn obeys_prophetic_iter_laws(&self) -> bool {
        true
    }

    open spec fn remaining(&self) -> Seq<Self::Item> {
        if 0 <= self.passed() <= self.column().len() {
            self.column().skip(self.passed()).as_ref()
        } else {
            Seq::empty()
        }
    }

    open spec fn will_return_none(&self) -> bool {
        true
    }

    open spec fn decrease(&self) -> Option<nat> {
        Some((self.column().len() - self.passed()) as nat)
    }

    open spec fn initial_value_relation(&self, init: &Self) -> bool {
        self.column() == init.column() && self.passed() == init.passed()
    }

    open spec fn peek(&self, index: int) -> Option<Self::Item> {
        if 0 <= index && 0 <= self.passed() + index < self.column().len() {
            Some(&self.column()[self.passed() + index])
        } else {
            None
        }
    }
}

} // verus!
