//! The debug text of a matrix.
//!
//! The text of a single cell is whatever the `Debug` impl of the cell type
//! writes. Everything around the cell texts is laid down here: the cells of
//! a row are separated by a comma and a blank and stand between a pair of
//! brackets, and the rows stand one after the other between a pair of
//! brackets.

use crate::grid::lemma_flat_index_in_bounds;
use crate::matrix::Matrix;
use core::fmt::Write;
use vstd::prelude::*;
use vstd::string::StringExecFns;

verus! {

/// The texts one after the other, with a comma and a blank between each two.
pub open spec fn joined(cells: Seq<Seq<char>>) -> Seq<char>
    decreases cells.len(),
{
    if cells.len() == 0 {
        Seq::empty()
    } else if cells.len() == 1 {
        cells[0]
    } else {
        joined(cells.drop_last()) + seq![',', ' '] + cells.last()
    }
}

/// The text of one row whose cells have the texts `cells`: an opening
/// bracket, the cell texts separated by a comma and a blank, a closing
/// bracket.
pub open spec fn listed(cells: Seq<Seq<char>>) -> Seq<char> {
    seq!['['] + joined(cells) + seq![']']
}

/// The text of a matrix whose rows have the texts `groups`: an opening
/// bracket, the groups one after the other, a closing bracket.
pub open spec fn bracketed(groups: Seq<Seq<char>>) -> Seq<char> {
    seq!['['] + groups.flatten() + seq![']']
}

/// The text of a `rows` by `cols` matrix whose cells, row after row, have
/// the texts `cells`.
pub open spec fn rendered(rows: nat, cols: nat, cells: Seq<Seq<char>>) -> Seq<char> {
    bracketed(Seq::new(rows, |r: int| listed(cells.subrange(r * cols, r * cols + cols))))
}

/// What each of the strings holds.
pub open spec fn texts(groups: Seq<String>) -> Seq<Seq<char>> {
    Seq::new(groups.len(), |i: int| groups[i]@)
}

/// Puts the cell texts of one row between a pair of brackets, separated by a
/// comma and a blank.
pub fn list_cells(cells: &Vec<String>) -> (text: String)
    ensures
        text@ == listed(texts(cells@)),
{
    let mut text = String::new();
    proof {
        reveal_strlit("[");
        reveal_strlit(", ");
        reveal_strlit("]");
    }
    text.append("[");
    let mut i: usize = 0;
    while i < cells.len()
        invariant
            i <= cells.len(),
            text@ == seq!['['] + joined(texts(cells@).take(i as int)),
        decreases cells.len() - i,
    {
        if i > 0 {
            text.append(", ");
        }
        text.append(cells[i].as_str());
        proof {
            reveal_strlit(", ");
            let all = texts(cells@);
            let grown = all.take(i + 1);
            assert(grown.drop_last() =~= all.take(i as int));
            assert(grown.last() == cells@[i as int]@);
            if i == 0 {
                assert(joined(all.take(0)) =~= Seq::<char>::empty());
                assert(joined(grown) == grown[0]);
            } else {
                assert(joined(grown) == joined(grown.drop_last()) + seq![',', ' '] + grown.last());
            }
            assert(text@ =~= seq!['['] + joined(grown));
        }
        i += 1;
    }
    assert(texts(cells@).take(i as int) =~= texts(cells@));
    text.append("]");
    text
}

/// Puts the groups one after the other between a pair of brackets.
pub fn bracket_groups(groups: &Vec<String>) -> (text: String)
    ensures
        text@ == bracketed(texts(groups@)),
{
    let mut text = String::new();
    proof {
        reveal_strlit("[");
        reveal_strlit("]");
    }
    text.append("[");
    let mut i: usize = 0;
    assert(texts(groups@).take(0).flatten() =~= Seq::<char>::empty());
    while i < groups.len()
        invariant
            i <= groups.len(),
            text@ == seq!['['] + texts(groups@).take(i as int).flatten(),
        decreases groups.len() - i,
    {
        text.append(groups[i].as_str());
        proof {
            let all = texts(groups@);
            assert(all.take(i + 1) =~= all.take(i as int).push(groups@[i as int]@));
            all.take(i as int).lemma_flatten_push(groups@[i as int]@);
        }
        i += 1;
    }
    assert(texts(groups@).take(i as int) =~= texts(groups@));
    text.append("]");
    text
}

/// The text that the standard library's `{:?}` formatting writes for one
/// value, taken through `write!` into a fresh `String`. Nothing is claimed of
/// the text: it is whatever the `Debug` impl of `T` writes. An error that the
/// impl reports is dropped, and the text written up to it is returned.
#[verifier::external_body]
fn debug_cell<T: core::fmt::Debug>(cell: &T) -> String {
    let mut text = String::new();
    let _ = write!(text, "{:?}", cell);
    text
}

impl<T: core::fmt::Debug> Matrix<T> {
    /// The debug text of the matrix: between a pair of brackets, one group
    /// for each row, top to bottom, with nothing between the groups. A group
    /// holds, between a pair of brackets, the debug texts of the cells of its
    /// row, left to right, separated by a comma and a blank. There is one
    /// cell text for each cell; what a cell text holds is up to the `Debug`
    /// impl of `T`.
    pub fn to_debug_string(&self) -> (text: String)
        requires
            self.wf(),
        ensures
            exists|cells: Seq<Seq<char>>|
                cells.len() == self@.cells.len() && text@ == #[trigger] rendered(
                    self@.rows,
                    self@.cols,
                    cells,
                ),
    {
        let rows = self.rows();
        let cols = self.cols();
        let mut groups: Vec<String> = Vec::with_capacity(rows);
        let ghost mut all: Seq<Seq<char>> = Seq::empty();
        let mut r: usize = 0;
        while r < rows
            invariant
                self.wf(),
                rows == self@.rows,
                cols == self@.cols,
                r <= rows,
                groups@.len() == r,
                all.len() == r * cols,
                forall|k: int|
                    0 <= k < r ==> (#[trigger] groups@[k])@ == listed(
                        all.subrange(k * cols, k * cols + cols),
                    ),
            decreases rows - r,
        {
            let mut row_texts: Vec<String> = Vec::with_capacity(cols);
            let mut c: usize = 0;
            while c < cols
                invariant
                    self.wf(),
                    rows == self@.rows,
                    cols == self@.cols,
                    r < rows,
                    c <= cols,
                    row_texts@.len() == c,
                decreases cols - c,
            {
                row_texts.push(debug_cell(self.unchecked(r, c)));
                c += 1;
            }
            let group = list_cells(&row_texts);
            proof {
                let before = all;
                let added = texts(row_texts@);
                all = before + added;
                assert((r + 1) * cols == r * cols + cols) by (nonlinear_arith);
                assert(all.subrange(r * cols, r * cols + cols) =~= added);
                assert forall|k: int| 0 <= k < r implies (#[trigger] groups@[k])@ == listed(
                    all.subrange(k * cols, k * cols + cols),
                ) by {
                    lemma_flat_index_in_bounds(r as int, cols as int, k, 0);
                    assert(all.subrange(k * cols, k * cols + cols) =~= before.subrange(
                        k * cols,
                        k * cols + cols,
                    ));
                }
            }
            groups.push(group);
            r += 1;
        }
        let text = bracket_groups(&groups);
        proof {
            let by_row = Seq::new(
                rows as nat,
                |r: int| listed(all.subrange(r * cols, r * cols + cols)),
            );
            assert(texts(groups@) =~= by_row);
            assert(text@ == rendered(self@.rows, self@.cols, all));
        }
        text
    }
}

} // verus!
