//! Mutable access to every `step`-th value of a slice.

use crate::grid::lemma_flat_index_joins;
use crate::grid::lemma_flat_index_splits;
use vstd::prelude::*;

verus! {

/// The sequence `cells` in which the values at the positions `start`,
/// `start + step`, `start + 2 * step`, ... are replaced, in this order, by
/// `values`.
pub open spec fn restepped<T>(cells: Seq<T>, step: int, start: int, values: Seq<T>) -> Seq<T> {
    Seq::new(cells.len(), |j: int| if j % step == start { values[j / step] } else { cells[j] })
}

/// Mutable references to the values of `cells` at the positions `start`,
/// `start + step`, ..., `start + (count - 1) * step`, in this order. The
/// slice is `count` stretches of `step` values each. What is written through
/// the references is what the slice holds at those positions afterwards; the
/// other positions keep their values.
pub fn step_by_mut<'a, T>(cells: &'a mut [T], step: usize, start: usize, count: usize) -> (picked:
    Vec<&'a mut T>)
    requires
        start < step,
        old(cells)@.len() == count * step,
    ensures
        picked@.len() == count,
        forall|k: int| 0 <= k < count ==> *#[trigger] picked@[k] == old(cells)@[k * step + start],
        final(cells)@ == restepped(
            old(cells)@,
            step as int,
            start as int,
            Seq::new(count as nat, |k: int| *final(picked@[k])),
        ),
{
    let mut picked: Vec<&'a mut T> = Vec::with_capacity(count);
    let ghost before: Seq<T> = cells@;
    let ghost after: Seq<T> = final(cells)@;
    proof {
        assert(0 < count ==> step <= count * step) by (nonlinear_arith)
            requires
                step > 0,
        ;
    }
    let lead = if count == 0 {
        0
    } else {
        start
    };
    let (skipped, mut rest) = cells.split_at_mut(lead);
    let ghost mut pos: int = lead as int;
    proof {
        let prefix = Seq::new(
            pos as nat,
            |j: int|
                if j % (step as int) == start {
                    *final(picked@[j / (step as int)])
                } else {
                    before[j]
                },
        );
        assert(final(skipped)@ == skipped@);
        assert forall|j: int| 0 <= j < pos implies prefix[j] == skipped@[j] by {
            lemma_flat_index_splits(step as int, 0, j);
        }
        assert(prefix =~= skipped@);
        if count == 0 {
            assert(count * step == 0) by (nonlinear_arith)
                requires
                    count == 0,
            ;
        } else {
            assert(0 * step + start == start) by (nonlinear_arith);
        }
    }
    while picked.len() < count
        invariant
            start < step,
            picked@.len() <= count,
            before.len() == count * step,
            pos == if picked@.len() < count {
                picked@.len() * step + start
            } else {
                before.len() as int
            },
            0 <= pos <= before.len(),
            rest@ == before.skip(pos),
            forall|k: int|
                0 <= k < picked@.len() ==> *#[trigger] picked@[k] == before[k * step + start],
            after == Seq::new(
                pos as nat,
                |j: int|
                    if j % (step as int) == start {
                        *final(picked@[j / (step as int)])
                    } else {
                        before[j]
                    },
            ) + final(rest)@,
        decreases count - picked@.len(),
    {
        let ghost k = picked@.len() as int;
        let ghost old_prefix = Seq::new(
            pos as nat,
            |j: int|
                if j % (step as int) == start {
                    *final(picked@[j / (step as int)])
                } else {
                    before[j]
                },
        );
        proof {
            assert(k * step + step <= count * step) by (nonlinear_arith)
                requires
                    k + 1 <= count,
                    step > 0,
            ;
        }
        let r = rest;
        let (head, tail) = r.split_at_mut(1);
        let first = head.first_mut().unwrap();
        let ghost first_final = *final(first);
        picked.push(first);
        let gap = if step - 1 < tail.len() {
            step - 1
        } else {
            tail.len()
        };
        let (skipped, tail2) = tail.split_at_mut(gap);
        rest = tail2;
        proof {
            let new_pos = pos + 1 + gap;
            assert((k + 1) * step == k * step + step) by (nonlinear_arith);
            if k + 1 < count {
                assert((k + 2) * step <= count * step && (k + 2) * step == k * step + step + step)
                    by (nonlinear_arith)
                    requires
                        k + 2 <= count,
                        step > 0,
                ;
            } else {
                assert(count * step == k * step + step) by (nonlinear_arith)
                    requires
                        count == k + 1,
                ;
            }
            let new_prefix = Seq::new(
                new_pos as nat,
                |j: int|
                    if j % (step as int) == start {
                        *final(picked@[j / (step as int)])
                    } else {
                        before[j]
                    },
            );
            assert(final(skipped)@ == skipped@);
            assert forall|j: int| 0 <= j < new_pos implies new_prefix[j] == (old_prefix
                + seq![first_final] + skipped@)[j] by {
                if j < k * step {
                    lemma_flat_index_joins(k, step as int, j);
                } else if j < k * step + step {
                    lemma_flat_index_splits(step as int, k, j - k * step);
                } else {
                    lemma_flat_index_splits(step as int, k + 1, j - (k + 1) * step);
                }
            }
            assert(new_prefix =~= old_prefix + seq![first_final] + skipped@);
            pos = new_pos;
        }
    }
    proof {
        assert(final(rest)@ == rest@);
        let target = restepped(
            before,
            step as int,
            start as int,
            Seq::new(count as nat, |k: int| *final(picked@[k])),
        );
        assert forall|j: int| 0 <= j < before.len() implies after[j] == target[j] by {
            lemma_flat_index_joins(count as int, step as int, j);
        }
        assert(after =~= target);
    }
    picked
}

} // verus!
