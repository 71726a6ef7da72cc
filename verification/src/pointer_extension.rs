//! Distances between addresses, counted in values.

use vstd::prelude::*;

verus! {

/// How many values of `size` bytes each lie between the address `start` and
/// the address `end`. For values without size the distance is the difference
/// of the two addresses, taken around the end of the address space where
/// `end` lies before `start`.
pub fn ptrdistance(start: usize, end: usize, size: usize) -> (n: usize)
    requires
        size > 0 ==> start <= end,
    ensures
        size > 0 ==> n == (end - start) / (size as int),
        size == 0 ==> n == if start <= end {
            end - start
        } else {
            usize::MAX - start + end + 1
        },
{
    if size == 0 {
        end.wrapping_sub(start)
    } else {
        (end - start) / size
    }
}

} // verus!
