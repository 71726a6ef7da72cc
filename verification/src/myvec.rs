//! A growable sequence behind a small interface of its own.

use vstd::prelude::*;
use vstd::std_specs::iter::IteratorSpec;

verus! {

/// A growable sequence of values, seen as the `Seq` of what it holds.
pub struct MyVec<T> {
    vec: Box<Vec<T>>,
}

impl<T> View for MyVec<T> {
    type V = Seq<T>;

    closed spec fn view(&self) -> Seq<T> {
        self.vec@
    }
}

impl<T> MyVec<T> {
    /// The sequence whose storage is `vec`.
    pub closed spec fn wrapping(vec: Vec<T>) -> Self {
        MyVec { vec: Box::new(vec) }
    }

    /// A sequence without values.
    pub fn new() -> (v: Self)
        ensures
            v@ == Seq::<T>::empty(),
    {
        Self { vec: Box::new(Vec::new()) }
    }

    /// Adds `val` behind the last value.
    pub fn push(&mut self, val: T)
        ensures
            final(self)@ == old(self)@.push(val),
    {
        self.vec.push(val);
    }

    /// The value at position `idx`, or `None` where the sequence is too
    /// short.
    pub fn get(&self, idx: usize) -> (val: Option<&T>)
        ensures
            idx < self@.len() ==> val == Some(&self@[idx as int]),
            idx >= self@.len() ==> val is None,
    {
        let vec = self.vec.get(idx);
        vec
    }

    /// The number of values.
    pub fn len(&self) -> (n: usize)
        ensures
            n == self@.len(),
    {
        self.vec.len()
    }

    /// A cursor that stands before the first value.
    pub fn iter(&self) -> (it: Iter<'_, T>)
        ensures
            it.remaining() == self@.as_ref(),
            it.decrease() is Some,
            it.initial_value_relation(&it),
    {
        self.into_iter()
    }

    /// The vector behind the sequence, for changes in place: what the vector
    /// holds when the borrow ends is what the sequence holds.
    pub fn as_mut(&mut self) -> (vec: &mut Vec<T>)
        ensures
            vec@ == old(self)@,
            final(self)@ == final(vec)@,
    {
        &mut self.vec
    }
}

impl<T> Default for MyVec<T> {
    /// A sequence without values.
    fn default() -> (v: Self)
        ensures
            v@ == Seq::<T>::empty(),
    {
        MyVec::new()
    }
}

impl<T> From<Vec<T>> for MyVec<T> {
    /// The sequence that holds what `vec` holds.
    fn from(vec: Vec<T>) -> (v: Self)
        ensures
            v@ == vec@,
    {
        Self { vec: Box::new(vec) }
    }
}

impl<T> vstd::std_specs::convert::FromSpecImpl<Vec<T>> for MyVec<T> {
    open spec fn obeys_from_spec() -> bool {
        true
    }

    open spec fn from_spec(vec: Vec<T>) -> Self {
        Self::wrapping(vec)
    }
}

impl<T> core::ops::Index<usize> for MyVec<T> {
    type Output = T;

    /// The value at position `idx`.
    fn index(&self, idx: usize) -> (val: &T)
        ensures
            *val == self@[idx as int],
    {
        &self.vec[idx]
    }
}

impl<T> vstd::std_specs::core::IndexSpecImpl<usize> for MyVec<T> {
    /// Indexing asks for a position that holds a value.
    open spec fn index_req(&self, index: &usize) -> bool {
        *index < self@.len()
    }
}

/// A cursor over a [`MyVec`], front to back.
pub struct Iter<'a, T> {
    vec: &'a MyVec<T>,
    idx: usize,
}

impl<'a, T> Iter<'a, T> {
    /// The values of the sequence that the cursor walks over.
    pub closed spec fn elts(self) -> Seq<T> {
        self.vec@
    }

    /// How many values the cursor has passed.
    pub closed spec fn pos(self) -> int {
        self.idx as int
    }
}

impl<'a, T> Iterator for Iter<'a, T> {
    type Item = &'a T;

    /// The value at the cursor, which then moves one on; `None` behind the
    /// last value.
    fn next(&mut self) -> (ret: Option<&'a T>) {
        if let Some(ret) = self.vec.get(self.idx) {
            assert(self.idx < self.vec.vec.len());
            self.idx += 1;
            Some(ret)
        } else {
            None
        }
    }
}

impl<'a, T> vstd::std_specs::iter::IteratorSpecImpl for Iter<'a, T> {
    open spec fn obeys_prophetic_iter_laws(&self) -> bool {
        true
    }

    open spec fn remaining(&self) -> Seq<Self::Item> {
        if self.pos() <= self.elts().len() {
            self.elts().skip(self.pos()).as_ref()
        } else {
            Seq::empty()
        }
    }

    open spec fn will_return_none(&self) -> bool {
        true
    }

    open spec fn decrease(&self) -> Option<nat> {
        Some((self.elts().len() - self.pos()) as nat)
    }

    open spec fn initial_value_relation(&self, init: &Self) -> bool {
        self.elts() == init.elts() && self.pos() == init.pos()
    }

    open spec fn peek(&self, index: int) -> Option<Self::Item> {
        if 0 <= index && 0 <= self.pos() + index < self.elts().len() {
            Some(&self.elts()[self.pos() + index])
        } else {
            None
        }
    }
}

impl<'a, T> IntoIterator for &'a MyVec<T> {
    type Item = &'a T;

    type IntoIter = Iter<'a, T>;

    /// A cursor that stands before the first value.
    fn into_iter(self) -> (it: Iter<'a, T>)
        ensures
            it.elts() == self@,
            it.pos() == 0,
    {
        Iter { vec: self, idx: 0 }
    }
}

} // verus!
