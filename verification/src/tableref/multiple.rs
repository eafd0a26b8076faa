//! Iteration-element handles for the table.
//!
//! Under concurrency every element a shard iterator emits shares that
//! shard's detached guard through a reference count, and the shard unlocks
//! when the last such handle is dropped. Here the handles borrow the
//! table for the iterator's lifetime, which holds the shard in the same way;
//! sharing needs no counter because shared borrows are free to copy.

use vstd::prelude::*;

verus! {

/// A shared handle on one element of an iteration.
#[derive(Clone, Copy)]
pub struct RefMulti<'a, T> {
    /// The borrowed element.
    pub t: &'a T,
}

impl<'a, T> RefMulti<'a, T> {
    /// Wrap a borrow.
    pub fn new(t: &'a T) -> (r: Self)
        ensures
            r.t == t,
    {
        RefMulti { t }
    }

    /// The borrowed element.
    pub fn value(&self) -> (r: &'a T)
        ensures
            r == self.t,
    {
        self.t
    }
}

/// An exclusive handle on one element of a mutating iteration.
pub struct RefMutMulti<'a, T> {
    /// The borrowed element; writes through it land in the table.
    pub t: &'a mut T,
}

impl<'a, T> RefMutMulti<'a, T> {
    /// Wrap a borrow.
    pub fn new(t: &'a mut T) -> (r: Self)
        ensures
            *r.t == *old(t),
            *final(r.t) == *final(t),
    {
        RefMutMulti { t }
    }

    /// The borrowed element.
    pub fn value(&self) -> (r: &T)
        ensures
            *r == *old(self.t),
    {
        &*self.t
    }
}

} // verus!
