//! Iteration-element handles for the map.
//!
//! Each element an iterator emits keeps its shard held: under concurrency
//! that takes a reference-counted detached guard, here the shared borrow
//! the handle carries does it. A shared handle can be copied freely,
//! which is the sequential reading of "the guard is shared".

use vstd::prelude::*;

verus! {

/// A shared handle on one element of an iteration.
#[derive(Clone, Copy)]
pub struct RefMulti<'a, K, V> {
    /// The element's key.
    pub k: &'a K,
    /// The element's value.
    pub v: &'a V,
}

impl<'a, K, V> RefMulti<'a, K, V> {
    /// Wrap a pair of borrows.
    pub fn new(k: &'a K, v: &'a V) -> (r: Self)
        ensures
            r.k == k,
            r.v == v,
    {
        RefMulti { k, v }
    }

    /// The element's key.
    pub fn key(&self) -> (r: &'a K)
        ensures
            r == self.k,
    {
        self.k
    }

    /// The element's value.
    pub fn value(&self) -> (r: &'a V)
        ensures
            r == self.v,
    {
        self.v
    }

    /// The element.
    pub fn pair(&self) -> (r: (&'a K, &'a V))
        ensures
            r.0 == self.k,
            r.1 == self.v,
    {
        (self.k, self.v)
    }
}

/// An exclusive handle on one element of a mutating iteration.
pub struct RefMutMulti<'a, K, V> {
    /// The element's key.
    pub k: &'a K,
    /// The element's value; writes through it land in the map.
    pub v: &'a mut V,
}

impl<'a, K, V> RefMutMulti<'a, K, V> {
    /// Wrap a pair of borrows.
    pub fn new(k: &'a K, v: &'a mut V) -> (r: Self)
        ensures
            r.k == k,
            *r.v == *old(v),
            *final(r.v) == *final(v),
    {
        RefMutMulti { k, v }
    }

    /// The element's key.
    pub fn key(&self) -> (r: &'a K)
        ensures
            r == self.k,
    {
        self.k
    }

    /// The element's value.
    pub fn value(&self) -> (r: &V)
        ensures
            *r == *old(self.v),
    {
        &*self.v
    }

    /// Write access to the element's value.
    pub fn value_mut(&mut self) -> (r: &mut V)
        ensures
            *r == *old(self.v),
            *final(self).v == *final(r),
            final(self).k == old(self).k,
    {
        self.v
    }

    /// The element.
    pub fn pair(&self) -> (r: (&'a K, &V))
        ensures
            r.0 == self.k,
            *r.1 == *old(self.v),
    {
        (self.k, &*self.v)
    }

    /// The element, with write access to the value.
    pub fn pair_mut(&mut self) -> (r: (&'a K, &mut V))
        ensures
            r.0 == old(self).k,
            *r.1 == *old(self.v),
            *final(self).v == *final(r.1),
            final(self).k == old(self).k,
    {
        (self.k, self.v)
    }
}

} // verus!
