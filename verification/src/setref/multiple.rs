//! Iteration-element handles for set-shaped maps: the element is the key.

use vstd::prelude::*;

use crate::mapref;

verus! {

/// A shared handle on one element of a set iteration.
#[derive(Clone, Copy)]
pub struct RefMulti<'a, K> {
    /// The underlying map element handle, whose value carries no
    /// information.
    pub inner: mapref::multiple::RefMulti<'a, K, ()>,
}

impl<'a, K> RefMulti<'a, K> {
    /// Wrap a map element handle.
    pub fn new(inner: mapref::multiple::RefMulti<'a, K, ()>) -> (r: Self)
        ensures
            r.inner == inner,
    {
        RefMulti { inner }
    }

    /// The element.
    pub fn key(&self) -> (r: &'a K)
        ensures
            r == self.inner.k,
    {
        self.inner.key()
    }
}

} // verus!
