//! Duplication strategies: how to produce an aliased copy of a run of
//! elements, chosen by the element type's capabilities.

use vstd::prelude::*;

verus! {

/// A strategy for duplicating a slice of elements.
pub trait Aliasor<T> {
    /// Duplicate `src`, element for element.
    fn alias(src: &Vec<T>) -> (dst: Vec<T>)
        ensures
            dst@.len() == src@.len(),
    ;
}

/// Duplicate by bitwise copy; available when the element type is `Copy`.
pub struct DoCopy<T> {
    /// The element type the strategy serves.
    pub marker: Option<T>,
}

impl<T: Copy> Aliasor<T> for DoCopy<T> {
    fn alias(src: &Vec<T>) -> (dst: Vec<T>)
    {
        let mut dst: Vec<T> = Vec::new();
        let n = src.len();
        let mut i: usize = 0;
        while i < n
            invariant
                i <= n,
                n == src@.len(),
                dst@.len() == i,
                forall|m: int| 0 <= m < i ==> #[trigger] dst@[m] == src@[m],
            decreases n - i,
        {
            dst.push(src[i]);
            i += 1;
        }
        dst
    }
}

/// Duplicate by cloning each element; available when the element type is
/// `Clone`.
pub struct DoClone<T> {
    /// The element type the strategy serves.
    pub marker: Option<T>,
}

impl<T: Clone> Aliasor<T> for DoClone<T> {
    fn alias(src: &Vec<T>) -> (dst: Vec<T>)
    {
        let mut dst: Vec<T> = Vec::new();
        let n = src.len();
        let mut i: usize = 0;
        while i < n
            invariant
                i <= n,
                n == src@.len(),
                dst@.len() == i,
            decreases n - i,
        {
            dst.push(src[i].clone());
            i += 1;
        }
        dst
    }
}

} // verus!
