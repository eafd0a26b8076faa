//! The three-valued result of the non-blocking operations.

use vstd::prelude::*;

verus! {

/// Outcome of a `try_*` operation: the entry, its absence, or a shard that
/// is locked by someone else. With a single caller no shard is ever found
/// locked, so the sequential contracts never produce `Locked`; the variant
/// is what the non-blocking operations hand back under contention.
pub enum TryResult<R> {
    /// The operation found the entry.
    Present(R),
    /// The shard was free but held no matching entry.
    Absent,
    /// The shard is locked in a conflicting mode; try again later.
    Locked,
}

impl<R> TryResult<R> {
    /// Whether the entry was found.
    pub fn is_present(&self) -> (r: bool)
        ensures
            r == (self is Present),
    {
        match self {
            TryResult::Present(_) => true,
            _ => false,
        }
    }

    /// Whether the shard was free but the entry absent.
    pub fn is_absent(&self) -> (r: bool)
        ensures
            r == (self is Absent),
    {
        match self {
            TryResult::Absent => true,
            _ => false,
        }
    }

    /// Whether the shard was locked.
    pub fn is_locked(&self) -> (r: bool)
        ensures
            r == (self is Locked),
    {
        match self {
            TryResult::Locked => true,
            _ => false,
        }
    }

    /// The entry, which must be present.
    pub fn unwrap(self) -> (r: R)
        requires
            self is Present,
        ensures
            self == TryResult::Present(r),
    {
        match self {
            TryResult::Present(r) => r,
            _ => unreached(),
        }
    }
}

} // verus!
