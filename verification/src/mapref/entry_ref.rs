//! The by-reference entry API: a vacant handle that receives its key only
//! when the insertion happens, so that looking a key up does not require
//! owning it.

use vstd::prelude::*;

use crate::mapref::entry::OccupiedEntry;
use crate::mapref::one::RefMut;
use crate::tableref::entrymut::VacantEntryMut;

verus! {

/// A write-guarded view of a slot, occupied or vacant; the vacant half does
/// not yet own a key.
pub enum EntryRef<'a, K, V> {
    /// The slot holds an entry.
    Occupied(OccupiedEntry<'a, K, V>),
    /// The slot is free; an insertion supplies the key.
    Vacant(VacantEntryRef<'a, K, V>),
}

/// The vacant half: the table's vacant handle, waiting for a key.
pub struct VacantEntryRef<'a, K, V> {
    /// The table's write-guarded vacant slot.
    pub inner: VacantEntryMut<'a, (K, V)>,
}

impl<'a, K, V> VacantEntryRef<'a, K, V> {
    /// Wrap a table-level vacant handle.
    pub fn new(inner: VacantEntryMut<'a, (K, V)>) -> (r: Self)
        ensures
            r.inner.hash == inner.hash,
            mut_ref_current(r.inner.sub) == mut_ref_current(inner.sub),
            mut_ref_future(r.inner.sub) == mut_ref_future(inner.sub),
    {
        VacantEntryRef { inner }
    }

    /// Insert the pair under the prepared hash and keep an exclusive value
    /// handle on the new entry.
    pub fn insert(self, key: K, value: V) -> (r: RefMut<'a, K, V>)
        ensures
            *r.k == key,
            *r.v == value,
            mut_ref_future(self.inner.sub).cap == mut_ref_current(self.inner.sub).cap,
            mut_ref_future(self.inner.sub).entries@ == mut_ref_current(
                self.inner.sub,
            ).entries@.push((self.inner.hash, (key, *final(r.v)))),
    {
        let VacantEntryRef { inner } = self;
        let pair = inner.insert((key, value));
        RefMut { k: &pair.0, v: &mut pair.1 }
    }

    /// Insert the pair under the prepared hash and keep an occupied handle
    /// on the new entry.
    pub fn insert_entry(self, key: K, value: V) -> (r: OccupiedEntry<'a, K, V>)
        ensures
            r.wf(),
            r.spec_entry() == (self.inner.hash, (key, value)),
            mut_ref_current(r.inner.sub).entries@ == mut_ref_current(
                self.inner.sub,
            ).entries@.push((self.inner.hash, (key, value))),
            mut_ref_current(r.inner.sub).cap == mut_ref_current(self.inner.sub).cap,
            mut_ref_future(r.inner.sub) == mut_ref_future(self.inner.sub),
    {
        let VacantEntryRef { inner } = self;
        let o = inner.insert_entry((key, value));
        OccupiedEntry { inner: o }
    }
}

} // verus!
