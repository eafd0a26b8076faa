//! The entry API of the table: a write-guarded handle that is either
//! occupied or vacant, consumed by exactly one terminal operation.
//!
//! A handle borrows its whole sub-table mutably: the borrow is the write
//! guard on the shard, acquired by
//! [`entry`](crate::table::ClashTable::entry) and released when the value a
//! terminal operation returns goes out of scope.

use vstd::prelude::*;

use crate::table::SubTable;

verus! {

/// A write-guarded view of the slot for one hash: occupied or vacant.
pub enum EntryMut<'a, T> {
    /// The slot holds an entry.
    Occupied(OccupiedEntryMut<'a, T>),
    /// The slot is free; the handle remembers the hash an insertion will be
    /// stored under.
    Vacant(VacantEntryMut<'a, T>),
}

/// The vacant half: the borrowed sub-table and the prepared hash.
pub struct VacantEntryMut<'a, T> {
    /// The hash an inserted entry will be stored under.
    pub hash: u64,
    /// The write-guarded sub-table of that hash's shard.
    pub sub: &'a mut SubTable<T>,
}

/// The occupied half: the borrowed sub-table and the index of the entry.
pub struct OccupiedEntryMut<'a, T> {
    /// Where the entry sits in the sub-table.
    pub idx: usize,
    /// The write-guarded sub-table of the entry's shard.
    pub sub: &'a mut SubTable<T>,
}

impl<'a, T> VacantEntryMut<'a, T> {
    /// Insert a value under the prepared hash and return a mutable
    /// reference to it; the rest of the sub-table is untouched.
    pub fn insert(self, value: T) -> (r: &'a mut T)
        ensures
            *r == value,
            final(self.sub).cap == old(self.sub).cap,
            final(self.sub).entries@ == old(self.sub).entries@.push((self.hash, *final(r))),
    {
        let hash = self.hash;
        let sub = self.sub;
        sub.entries.push((hash, value));
        let n = sub.entries.len();
        let e = &mut sub.entries[n - 1];
        &mut e.1
    }

    /// Insert a value under the prepared hash and keep an occupied handle
    /// on it.
    pub fn insert_entry(self, value: T) -> (r: OccupiedEntryMut<'a, T>)
        ensures
            r.idx == old(self.sub).entries@.len(),
            r.sub.cap == old(self.sub).cap,
            r.sub.entries@ == old(self.sub).entries@.push((self.hash, value)),
            *final(self.sub) == *final(r.sub),
    {
        let hash = self.hash;
        let sub = self.sub;
        let ghost pre = sub.entries@;
        sub.entries.push((hash, value));
        let idx = sub.entries.len() - 1;
        OccupiedEntryMut { idx, sub }
    }
}

impl<'a, T> OccupiedEntryMut<'a, T> {
    /// The entry the handle sits on.
    pub fn get(&self) -> (r: &T)
        requires
            self.idx < old(self.sub).entries@.len(),
        ensures
            *r == old(self.sub).entries@[self.idx as int].1,
    {
        &self.sub.entries[self.idx].1
    }

    /// Write access to the entry the handle sits on. Writes through the
    /// result land in the slot; the hash, the key side of the slot's pair
    /// where there is one, and everything else in the sub-table stay.
    pub fn get_mut(&mut self) -> (r: &mut T)
        requires
            old(self).idx < mut_ref_current(old(self).sub).entries@.len(),
        ensures
            *r == mut_ref_current(old(self).sub).entries@[old(self).idx as int].1,
            final(self).idx == old(self).idx,
            mut_ref_current(final(self).sub).cap == mut_ref_current(old(self).sub).cap,
            mut_ref_current(final(self).sub).entries@ == mut_ref_current(
                old(self).sub,
            ).entries@.update(
                old(self).idx as int,
                (
                    mut_ref_current(old(self).sub).entries@[old(self).idx as int].0,
                    *final(r),
                ),
            ),
            mut_ref_future(final(self).sub) == mut_ref_future(old(self).sub),
    {
        let idx = self.idx;
        let e = &mut self.sub.entries[idx];
        &mut e.1
    }

    /// Replace the entry's value, handing the old one back. The hash and
    /// everything else in the sub-table stay.
    pub fn insert(self, value: T) -> (res: (T, OccupiedEntryMut<'a, T>))
        requires
            self.idx < old(self.sub).entries@.len(),
        ensures
            res.0 == old(self.sub).entries@[self.idx as int].1,
            res.1.idx == self.idx,
            res.1.sub.cap == old(self.sub).cap,
            res.1.sub.entries@ == old(self.sub).entries@.update(
                self.idx as int,
                (old(self.sub).entries@[self.idx as int].0, value),
            ),
            *final(self.sub) == *final(res.1.sub),
    {
        let idx = self.idx;
        let sub = self.sub;
        let mut value = value;
        let e = &mut sub.entries[idx];
        core::mem::swap(&mut e.1, &mut value);
        (value, OccupiedEntryMut { idx, sub })
    }

    /// Turn the handle into a mutable reference on the entry's value, still
    /// guarded by the same borrow.
    pub fn into_mut(self) -> (r: &'a mut T)
        requires
            self.idx < old(self.sub).entries@.len(),
        ensures
            *r == old(self.sub).entries@[self.idx as int].1,
            final(self.sub).cap == old(self.sub).cap,
            final(self.sub).entries@ == old(self.sub).entries@.update(
                self.idx as int,
                (old(self.sub).entries@[self.idx as int].0, *final(r)),
            ),
    {
        let idx = self.idx;
        let sub = self.sub;
        let e = &mut sub.entries[idx];
        &mut e.1
    }

    /// Remove the entry and hand its value back. The last entry of the
    /// sub-table moves into the freed slot (removal does not keep order).
    pub fn remove(self) -> (r: T)
        requires
            self.idx < old(self.sub).entries@.len(),
        ensures
            r == old(self.sub).entries@[self.idx as int].1,
            final(self.sub).cap == old(self.sub).cap,
            final(self.sub).entries@ == old(self.sub).entries@.update(
                self.idx as int,
                old(self.sub).entries@.last(),
            ).drop_last(),
    {
        let idx = self.idx;
        let sub = self.sub;
        let (_h, value) = sub.entries.swap_remove(idx);
        value
    }

    /// Remove the entry, handing back its value and a vacant handle on the
    /// same slot, prepared with the removed entry's hash.
    pub fn remove_entry(self) -> (res: (T, VacantEntryMut<'a, T>))
        requires
            self.idx < old(self.sub).entries@.len(),
        ensures
            res.0 == old(self.sub).entries@[self.idx as int].1,
            res.1.hash == old(self.sub).entries@[self.idx as int].0,
            res.1.sub.cap == old(self.sub).cap,
            res.1.sub.entries@ == old(self.sub).entries@.update(
                self.idx as int,
                old(self.sub).entries@.last(),
            ).drop_last(),
            *final(self.sub) == *final(res.1.sub),
    {
        let idx = self.idx;
        let sub = self.sub;
        let (hash, value) = sub.entries.swap_remove(idx);
        (value, VacantEntryMut { hash, sub })
    }
}

impl<'a, T> EntryMut<'a, T> {
    /// Apply a function to the stored entry if there is one: on an occupied
    /// slot `f` runs once on the stored value, which is replaced in place
    /// with the key's hash and everything else in the sub-table kept; a
    /// vacant slot is handed back untouched. The write guard stays held for
    /// chaining.
    pub fn and_modify<F: FnOnce(&mut T)>(self, f: F) -> (r: Self)
        requires
            self matches EntryMut::Occupied(o) ==> o.idx < mut_ref_current(o.sub).entries@.len(),
            forall|x: &mut T| #[trigger] call_requires(f, (x,)),
        ensures
            match self {
                EntryMut::Occupied(o) => r matches EntryMut::Occupied(o2) && exists|x: &mut T|
                    {
                        &&& #[trigger] call_ensures(f, (x,), ())
                        &&& mut_ref_current(x) == mut_ref_current(o.sub).entries@[o.idx as int].1
                        &&& o2.idx == o.idx
                        &&& mut_ref_current(o2.sub).cap == mut_ref_current(o.sub).cap
                        &&& mut_ref_current(o2.sub).entries@ == mut_ref_current(
                            o.sub,
                        ).entries@.update(
                            o.idx as int,
                            (
                                mut_ref_current(o.sub).entries@[o.idx as int].0,
                                mut_ref_future(x),
                            ),
                        )
                        &&& mut_ref_future(o2.sub) == mut_ref_future(o.sub)
                    },
                EntryMut::Vacant(v) => r matches EntryMut::Vacant(v2) && v2.hash == v.hash
                    && mut_ref_current(v2.sub) == mut_ref_current(v.sub) && mut_ref_future(
                    v2.sub,
                ) == mut_ref_future(v.sub),
            },
    {
        match self {
            EntryMut::Occupied(o) => {
                let OccupiedEntryMut { idx, sub } = o;
                let e = &mut sub.entries[idx];
                f(&mut e.1);
                EntryMut::Occupied(OccupiedEntryMut { idx, sub })
            },
            EntryMut::Vacant(v) => EntryMut::Vacant(v),
        }
    }

    /// Return a mutable reference to the entry if it exists, otherwise
    /// insert the provided value and return a mutable reference to that.
    pub fn or_insert(self, value: T) -> (r: &'a mut T)
        requires
            self matches EntryMut::Occupied(o) ==> o.idx < mut_ref_current(o.sub).entries@.len(),
        ensures
            match self {
                EntryMut::Occupied(o) => {
                    &&& *r == mut_ref_current(o.sub).entries@[o.idx as int].1
                    &&& mut_ref_future(o.sub).cap == mut_ref_current(o.sub).cap
                    &&& mut_ref_future(o.sub).entries@ == mut_ref_current(o.sub).entries@.update(
                        o.idx as int,
                        (mut_ref_current(o.sub).entries@[o.idx as int].0, *final(r)),
                    )
                },
                EntryMut::Vacant(v) => {
                    &&& *r == value
                    &&& mut_ref_future(v.sub).cap == mut_ref_current(v.sub).cap
                    &&& mut_ref_future(v.sub).entries@ == mut_ref_current(v.sub).entries@.push((v.hash, *final(r)))
                },
            },
    {
        match self {
            EntryMut::Occupied(o) => o.into_mut(),
            EntryMut::Vacant(v) => v.insert(value),
        }
    }

    /// Return a mutable reference to the entry if it exists, otherwise
    /// insert what one call of `value` produces and return a mutable
    /// reference to that.
    pub fn or_insert_with<F: FnOnce() -> T>(self, value: F) -> (r: &'a mut T)
        requires
            self matches EntryMut::Occupied(o) ==> o.idx < mut_ref_current(o.sub).entries@.len(),
            call_requires(value, ()),
        ensures
            match self {
                EntryMut::Occupied(o) => {
                    &&& *r == mut_ref_current(o.sub).entries@[o.idx as int].1
                    &&& mut_ref_future(o.sub).cap == mut_ref_current(o.sub).cap
                    &&& mut_ref_future(o.sub).entries@ == mut_ref_current(o.sub).entries@.update(
                        o.idx as int,
                        (mut_ref_current(o.sub).entries@[o.idx as int].0, *final(r)),
                    )
                },
                EntryMut::Vacant(v) => {
                    &&& call_ensures(value, (), *r)
                    &&& mut_ref_future(v.sub).cap == mut_ref_current(v.sub).cap
                    &&& mut_ref_future(v.sub).entries@ == mut_ref_current(v.sub).entries@.push(
                        (v.hash, *final(r)),
                    )
                },
            },
    {
        match self {
            EntryMut::Occupied(o) => o.into_mut(),
            EntryMut::Vacant(v) => v.insert(value()),
        }
    }

    /// Return a mutable reference to the entry if it exists, otherwise
    /// insert the default value and return a mutable reference to that.
    pub fn or_default(self) -> (r: &'a mut T)
        where T: Default
        requires
            self matches EntryMut::Occupied(o) ==> o.idx < mut_ref_current(o.sub).entries@.len(),
        ensures
            match self {
                EntryMut::Occupied(o) => {
                    &&& *r == mut_ref_current(o.sub).entries@[o.idx as int].1
                    &&& mut_ref_future(o.sub).cap == mut_ref_current(o.sub).cap
                    &&& mut_ref_future(o.sub).entries@ == mut_ref_current(o.sub).entries@.update(
                        o.idx as int,
                        (mut_ref_current(o.sub).entries@[o.idx as int].0, *final(r)),
                    )
                },
                EntryMut::Vacant(v) => {
                    &&& mut_ref_future(v.sub).cap == mut_ref_current(v.sub).cap
                    &&& mut_ref_future(v.sub).entries@ == mut_ref_current(v.sub).entries@.push(
                        (v.hash, *final(r)),
                    )
                },
            },
    {
        match self {
            EntryMut::Occupied(o) => o.into_mut(),
            EntryMut::Vacant(v) => v.insert(T::default()),
        }
    }

    /// Return a mutable reference to the entry if it exists, otherwise
    /// insert what one call of `value` produces, or pass its error through
    /// with the sub-table untouched.
    pub fn or_try_insert_with<E, F: FnOnce() -> Result<T, E>>(self, value: F) -> (r: Result<
        &'a mut T,
        E,
    >)
        requires
            self matches EntryMut::Occupied(o) ==> o.idx < mut_ref_current(o.sub).entries@.len(),
            call_requires(value, ()),
        ensures
            match self {
                EntryMut::Occupied(o) => r matches Ok(m) && {
                    &&& *m == mut_ref_current(o.sub).entries@[o.idx as int].1
                    &&& mut_ref_future(o.sub).cap == mut_ref_current(o.sub).cap
                    &&& mut_ref_future(o.sub).entries@ == mut_ref_current(o.sub).entries@.update(
                        o.idx as int,
                        (mut_ref_current(o.sub).entries@[o.idx as int].0, *final(m)),
                    )
                },
                EntryMut::Vacant(v) => match r {
                    Ok(m) => {
                        &&& call_ensures(value, (), Ok(*m))
                        &&& mut_ref_future(v.sub).cap == mut_ref_current(v.sub).cap
                        &&& mut_ref_future(v.sub).entries@ == mut_ref_current(
                            v.sub,
                        ).entries@.push((v.hash, *final(m)))
                    },
                    Err(e) => {
                        &&& call_ensures(value, (), Err::<T, E>(e))
                        &&& mut_ref_future(v.sub) == mut_ref_current(v.sub)
                    },
                },
            },
    {
        match self {
            EntryMut::Occupied(o) => Ok(o.into_mut()),
            EntryMut::Vacant(v) => {
                match value() {
                    Ok(t) => Ok(v.insert(t)),
                    Err(e) => Err(e),
                }
            },
        }
    }

    /// Set the entry to `value` whether or not it exists, and return a
    /// mutable reference to it. An existing entry keeps its hash and its
    /// slot; a vacant slot gets the entry appended.
    pub fn insert(self, value: T) -> (r: &'a mut T)
        requires
            self matches EntryMut::Occupied(o) ==> o.idx < mut_ref_current(o.sub).entries@.len(),
        ensures
            *r == value,
            match self {
                EntryMut::Occupied(o) => {
                    &&& mut_ref_future(o.sub).cap == mut_ref_current(o.sub).cap
                    &&& mut_ref_future(o.sub).entries@ == mut_ref_current(o.sub).entries@.update(
                        o.idx as int,
                        (mut_ref_current(o.sub).entries@[o.idx as int].0, *final(r)),
                    )
                },
                EntryMut::Vacant(v) => {
                    &&& mut_ref_future(v.sub).cap == mut_ref_current(v.sub).cap
                    &&& mut_ref_future(v.sub).entries@ == mut_ref_current(v.sub).entries@.push((v.hash, *final(r)))
                },
            },
    {
        match self {
            EntryMut::Occupied(o) => {
                let (_prev, o) = o.insert(value);
                o.into_mut()
            },
            EntryMut::Vacant(v) => v.insert(value),
        }
    }

    /// Set the entry to `value` whether or not it exists, and keep an
    /// occupied handle on it.
    pub fn insert_entry(self, value: T) -> (r: OccupiedEntryMut<'a, T>)
        requires
            self matches EntryMut::Occupied(o) ==> o.idx < mut_ref_current(o.sub).entries@.len(),
        ensures
            match self {
                EntryMut::Occupied(o) => {
                    &&& r.idx == o.idx
                    &&& mut_ref_current(r.sub).cap == mut_ref_current(o.sub).cap
                    &&& mut_ref_current(r.sub).entries@ == mut_ref_current(o.sub).entries@.update(
                        o.idx as int,
                        (mut_ref_current(o.sub).entries@[o.idx as int].0, value),
                    )
                    &&& mut_ref_future(o.sub) == mut_ref_future(r.sub)
                },
                EntryMut::Vacant(v) => {
                    &&& r.idx == mut_ref_current(v.sub).entries@.len()
                    &&& mut_ref_current(r.sub).cap == mut_ref_current(v.sub).cap
                    &&& mut_ref_current(r.sub).entries@ == mut_ref_current(v.sub).entries@.push((v.hash, value))
                    &&& mut_ref_future(v.sub) == mut_ref_future(r.sub)
                },
            },
    {
        match self {
            EntryMut::Occupied(o) => {
                let (_prev, o) = o.insert(value);
                o
            },
            EntryMut::Vacant(v) => v.insert_entry(value),
        }
    }
}

} // verus!
