//! The entry API of the map: a write-guarded view of one key's slot,
//! occupied or vacant, consumed by exactly one terminal operation.
//!
//! The handle wraps the table's entry handle and adds the key: a vacant
//! entry owns the key an insertion will store, an occupied one sits on the
//! stored pair.

use vstd::prelude::*;

use crate::mapref::one::RefMut;
use crate::tableref::entrymut::{OccupiedEntryMut, VacantEntryMut};

verus! {

/// A write-guarded view of one key's slot: occupied or vacant.
pub enum Entry<'a, K, V> {
    /// The slot holds an entry for the key.
    Occupied(OccupiedEntry<'a, K, V>),
    /// The slot is free; the handle owns the key an insertion will use.
    Vacant(VacantEntry<'a, K, V>),
}

/// The vacant half: the key and the table's vacant handle.
pub struct VacantEntry<'a, K, V> {
    /// The key an inserted entry will be stored under.
    pub key: K,
    /// The table's write-guarded vacant slot.
    pub inner: VacantEntryMut<'a, (K, V)>,
}

/// The occupied half: the table's occupied handle on the `(key, value)`
/// pair.
pub struct OccupiedEntry<'a, K, V> {
    /// The table's write-guarded handle on the entry.
    pub inner: OccupiedEntryMut<'a, (K, V)>,
}

impl<'a, K, V> OccupiedEntry<'a, K, V> {
    /// The handle points at an entry of its sub-table.
    pub open spec fn wf(&self) -> bool {
        self.inner.idx < mut_ref_current(self.inner.sub).entries@.len()
    }

    /// The entry the handle sits on.
    pub open spec fn spec_entry(&self) -> (u64, (K, V)) {
        mut_ref_current(self.inner.sub).entries@[self.inner.idx as int]
    }

    /// The stored value.
    pub fn get(&self) -> (r: &V)
        requires
            self.wf(),
        ensures
            *r == self.spec_entry().1.1,
    {
        &self.inner.sub.entries[self.inner.idx].1.1
    }

    /// The stored key.
    pub fn key(&self) -> (r: &K)
        requires
            self.wf(),
        ensures
            *r == self.spec_entry().1.0,
    {
        &self.inner.sub.entries[self.inner.idx].1.0
    }

    /// Write access to the stored value. Writes through the result land in
    /// the entry; the key, the hash and everything else in the shard stay.
    pub fn get_mut(&mut self) -> (r: &mut V)
        requires
            old(self).wf(),
        ensures
            *r == old(self).spec_entry().1.1,
            final(self).inner.idx == old(self).inner.idx,
            mut_ref_current(final(self).inner.sub).cap == mut_ref_current(
                old(self).inner.sub,
            ).cap,
            mut_ref_current(final(self).inner.sub).entries@ == mut_ref_current(
                old(self).inner.sub,
            ).entries@.update(
                old(self).inner.idx as int,
                (
                    old(self).spec_entry().0,
                    (old(self).spec_entry().1.0, *final(r)),
                ),
            ),
            mut_ref_future(final(self).inner.sub) == mut_ref_future(old(self).inner.sub),
    {
        let idx = self.inner.idx;
        let e = &mut self.inner.sub.entries[idx];
        &mut e.1.1
    }

    /// Replace the stored value, handing the old one back along with the
    /// handle. The key and everything else in the shard stay.
    pub fn insert(self, value: V) -> (res: (V, OccupiedEntry<'a, K, V>))
        requires
            self.wf(),
        ensures
            res.0 == self.spec_entry().1.1,
            res.1.wf(),
            res.1.spec_entry() == (self.spec_entry().0, (self.spec_entry().1.0, value)),
            mut_ref_current(res.1.inner.sub).entries@ == mut_ref_current(
                self.inner.sub,
            ).entries@.update(
                self.inner.idx as int,
                (self.spec_entry().0, (self.spec_entry().1.0, value)),
            ),
            mut_ref_current(res.1.inner.sub).cap == mut_ref_current(self.inner.sub).cap,
            res.1.inner.idx == self.inner.idx,
            mut_ref_future(res.1.inner.sub) == mut_ref_future(self.inner.sub),
    {
        let OccupiedEntry { inner } = self;
        let idx = inner.idx;
        let sub = inner.sub;
        let mut value = value;
        let e = &mut sub.entries[idx];
        core::mem::swap(&mut e.1.1, &mut value);
        (value, OccupiedEntry { inner: OccupiedEntryMut { idx, sub } })
    }

    /// Turn the handle into an exclusive value handle on the same entry,
    /// guarded by the same borrow.
    pub fn into_ref(self) -> (r: RefMut<'a, K, V>)
        requires
            self.wf(),
        ensures
            *r.k == self.spec_entry().1.0,
            *r.v == self.spec_entry().1.1,
            mut_ref_future(self.inner.sub).cap == mut_ref_current(self.inner.sub).cap,
            mut_ref_future(self.inner.sub).entries@ == mut_ref_current(
                self.inner.sub,
            ).entries@.update(
                self.inner.idx as int,
                (self.spec_entry().0, (self.spec_entry().1.0, *final(r.v))),
            ),
    {
        let OccupiedEntry { inner } = self;
        let idx = inner.idx;
        let sub = inner.sub;
        let e = &mut sub.entries[idx];
        let pair = &mut e.1;
        RefMut { k: &pair.0, v: &mut pair.1 }
    }

    /// Remove the entry and hand its value back. The last entry of the
    /// shard moves into the freed slot (removal does not keep order).
    pub fn remove(self) -> (r: V)
        requires
            self.wf(),
        ensures
            r == self.spec_entry().1.1,
            mut_ref_future(self.inner.sub).cap == mut_ref_current(self.inner.sub).cap,
            mut_ref_future(self.inner.sub).entries@ == mut_ref_current(
                self.inner.sub,
            ).entries@.update(
                self.inner.idx as int,
                mut_ref_current(self.inner.sub).entries@.last(),
            ).drop_last(),
    {
        let OccupiedEntry { inner } = self;
        let (_h, pair) = inner.sub.entries.swap_remove(inner.idx);
        pair.1
    }

    /// Remove the entry and hand the whole pair back.
    pub fn remove_entry(self) -> (r: (K, V))
        requires
            self.wf(),
        ensures
            r == self.spec_entry().1,
            mut_ref_future(self.inner.sub).cap == mut_ref_current(self.inner.sub).cap,
            mut_ref_future(self.inner.sub).entries@ == mut_ref_current(
                self.inner.sub,
            ).entries@.update(
                self.inner.idx as int,
                mut_ref_current(self.inner.sub).entries@.last(),
            ).drop_last(),
    {
        let OccupiedEntry { inner } = self;
        let (_h, pair) = inner.sub.entries.swap_remove(inner.idx);
        pair
    }

    /// Replace the stored value, handing the old one back and releasing the
    /// handle.
    pub fn replace_entry(self, value: V) -> (r: V)
        requires
            self.wf(),
        ensures
            r == self.spec_entry().1.1,
            mut_ref_future(self.inner.sub).cap == mut_ref_current(self.inner.sub).cap,
            mut_ref_future(self.inner.sub).entries@ == mut_ref_current(
                self.inner.sub,
            ).entries@.update(
                self.inner.idx as int,
                (self.spec_entry().0, (self.spec_entry().1.0, value)),
            ),
    {
        let (prev, _o) = self.insert(value);
        prev
    }
}

impl<'a, K, V> VacantEntry<'a, K, V> {
    /// Insert a value under the handle's key and keep an exclusive value
    /// handle on the new entry.
    pub fn insert(self, value: V) -> (r: RefMut<'a, K, V>)
        ensures
            *r.k == self.key,
            *r.v == value,
            mut_ref_future(self.inner.sub).cap == mut_ref_current(self.inner.sub).cap,
            mut_ref_future(self.inner.sub).entries@ == mut_ref_current(
                self.inner.sub,
            ).entries@.push((self.inner.hash, (self.key, *final(r.v)))),
    {
        let VacantEntry { key, inner } = self;
        let pair = inner.insert((key, value));
        RefMut { k: &pair.0, v: &mut pair.1 }
    }

    /// Insert a value under the handle's key and keep an occupied handle on
    /// the new entry.
    pub fn insert_entry(self, value: V) -> (r: OccupiedEntry<'a, K, V>)
        ensures
            r.wf(),
            r.spec_entry() == (self.inner.hash, (self.key, value)),
            mut_ref_current(r.inner.sub).entries@ == mut_ref_current(
                self.inner.sub,
            ).entries@.push((self.inner.hash, (self.key, value))),
            mut_ref_current(r.inner.sub).cap == mut_ref_current(self.inner.sub).cap,
            mut_ref_future(r.inner.sub) == mut_ref_future(self.inner.sub),
    {
        let VacantEntry { key, inner } = self;
        let o = inner.insert_entry((key, value));
        OccupiedEntry { inner: o }
    }

    /// Release the handle, keeping only the key.
    pub fn into_key(self) -> (r: K)
        ensures
            r == self.key,
            mut_ref_future(self.inner.sub) == mut_ref_current(self.inner.sub),
    {
        self.key
    }

    /// The key an insertion would use.
    pub fn key(&self) -> (r: &K)
        ensures
            r == &self.key,
    {
        &self.key
    }
}

impl<'a, K, V> Entry<'a, K, V> {
    /// The handle's occupied half is in range.
    pub open spec fn wf(&self) -> bool {
        self matches Entry::Occupied(o) ==> o.wf()
    }

    /// Get the key of the entry.
    pub fn key(&self) -> (r: &K)
        requires
            self.wf(),
        ensures
            match self {
                Entry::Occupied(o) => *r == o.spec_entry().1.0,
                Entry::Vacant(v) => r == &v.key,
            },
    {
        match self {
            Entry::Occupied(o) => o.key(),
            Entry::Vacant(v) => v.key(),
        }
    }

    /// Apply a function to the stored value if there is one. What the
    /// function does to the value is its own business; occupancy, the key
    /// and the rest of the shard are untouched.
    pub fn and_modify<F: FnOnce(&mut V)>(self, f: F) -> (r: Self)
        requires
            self.wf(),
            forall|x: &mut V| #[trigger] call_requires(f, (x,)),
        ensures
            r.wf(),
            match self {
                Entry::Occupied(o) => r matches Entry::Occupied(o2) && exists|x: &mut V|
                    {
                        &&& #[trigger] call_ensures(f, (x,), ())
                        &&& mut_ref_current(x) == o.spec_entry().1.1
                        &&& o2.inner.idx == o.inner.idx
                        &&& mut_ref_current(o2.inner.sub).cap == mut_ref_current(o.inner.sub).cap
                        &&& mut_ref_current(o2.inner.sub).entries@ == mut_ref_current(
                            o.inner.sub,
                        ).entries@.update(
                            o.inner.idx as int,
                            (o.spec_entry().0, (o.spec_entry().1.0, mut_ref_future(x))),
                        )
                        &&& mut_ref_future(o2.inner.sub) == mut_ref_future(o.inner.sub)
                    },
                Entry::Vacant(v) => r matches Entry::Vacant(v2) && v2.key == v.key
                    && v2.inner.hash == v.inner.hash && mut_ref_current(v2.inner.sub)
                    == mut_ref_current(v.inner.sub) && mut_ref_future(v2.inner.sub)
                    == mut_ref_future(v.inner.sub),
            },
    {
        match self {
            Entry::Occupied(o) => {
                let OccupiedEntry { inner } = o;
                let idx = inner.idx;
                let sub = inner.sub;
                let e = &mut sub.entries[idx];
                f(&mut e.1.1);
                Entry::Occupied(OccupiedEntry { inner: OccupiedEntryMut { idx, sub } })
            },
            Entry::Vacant(v) => Entry::Vacant(v),
        }
    }

    /// Return a value handle on the entry, inserting `value` first if the
    /// slot was vacant.
    pub fn or_insert(self, value: V) -> (r: RefMut<'a, K, V>)
        requires
            self.wf(),
        ensures
            match self {
                Entry::Occupied(o) => {
                    &&& *r.k == o.spec_entry().1.0
                    &&& *r.v == o.spec_entry().1.1
                    &&& mut_ref_future(o.inner.sub).entries@ == mut_ref_current(
                        o.inner.sub,
                    ).entries@.update(
                        o.inner.idx as int,
                        (o.spec_entry().0, (o.spec_entry().1.0, *final(r.v))),
                    )
                    &&& mut_ref_future(o.inner.sub).cap == mut_ref_current(o.inner.sub).cap
                },
                Entry::Vacant(v) => {
                    &&& *r.k == v.key
                    &&& *r.v == value
                    &&& mut_ref_future(v.inner.sub).entries@ == mut_ref_current(
                        v.inner.sub,
                    ).entries@.push((v.inner.hash, (v.key, *final(r.v))))
                    &&& mut_ref_future(v.inner.sub).cap == mut_ref_current(v.inner.sub).cap
                },
            },
    {
        match self {
            Entry::Occupied(o) => o.into_ref(),
            Entry::Vacant(v) => v.insert(value),
        }
    }

    /// Return a value handle on the entry, inserting what one call of
    /// `value` produces first if the slot was vacant.
    pub fn or_insert_with<F: FnOnce() -> V>(self, value: F) -> (r: RefMut<'a, K, V>)
        requires
            self.wf(),
            call_requires(value, ()),
        ensures
            match self {
                Entry::Occupied(o) => {
                    &&& *r.k == o.spec_entry().1.0
                    &&& *r.v == o.spec_entry().1.1
                    &&& mut_ref_future(o.inner.sub).entries@ == mut_ref_current(
                        o.inner.sub,
                    ).entries@.update(
                        o.inner.idx as int,
                        (o.spec_entry().0, (o.spec_entry().1.0, *final(r.v))),
                    )
                    &&& mut_ref_future(o.inner.sub).cap == mut_ref_current(o.inner.sub).cap
                },
                Entry::Vacant(v) => {
                    &&& *r.k == v.key
                    &&& call_ensures(value, (), *r.v)
                    &&& mut_ref_future(v.inner.sub).entries@ == mut_ref_current(
                        v.inner.sub,
                    ).entries@.push((v.inner.hash, (v.key, *final(r.v))))
                    &&& mut_ref_future(v.inner.sub).cap == mut_ref_current(v.inner.sub).cap
                },
            },
    {
        match self {
            Entry::Occupied(o) => o.into_ref(),
            Entry::Vacant(v) => v.insert(value()),
        }
    }

    /// Return a value handle on the entry, inserting the default value
    /// first if the slot was vacant.
    pub fn or_default(self) -> (r: RefMut<'a, K, V>)
        where V: Default
        requires
            self.wf(),
        ensures
            match self {
                Entry::Occupied(o) => {
                    &&& *r.k == o.spec_entry().1.0
                    &&& *r.v == o.spec_entry().1.1
                    &&& mut_ref_future(o.inner.sub).entries@ == mut_ref_current(
                        o.inner.sub,
                    ).entries@.update(
                        o.inner.idx as int,
                        (o.spec_entry().0, (o.spec_entry().1.0, *final(r.v))),
                    )
                    &&& mut_ref_future(o.inner.sub).cap == mut_ref_current(o.inner.sub).cap
                },
                Entry::Vacant(v) => {
                    &&& *r.k == v.key
                    &&& mut_ref_future(v.inner.sub).entries@ == mut_ref_current(
                        v.inner.sub,
                    ).entries@.push((v.inner.hash, (v.key, *final(r.v))))
                    &&& mut_ref_future(v.inner.sub).cap == mut_ref_current(v.inner.sub).cap
                },
            },
    {
        match self {
            Entry::Occupied(o) => o.into_ref(),
            Entry::Vacant(v) => v.insert(V::default()),
        }
    }

    /// Return a value handle on the entry, inserting what one call of
    /// `value` produces first if the slot was vacant, or passing its error
    /// through with the slot untouched.
    pub fn or_try_insert_with<E, F: FnOnce() -> Result<V, E>>(self, value: F) -> (r: Result<
        RefMut<'a, K, V>,
        E,
    >)
        requires
            self.wf(),
            call_requires(value, ()),
        ensures
            match self {
                Entry::Occupied(o) => r matches Ok(m) && {
                    &&& *m.k == o.spec_entry().1.0
                    &&& *m.v == o.spec_entry().1.1
                    &&& mut_ref_future(o.inner.sub).entries@ == mut_ref_current(
                        o.inner.sub,
                    ).entries@.update(
                        o.inner.idx as int,
                        (o.spec_entry().0, (o.spec_entry().1.0, *final(m.v))),
                    )
                    &&& mut_ref_future(o.inner.sub).cap == mut_ref_current(o.inner.sub).cap
                },
                Entry::Vacant(v) => match r {
                    Ok(m) => {
                        &&& *m.k == v.key
                        &&& call_ensures(value, (), Ok(*m.v))
                        &&& mut_ref_future(v.inner.sub).entries@ == mut_ref_current(
                            v.inner.sub,
                        ).entries@.push((v.inner.hash, (v.key, *final(m.v))))
                        &&& mut_ref_future(v.inner.sub).cap == mut_ref_current(v.inner.sub).cap
                    },
                    Err(e) => {
                        &&& call_ensures(value, (), Err::<V, E>(e))
                        &&& mut_ref_future(v.inner.sub) == mut_ref_current(v.inner.sub)
                    },
                },
            },
    {
        match self {
            Entry::Occupied(o) => Ok(o.into_ref()),
            Entry::Vacant(v) => {
                match value() {
                    Ok(t) => Ok(v.insert(t)),
                    Err(e) => Err(e),
                }
            },
        }
    }

    /// Set the entry to `value` whether or not the slot was occupied, and
    /// return a value handle on it.
    pub fn insert(self, value: V) -> (r: RefMut<'a, K, V>)
        requires
            self.wf(),
        ensures
            *r.v == value,
            match self {
                Entry::Occupied(o) => {
                    &&& *r.k == o.spec_entry().1.0
                    &&& mut_ref_future(o.inner.sub).entries@ == mut_ref_current(
                        o.inner.sub,
                    ).entries@.update(
                        o.inner.idx as int,
                        (o.spec_entry().0, (o.spec_entry().1.0, *final(r.v))),
                    )
                    &&& mut_ref_future(o.inner.sub).cap == mut_ref_current(o.inner.sub).cap
                },
                Entry::Vacant(v) => {
                    &&& *r.k == v.key
                    &&& mut_ref_future(v.inner.sub).entries@ == mut_ref_current(
                        v.inner.sub,
                    ).entries@.push((v.inner.hash, (v.key, *final(r.v))))
                    &&& mut_ref_future(v.inner.sub).cap == mut_ref_current(v.inner.sub).cap
                },
            },
    {
        match self {
            Entry::Occupied(o) => {
                let (_prev, o2) = o.insert(value);
                o2.into_ref()
            },
            Entry::Vacant(v) => v.insert(value),
        }
    }

    /// Set the entry to `value` whether or not the slot was occupied, and
    /// keep an occupied handle on it.
    pub fn insert_entry(self, value: V) -> (r: OccupiedEntry<'a, K, V>)
        requires
            self.wf(),
        ensures
            r.wf(),
            r.spec_entry().1.1 == value,
            match self {
                Entry::Occupied(o) => {
                    &&& r.spec_entry() == (o.spec_entry().0, (o.spec_entry().1.0, value))
                    &&& mut_ref_current(r.inner.sub).entries@ == mut_ref_current(
                        o.inner.sub,
                    ).entries@.update(
                        o.inner.idx as int,
                        (o.spec_entry().0, (o.spec_entry().1.0, value)),
                    )
                    &&& mut_ref_current(r.inner.sub).cap == mut_ref_current(o.inner.sub).cap
                    &&& mut_ref_future(r.inner.sub) == mut_ref_future(o.inner.sub)
                },
                Entry::Vacant(v) => {
                    &&& r.spec_entry() == (v.inner.hash, (v.key, value))
                    &&& mut_ref_current(r.inner.sub).entries@ == mut_ref_current(
                        v.inner.sub,
                    ).entries@.push((v.inner.hash, (v.key, value)))
                    &&& mut_ref_current(r.inner.sub).cap == mut_ref_current(v.inner.sub).cap
                    &&& mut_ref_future(r.inner.sub) == mut_ref_future(v.inner.sub)
                },
            },
    {
        match self {
            Entry::Occupied(o) => {
                let (_prev, o2) = o.insert(value);
                o2
            },
            Entry::Vacant(v) => v.insert_entry(value),
        }
    }
}

} // verus!
