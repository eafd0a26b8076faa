//! Iteration over a map: shard by shard, in index order, yielding
//! key-value element handles.

use vstd::prelude::*;

use crate::map::{stored_pairs, ClashMap};
use crate::mapref::multiple::RefMulti;
use crate::tableref;

verus! {

/// Iterator over a map yielding shared element handles.
#[derive(Clone, Copy)]
pub struct Iter<'a, K, V> {
    /// The underlying table iterator.
    pub inner: tableref::iter::Iter<'a, (K, V)>,
}

impl<'a, K, V> Iter<'a, K, V> {
    /// How many elements the iterator has already yielded.
    pub open spec fn flat_pos(&self) -> int {
        self.inner.flat_pos()
    }

    /// The entries the iterator walks, in shard-then-slot order.
    pub open spec fn spec_entries(&self) -> Seq<(u64, (K, V))> {
        self.inner.table.spec_entries()
    }

    /// The iterator points into its table.
    pub open spec fn wf(&self) -> bool {
        self.inner.wf()
    }

    /// Start iterating `map` from its first element.
    pub fn new(map: &'a ClashMap<K, V>) -> (r: Self)
        requires
            map.table.wf(),
        ensures
            r.wf(),
            r.inner.table == &map.table,
            r.flat_pos() == 0,
    {
        Iter { inner: tableref::iter::Iter::new(&map.table) }
    }

    /// The next element in shard-then-slot order, or `None` when every
    /// element has been yielded.
    pub fn next(&mut self) -> (r: Option<RefMulti<'a, K, V>>)
        requires
            old(self).wf(),
        ensures
            final(self).wf(),
            final(self).inner.table == old(self).inner.table,
            ({
                let entries = old(self).spec_entries();
                if old(self).flat_pos() < entries.len() {
                    &&& r matches Some(h) && *h.k == entries[old(self).flat_pos()].1.0 && *h.v
                        == entries[old(self).flat_pos()].1.1
                    &&& final(self).flat_pos() == old(self).flat_pos() + 1
                } else {
                    &&& r is None
                    &&& final(self).flat_pos() == old(self).flat_pos()
                }
            }),
    {
        match self.inner.next() {
            Some(h) => {
                let t = h.t;
                Some(RefMulti { k: &t.0, v: &t.1 })
            },
            None => None,
        }
    }
}

/// Owning iterator over a map: the shards have been drained, and the pairs
/// are handed out one by one.
pub struct OwningIter<K, V> {
    /// The underlying owning table iterator.
    pub inner: tableref::iter::OwningIter<(K, V)>,
}

impl<K, V> OwningIter<K, V> {
    /// Consume a map into an owning iterator holding exactly the map's
    /// pairs (as a multiset; draining does not keep order).
    pub fn new(map: ClashMap<K, V>) -> (r: Self)
        ensures
            r.inner.entries@.to_multiset() == map.table.spec_entries().to_multiset(),
            stored_pairs(r.inner.entries@).to_multiset() == stored_pairs(
                map.table.spec_entries(),
            ).to_multiset(),
    {
        let ghost table_entries = map.table.spec_entries();
        let r = OwningIter { inner: tableref::iter::OwningIter::new(map.table) };
        proof {
            crate::map::lemma_map_values_multiset(
                r.inner.entries@,
                table_entries,
                |e: (u64, (K, V))| e.1,
            );
        }
        r
    }

    /// The next pair, or `None` when the iterator is exhausted.
    pub fn next(&mut self) -> (r: Option<(K, V)>)
        ensures
            old(self).inner.entries@.len() > 0 ==> r == Some(old(self).inner.entries@.last().1)
                && final(self).inner.entries@ == old(self).inner.entries@.drop_last(),
            old(self).inner.entries@.len() == 0 ==> r is None && final(self).inner.entries@
                == old(self).inner.entries@,
    {
        self.inner.next()
    }

    /// How many pairs are left to yield.
    pub fn remaining(&self) -> (r: usize)
        ensures
            r == self.inner.entries@.len(),
    {
        self.inner.remaining()
    }
}

} // verus!
