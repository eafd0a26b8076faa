//! Iteration over a table: shard by shard, in index order.
//!
//! The borrowing iterator visits shards in index order and yields one
//! [`RefMulti`] per entry; the shared borrow it holds on the table plays the
//! role of the rolling shard read-locks, and cloning the iterator clones its
//! position exactly. The owning iterator consumes the table, so no lock can
//! be contended; it drains the shards and yields every entry exactly once.

use vstd::prelude::*;

use vstd::multiset::Multiset;

use crate::table::ClashTable;
use crate::tableref::multiple::RefMulti;

verus! {

/// Iterator over a table yielding shared element handles.
#[derive(Clone, Copy)]
pub struct Iter<'a, T> {
    /// The table being walked.
    pub table: &'a ClashTable<T>,
    /// The shard the iterator stands in.
    pub shard: usize,
    /// The next entry of that shard to yield.
    pub pos: usize,
}

impl<'a, T> Iter<'a, T> {
    /// The iterator's position within the table's flattened entries: how
    /// many entries it has already yielded.
    pub open spec fn flat_pos(&self) -> int {
        self.table.flat_up_to(self.shard as int).len() + self.pos
    }

    /// The iterator points into its table: at an entry, at the end of a
    /// shard, or past the last shard.
    pub open spec fn wf(&self) -> bool {
        &&& self.table.wf()
        &&& self.shard <= self.table.spec_shard_count()
        &&& (self.shard < self.table.spec_shard_count() ==> self.pos
            <= self.table.shard_entries(self.shard as int).len())
        &&& (self.shard == self.table.spec_shard_count() ==> self.pos == 0)
    }

    /// Start iterating `table` from its first entry.
    pub fn new(table: &'a ClashTable<T>) -> (r: Self)
        requires
            table.wf(),
        ensures
            r.wf(),
            r.table == table,
            r.flat_pos() == 0,
    {
        Iter { table, shard: 0, pos: 0 }
    }

    /// The next entry in shard-then-slot order, or `None` when every entry
    /// has been yielded. Each call advances the flattened position by one.
    pub fn next(&mut self) -> (r: Option<RefMulti<'a, T>>)
        requires
            old(self).wf(),
        ensures
            final(self).wf(),
            final(self).table == old(self).table,
            ({
                let entries = old(self).table.spec_entries();
                if old(self).flat_pos() < entries.len() {
                    &&& r matches Some(h) && *h.t == entries[old(self).flat_pos()].1
                    &&& final(self).flat_pos() == old(self).flat_pos() + 1
                } else {
                    &&& r is None
                    &&& final(self).flat_pos() == old(self).flat_pos()
                }
            }),
    {
        let n = self.table.tables.shards.len();
        loop
            invariant
                self.wf(),
                n == self.table.spec_shard_count(),
                self.table == old(self).table,
                self.flat_pos() == old(self).flat_pos(),
            decreases n - self.shard,
        {
            if self.shard >= n {
                proof {
                    lemma_flat_pos_at_end(self.table, self.shard as int, self.pos as int);
                }
                return None;
            }
            let sub = self.table.tables.shards[self.shard].read();
            if self.pos < sub.entries.len() {
                let h = RefMulti::new(&sub.entries[self.pos].1);
                proof {
                    lemma_flat_index(
                        self.table,
                        self.table.spec_shard_count(),
                        self.shard as int,
                        self.pos as int,
                    );
                }
                self.pos = self.pos + 1;
                return Some(h);
            }
            proof {
                assert(self.table.flat_up_to(self.shard + 1 as int).len() == self.flat_pos());
            }
            self.shard = self.shard + 1;
            self.pos = 0;
        }
    }
}

/// Owning iterator over a table: the shards have been drained into one
/// vector, which is handed out entry by entry.
pub struct OwningIter<T> {
    /// The entries not yet yielded, with their hashes.
    pub entries: Vec<(u64, T)>,
}

impl<T> OwningIter<T> {
    /// Consume a table into an owning iterator. The iterator holds exactly
    /// the table's entries (as a multiset; draining does not keep order).
    pub fn new(table: ClashTable<T>) -> (r: Self)
        ensures
            r.entries@.to_multiset() == table.spec_entries().to_multiset(),
    {
        broadcast use vstd::seq_lib::group_seq_properties;
        broadcast use vstd::seq_lib::group_to_multiset_ensures;
        broadcast use vstd::multiset::group_multiset_axioms;
        broadcast use vstd::multiset::lemma_multiset_empty_len;

        let ghost whole = table.spec_entries();
        let mut shards = table.tables.into_shards();
        let mut entries: Vec<(u64, T)> = Vec::new();
        proof {
            lemma_flat_decompose(&table, shards@.len() as int);
            assert(whole.to_multiset() =~= entries@.to_multiset().add(
                table.flat_up_to(shards@.len() as int).to_multiset(),
            ));
        }
        while shards.len() > 0
            invariant
                whole.to_multiset() == entries@.to_multiset().add(
                    table.flat_up_to(shards@.len() as int).to_multiset(),
                ),
                forall|k: int|
                    0 <= k < shards@.len() ==> (#[trigger] shards@[k]) == table.tables.shards@[k],
                shards@.len() <= table.tables.shards@.len(),
            decreases shards.len(),
        {
            let ghost k = shards@.len() - 1;
            let cell = shards.pop().unwrap();
            let mut sub = cell.into_inner();
            let ghost shard_seq = sub.entries@;
            proof {
                assert(shard_seq == table.shard_entries(k));
                assert(table.flat_up_to(k + 1) == table.flat_up_to(k) + shard_seq);
                vstd::seq_lib::lemma_multiset_commutative(table.flat_up_to(k), shard_seq);
            }
            while sub.entries.len() > 0
                invariant
                    whole.to_multiset() == entries@.to_multiset().add(
                        table.flat_up_to(k).to_multiset().add(sub.entries@.to_multiset()),
                    ),
                decreases sub.entries.len(),
            {
                let ghost pre = sub.entries@;
                let ghost epre = entries@;
                let e = sub.entries.pop().unwrap();
                entries.push(e);
            proof {
                    vstd::seq_lib::to_multiset_build(sub.entries@, e);
                    vstd::seq_lib::to_multiset_build(epre, e);
                    assert(pre =~= sub.entries@.push(e));
                    assert(pre.to_multiset() == sub.entries@.to_multiset().insert(e));
                    assert(entries@ == epre.push(e));
                    assert(entries@.to_multiset() == epre.to_multiset().insert(e));
                    assert(whole.to_multiset() =~= entries@.to_multiset().add(
                        table.flat_up_to(k).to_multiset().add(sub.entries@.to_multiset()),
                    )) by {
                        broadcast use vstd::multiset::group_multiset_axioms;

                        let lhs = whole.to_multiset();
                        let ems = epre.to_multiset();
                        let fms = table.flat_up_to(k).to_multiset();
                        let sms = sub.entries@.to_multiset();
                        assert(lhs =~= ems.add(fms.add(sms.insert(e))));
                        assert forall|x: (u64, T)|
                            lhs.count(x) == ems.insert(e).add(fms.add(sms)).count(x) by {
                            assert(lhs.count(x) == ems.count(x) + fms.count(x) + sms.insert(
                                e,
                            ).count(x));
                        }
                    }
                }
            }
            proof {
                vstd::seq_lib::to_multiset_len(sub.entries@);
                assert(sub.entries@ =~= Seq::<(u64, T)>::empty());
                assert(sub.entries@.to_multiset().len() == 0);
                assert(sub.entries@.to_multiset() =~= Multiset::<(u64, T)>::empty());
                assert(table.flat_up_to(k).to_multiset().add(sub.entries@.to_multiset())
                    =~= table.flat_up_to(k).to_multiset());
                assert(whole.to_multiset() =~= entries@.to_multiset().add(
                    table.flat_up_to(shards@.len() as int).to_multiset(),
                ));
            }
        }
        proof {
            vstd::seq_lib::to_multiset_len(table.flat_up_to(0));
            assert(table.flat_up_to(0) =~= Seq::<(u64, T)>::empty());
            assert(table.flat_up_to(0).to_multiset().len() == 0);
            assert(table.flat_up_to(0).to_multiset() =~= Multiset::<(u64, T)>::empty());
            assert(entries@.to_multiset().add(table.flat_up_to(0).to_multiset())
                =~= entries@.to_multiset());
        }
        OwningIter { entries }
    }

    /// The next entry's value, or `None` when the iterator is exhausted.
    pub fn next(&mut self) -> (r: Option<T>)
        ensures
            old(self).entries@.len() > 0 ==> r == Some(old(self).entries@.last().1) && final(
                self).entries@ == old(self).entries@.drop_last(),
            old(self).entries@.len() == 0 ==> r is None && final(self).entries@ == old(
                self).entries@,
    {
        match self.entries.pop() {
            Some(e) => Some(e.1),
            None => None,
        }
    }

    /// How many entries are left to yield.
    pub fn remaining(&self) -> (r: usize)
        ensures
            r == self.entries@.len(),
    {
        self.entries.len()
    }
}

/// Standing past the last shard means standing past every entry.
proof fn lemma_flat_pos_at_end<T>(t: &ClashTable<T>, shard: int, pos: int)
    requires
        shard == t.spec_shard_count(),
        pos == 0,
    ensures
        t.flat_up_to(shard).len() + pos == t.spec_entries().len(),
{
}

/// The flattened entry at a shard-and-slot position is that shard's entry.
proof fn lemma_flat_index<T>(t: &ClashTable<T>, m: int, shard: int, pos: int)
    requires
        0 <= shard < m <= t.spec_shard_count(),
        0 <= pos < t.shard_entries(shard).len(),
    ensures
        t.flat_up_to(m).len() > t.flat_up_to(shard).len() + pos,
        t.flat_up_to(m)[t.flat_up_to(shard).len() + pos] == t.shard_entries(shard)[pos],
    decreases m,
{
    if m == shard + 1 {
    } else {
        lemma_flat_index(t, m - 1, shard, pos);
    }
}

/// Flattening all shards decomposes as the whole flattening.
proof fn lemma_flat_decompose<T>(t: &ClashTable<T>, n: int)
    requires
        n == t.spec_shard_count(),
    ensures
        t.spec_entries() == t.flat_up_to(n),
{
}

} // verus!
