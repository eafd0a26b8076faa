//! The concurrent table: the public surface over the shard collection.
//!
//! Entries are addressed by a caller-supplied 64-bit hash and an equality
//! predicate, so the table imposes no hashing policy of its own. Each entry
//! is stored next to its hash in the sub-table of the shard that
//! [`determine_shard`](crate::sharded::ClashCollection::determine_shard)
//! assigns to the hash; the well-formedness invariant says exactly that, so
//! no entry ever migrates between shards.

use vstd::prelude::*;

use crate::TryReserveError;
use crate::sharded::{ClashCollection, RwLock};
use crate::tableref::entrymut::{EntryMut, OccupiedEntryMut, VacantEntryMut};
use crate::tableref::one::{Ref, RefMut};
use crate::try_result::TryResult;

verus! {

/// The shard count [`ClashTable::new`] uses. A concurrent deployment wants
/// its default derived from the machine's parallelism; reading the
/// environment is outside verified code, so the shell that owns the threads
/// picks that number and calls [`ClashTable::with_shard_amount`].
pub const DEFAULT_SHARD_AMOUNT: usize = 16;

/// Log base two of [`DEFAULT_SHARD_AMOUNT`].
pub const DEFAULT_SHARD_AMOUNT_LOG2: u64 = 4;

/// One shard's table: the entries that live in this shard, each next to its
/// full hash, plus the capacity the shard has promised not to reallocate
/// under.
#[derive(Clone)]
pub struct SubTable<T> {
    /// Reserved capacity: how many entries this shard can be grown to
    /// without the table reallocating. Kept at or above `entries.len()`.
    pub cap: usize,
    /// The entries of this shard, each with the 64-bit hash it was stored
    /// under.
    pub entries: Vec<(u64, T)>,
}

impl<T> SubTable<T> {
    /// An empty sub-table with room promised for `cap` entries.
    pub fn with_capacity(cap: usize) -> (r: Self)
        ensures
            r.cap == cap,
            r.entries@.len() == 0,
    {
        SubTable { cap, entries: Vec::new() }
    }

    /// Find some entry stored under `hash` that the predicate accepts.
    pub fn find_index<F: Fn(&T) -> bool>(&self, hash: u64, eq: &F) -> (r: Option<usize>)
        requires
            forall|x: &T| #[trigger] call_requires(*eq, (x,)),
        ensures
            match r {
                Some(j) => j < self.entries@.len() && self.entries@[j as int].0 == hash
                    && call_ensures(*eq, (&self.entries@[j as int].1,), true),
                None => forall|j: int|
                    0 <= j < self.entries@.len() && self.entries@[j].0 == hash ==> call_ensures(
                        *eq,
                        (&self.entries@[j].1,),
                        false,
                    ),
            },
    {
        let n = self.entries.len();
        let mut j: usize = 0;
        while j < n
            invariant
                n == self.entries@.len(),
                j <= n,
                forall|x: &T| #[trigger] call_requires(*eq, (x,)),
                forall|k: int|
                    0 <= k < j && self.entries@[k].0 == hash ==> call_ensures(
                        *eq,
                        (&self.entries@[k].1,),
                        false,
                    ),
            decreases n - j,
        {
            if self.entries[j].0 == hash {
                if eq(&self.entries[j].1) {
                    return Some(j);
                }
            }
            j += 1;
        }
        None
    }
}

/// The sharded table, generic over its entry type `T`. All operations take
/// the entry's hash (and, where they must tell entries of one hash apart, an
/// equality predicate) from the caller.
#[derive(Clone)]
pub struct ClashTable<T> {
    /// The shard collection holding one [`SubTable`] per shard.
    pub tables: ClashCollection<SubTable<T>>,
}

/// `post` differs from `pre` in at most the entries of shard `i`: shape,
/// lock words, and every other shard are untouched, and shard `i` keeps its
/// capacity.
pub open spec fn same_outside_shard<T>(pre: &ClashTable<T>, post: &ClashTable<T>, i: int) -> bool {
    &&& post.tables.shift == pre.tables.shift
    &&& post.tables.shards@.len() == pre.tables.shards@.len()
    &&& forall|k: int|
        0 <= k < pre.tables.shards@.len() && k != i ==> post.tables.shards@[k]
            == pre.tables.shards@[k]
    &&& post.tables.shards@[i].raw == pre.tables.shards@[i].raw
    &&& post.tables.shards@[i].data.cap == pre.tables.shards@[i].data.cap
}

/// The capacity promise a shard ends with after reserving room for
/// `additional` more entries: raised to what the entries then need, or
/// kept where it already suffices.
pub open spec fn reserved_cap<T>(sub: SubTable<T>, additional: int) -> int {
    let need = sub.entries@.len() + additional;
    if sub.cap >= need {
        sub.cap as int
    } else {
        need
    }
}

/// `post` is `pre` with shard `i`'s sub-table replaced by `data`; the lock
/// word and every other shard are untouched.
pub open spec fn shard_replaced<T>(
    pre: &ClashTable<T>,
    post: &ClashTable<T>,
    i: int,
    data: SubTable<T>,
) -> bool {
    &&& post.tables.shift == pre.tables.shift
    &&& post.tables.shards@ == pre.tables.shards@.update(
        i,
        RwLock { raw: pre.tables.shards@[i].raw, data },
    )
}

/// The subsequence of `s` selected by the mask `keep`, in order.
pub open spec fn spec_mask<A>(s: Seq<A>, keep: Seq<bool>) -> Seq<A>
    decreases s.len(),
{
    if s.len() == 0 {
        Seq::empty()
    } else {
        spec_mask(s.drop_last(), keep.drop_last()) + if keep.len() >= 1 && keep.last() {
            seq![s.last()]
        } else {
            Seq::empty()
        }
    }
}

/// `out` is `s` narrowed by some mask that the predicate `f` justifies:
/// kept entries were accepted by a call of `f`, dropped ones rejected.
pub open spec fn retained_shard<T, F: Fn(&T) -> bool>(
    s: Seq<(u64, T)>,
    out: Seq<(u64, T)>,
    f: F,
) -> bool {
    exists|keep: Seq<bool>|
        {
            &&& #[trigger] keep.len() == s.len()
            &&& out == spec_mask(s, keep)
            &&& forall|k: int| 0 <= k < s.len() && keep[k] ==> call_ensures(f, (&s[k].1,), true)
            &&& forall|k: int|
                0 <= k < s.len() && !keep[k] ==> call_ensures(f, (&s[k].1,), false)
        }
}

/// Every element the mask keeps was an element of `s`.
pub proof fn lemma_mask_membership<A>(s: Seq<A>, keep: Seq<bool>)
    ensures
        forall|x: int|
            0 <= x < spec_mask(s, keep).len() ==> exists|k: int|
                0 <= k < s.len() && #[trigger] spec_mask(s, keep)[x] == s[k],
    decreases s.len(),
{
    if s.len() > 0 {
        lemma_mask_membership(s.drop_last(), keep.drop_last());
        assert forall|x: int| 0 <= x < spec_mask(s, keep).len() implies exists|k: int|
            0 <= k < s.len() && #[trigger] spec_mask(s, keep)[x] == s[k] by {
            let pre = spec_mask(s.drop_last(), keep.drop_last());
            if x < pre.len() {
                let k = choose|k: int| 0 <= k < s.drop_last().len() && pre[x] == s.drop_last()[k];
                assert(spec_mask(s, keep)[x] == s[k]);
            } else {
                assert(spec_mask(s, keep)[x] == s[s.len() - 1]);
            }
        }
    }
}

impl<T> ClashTable<T> {
    /// The entries of shard `i`.
    pub open spec fn shard_entries(&self, i: int) -> Seq<(u64, T)> {
        self.tables.shards@[i].data.entries@
    }

    /// The number of shards.
    pub open spec fn spec_shard_count(&self) -> int {
        self.tables.shards@.len() as int
    }

    /// The shard a hash routes to.
    pub open spec fn spec_shard_of(&self, hash: u64) -> int {
        self.tables.spec_shard_of(hash)
    }

    /// Well-formed: the collection has its power-of-two shape, and every
    /// entry lives in the shard its hash routes to.
    pub open spec fn wf(&self) -> bool {
        &&& self.tables.wf()
        &&& forall|i: int, j: int|
            0 <= i < self.spec_shard_count() && 0 <= j < self.shard_entries(i).len()
                ==> self.tables.spec_shard_of(#[trigger] self.shard_entries(i)[j].0) == i
    }

    /// The entries of the first `n` shards, in shard order.
    pub open spec fn flat_up_to(&self, n: int) -> Seq<(u64, T)>
        decreases n,
    {
        if n <= 0 {
            Seq::empty()
        } else {
            self.flat_up_to(n - 1) + self.shard_entries(n - 1)
        }
    }

    /// All entries of the table, in shard order.
    pub open spec fn spec_entries(&self) -> Seq<(u64, T)> {
        self.flat_up_to(self.spec_shard_count())
    }

    /// The number of entries in the table.
    pub open spec fn spec_len(&self) -> int {
        self.spec_entries().len() as int
    }

    /// Creates a new table with [`DEFAULT_SHARD_AMOUNT`] shards and no
    /// capacity.
    pub fn new() -> (r: Self)
        ensures
            r.wf(),
            r.spec_len() == 0,
            r.spec_shard_count() == DEFAULT_SHARD_AMOUNT,
            forall|i: int|
                0 <= i < r.spec_shard_count() ==> (#[trigger] r.shard_entries(i)).len() == 0,
    {
        ClashTable::with_capacity(0)
    }

    /// Creates a new table with [`DEFAULT_SHARD_AMOUNT`] shards and the
    /// given starting capacity.
    pub fn with_capacity(capacity: usize) -> (r: Self)
        requires
            capacity + DEFAULT_SHARD_AMOUNT - 1 <= usize::MAX,
        ensures
            r.wf(),
            r.spec_len() == 0,
            r.spec_shard_count() == DEFAULT_SHARD_AMOUNT,
            forall|i: int|
                0 <= i < r.spec_shard_count() ==> (#[trigger] r.shard_entries(i)).len() == 0,
    {
        proof {
            assert(16u64 == (1u64 << 4u64)) by (bit_vector);
            assert(DEFAULT_SHARD_AMOUNT as u64 == (1u64 << DEFAULT_SHARD_AMOUNT_LOG2));
        }
        ClashTable::with_capacity_and_shard_amount(capacity, DEFAULT_SHARD_AMOUNT)
    }

    /// Creates a new table with no capacity and the given shard amount,
    /// which must be a power of two of at least 2.
    pub fn with_shard_amount(shard_amount: usize) -> (r: Self)
        requires
            exists|tz: u64| 1 <= tz < 64 && shard_amount as u64 == (1u64 << tz),
        ensures
            r.wf(),
            r.spec_len() == 0,
            r.spec_shard_count() == shard_amount,
            forall|i: int|
                0 <= i < r.spec_shard_count() ==> (#[trigger] r.shard_entries(i)).len() == 0,
    {
        ClashTable::with_capacity_and_shard_amount(0, shard_amount)
    }

    /// Creates a new table with the given starting capacity and shard
    /// amount; the shard amount must be a power of two of at least 2. The
    /// capacity is rounded up to a multiple of the shard amount and split
    /// evenly across the shards.
    pub fn with_capacity_and_shard_amount(capacity: usize, shard_amount: usize) -> (r: Self)
        requires
            exists|tz: u64| 1 <= tz < 64 && shard_amount as u64 == (1u64 << tz),
            capacity + shard_amount - 1 <= usize::MAX,
        ensures
            r.wf(),
            r.spec_len() == 0,
            r.spec_shard_count() == shard_amount,
            forall|i: int|
                0 <= i < r.spec_shard_count() ==> (#[trigger] r.shard_entries(i)).len() == 0,
            forall|i: int|
                0 <= i < shard_amount ==> (#[trigger] r.tables.shards@[i]).data.cap
                    == (if capacity == 0 {
                        0int
                    } else {
                        (capacity + shard_amount - 1) / (shard_amount as int)
                    }),
    {
        proof {
            let tz = choose|tz: u64| 1 <= tz < 64 && shard_amount as u64 == (1u64 << tz);
            assert(1u64 << tz >= 2) by (bit_vector)
                requires
                    1 <= tz < 64,
            ;
        }
        let cps: usize = if capacity == 0 {
            0
        } else {
            (capacity + (shard_amount - 1)) / shard_amount
        };
        let tables = ClashCollection::<SubTable<T>>::with_shard_amount(
            shard_amount,
            (|| -> (t: SubTable<T>)
                ensures
                    t.cap == cps && t.entries@.len() == 0,
                { SubTable::with_capacity(cps) }),
        );
        let r = ClashTable { tables };
        proof {
            assert forall|n: int| 0 <= n <= r.spec_shard_count() implies r.flat_up_to(n).len()
                == 0 by {
                lemma_flat_empty(&r, n);
            }
        }
        r
    }

    /// Get a shared handle on the entry stored under `hash` that `eq`
    /// accepts, if there is one.
    pub fn find<'a, F: Fn(&T) -> bool>(&'a self, hash: u64, eq: F) -> (r: Option<Ref<'a, T>>)
        requires
            self.wf(),
            forall|x: &T| #[trigger] call_requires(eq, (x,)),
        ensures
            ({
                let s = self.shard_entries(self.spec_shard_of(hash));
                match r {
                    Some(h) => exists|j: int|
                        0 <= j < s.len() && s[j].0 == hash && *h.t == s[j].1 && call_ensures(
                            eq,
                            (&s[j].1,),
                            true,
                        ),
                    None => forall|j: int|
                        0 <= j < s.len() && s[j].0 == hash ==> call_ensures(
                            eq,
                            (&s[j].1,),
                            false,
                        ),
                }
            }),
    {
        let sub = self.tables.get_read_shard(hash);
        match sub.find_index(hash, &eq) {
            Some(j) => {
                let h = Ref::new(&sub.entries[j].1);
                proof {
                    let s = self.shard_entries(self.spec_shard_of(hash));
                    assert(0 <= j < s.len() && s[j as int].0 == hash && *h.t == s[j as int].1
                        && call_ensures(eq, (&s[j as int].1,), true));
                }
                Some(h)
            },
            None => None,
        }
    }

    /// Get an exclusive handle on the entry stored under `hash` that `eq`
    /// accepts, if there is one. Writing through the handle rewrites that
    /// entry in place; everything else in the table is untouched.
    pub fn find_mut<'a, F: Fn(&T) -> bool>(&'a mut self, hash: u64, eq: F) -> (r: Option<
        RefMut<'a, T>,
    >)
        requires
            old(self).wf(),
            forall|x: &T| #[trigger] call_requires(eq, (x,)),
        ensures
            ({
                let i = old(self).spec_shard_of(hash);
                let s = old(self).shard_entries(i);
                match r {
                    Some(h) => exists|j: int|
                        {
                            &&& 0 <= j < s.len()
                            &&& s[j].0 == hash
                            &&& *h.t == s[j].1
                            &&& call_ensures(eq, (&s[j].1,), true)
                            &&& final(self).shard_entries(i) == s.update(
                                j,
                                (hash, *final(h.t)),
                            )
                            &&& same_outside_shard(old(self), final(self), i)
                        },
                    None => *final(self) == *old(self) && forall|j: int|
                        0 <= j < s.len() && s[j].0 == hash ==> call_ensures(
                            eq,
                            (&s[j].1,),
                            false,
                        ),
                }
            }),
    {
        let found = {
            let sub = self.tables.get_read_shard(hash);
            sub.find_index(hash, &eq)
        };
        match found {
            Some(j) => {
                proof {
                    let i_ = old(self).spec_shard_of(hash);
                    let s_ = old(self).shard_entries(i_);
                    assert(0 <= j < s_.len() && s_[j as int].0 == hash && call_ensures(
                        eq,
                        (&s_[j as int].1,),
                        true,
                    ));
                }
                let idx = self.tables.determine_shard(hash);
                let cell = &mut self.tables.shards[idx];
                let e = &mut cell.data.entries[j];
                Some(RefMut { t: &mut e.1 })
            },
            None => None,
        }
    }

    /// Fetches the total number of entries in the table.
    pub fn len(&self) -> (r: usize)
        requires
            self.wf(),
            self.spec_len() <= usize::MAX,
        ensures
            r == self.spec_len(),
    {
        let n = self.tables.shards.len();
        let mut acc: usize = 0;
        let mut i: usize = 0;
        while i < n
            invariant
                self.wf(),
                self.spec_len() <= usize::MAX,
                n == self.spec_shard_count(),
                i <= n,
                acc == self.flat_up_to(i as int).len(),
            decreases n - i,
        {
            proof {
                lemma_flat_len_monotone(self, i + 1 as int, self.spec_shard_count());
            }
            acc = acc + self.tables.shards[i].data.entries.len();
            i += 1;
        }
        acc
    }

    /// Checks if the table is empty.
    pub fn is_empty(&self) -> (r: bool)
        requires
            self.wf(),
            self.spec_len() <= usize::MAX,
        ensures
            r == (self.spec_len() == 0),
    {
        self.len() == 0
    }

    /// Removes every entry. Shard shapes, lock words and capacities stay.
    pub fn clear(&mut self)
        requires
            old(self).wf(),
        ensures
            final(self).wf(),
            final(self).spec_len() == 0,
            final(self).tables.shift == old(self).tables.shift,
            final(self).spec_shard_count() == old(self).spec_shard_count(),
            forall|i: int|
                0 <= i < old(self).spec_shard_count() ==> final(self).tables.shards@[i].raw == (
                #[trigger] old(self).tables.shards@[i]).raw
                    && final(self).tables.shards@[i].data.cap
                    == old(self).tables.shards@[i].data.cap,
            forall|i: int|
                0 <= i < old(self).spec_shard_count() ==> (#[trigger] final(self).shard_entries(
                    i,
                )).len() == 0,
    {
        let n = self.tables.shards.len();
        let mut i: usize = 0;
        while i < n
            invariant
                n == self.spec_shard_count(),
                i <= n,
                self.tables.shift == old(self).tables.shift,
                self.tables.shards@.len() == old(self).tables.shards@.len(),
                forall|k: int|
                    0 <= k < n ==> (#[trigger] self.tables.shards@[k]).raw == old(
                        self,
                    ).tables.shards@[k].raw && self.tables.shards@[k].data.cap == old(
                        self,
                    ).tables.shards@[k].data.cap,
                forall|k: int|
                    0 <= k < i ==> (#[trigger] self.tables.shards@[k]).data.entries@.len() == 0,
                forall|k: int|
                    i <= k < n ==> (#[trigger] self.tables.shards@[k]) == old(
                        self,
                    ).tables.shards@[k],
                old(self).wf(),
            decreases n - i,
        {
            let ghost pre_iter = self.tables.shards@;
            let cell = &mut self.tables.shards[i];
            cell.data.entries = Vec::new();
            proof {
                assert(self.shard_entries(i as int).len() == 0);
                assert(forall|k: int|
                    0 <= k < pre_iter.len() && k != i ==> self.tables.shards@[k] == pre_iter[k]);
            }
            i += 1;
        }
        proof {
            assert forall|k: int, j: int|
                0 <= k < self.spec_shard_count() && 0 <= j < self.shard_entries(k).len() implies
                self.tables.spec_shard_of(#[trigger] self.shard_entries(k)[j].0) == k by {}
            assert forall|m: int| 0 <= m <= self.spec_shard_count() implies self.flat_up_to(m).len()
                == 0 by {
                lemma_flat_empty(self, m);
            }
        }
    }

    /// Finds which shard a certain hash is stored in.
    pub fn determine_shard(&self, hash: u64) -> (idx: usize)
        requires
            self.wf(),
        ensures
            idx == self.spec_shard_of(hash),
            idx < self.spec_shard_count(),
    {
        self.tables.determine_shard(hash)
    }

    /// Borrow the shard cells.
    pub fn shards(&self) -> (r: &Vec<RwLock<SubTable<T>>>)
        ensures
            r == &self.tables.shards,
    {
        self.tables.shards()
    }

    /// Borrow the shard cells mutably.
    pub fn shards_mut(&mut self) -> (r: &mut Vec<RwLock<SubTable<T>>>)
        ensures
            *r == old(self).tables.shards,
            final(self).tables.shards == *final(r),
            final(self).tables.shift == old(self).tables.shift,
    {
        self.tables.shards_mut()
    }

    /// Consume the table and keep the shard cells.
    pub fn into_shards(self) -> (r: Vec<RwLock<SubTable<T>>>)
        ensures
            r == self.tables.shards,
    {
        self.tables.into_shards()
    }

    /// Start iterating the table's entries.
    pub fn iter<'a>(&'a self) -> (r: crate::tableref::iter::Iter<'a, T>)
        requires
            self.wf(),
        ensures
            r.wf(),
            r.table == self,
            r.flat_pos() == 0,
    {
        crate::tableref::iter::Iter::new(self)
    }

    /// Consume the table into an owning iterator over its entries.
    pub fn into_iter(self) -> (r: crate::tableref::iter::OwningIter<T>)
        ensures
            r.entries@.to_multiset() == self.spec_entries().to_multiset(),
    {
        crate::tableref::iter::OwningIter::new(self)
    }

    /// Get the slot for `hash` as an entry handle: occupied if some entry
    /// under this hash satisfies `eq`, vacant otherwise. The handle borrows
    /// the shard exclusively (the write guard); what its terminal operation
    /// leaves in the sub-table is what the table holds afterwards.
    pub fn entry<'a, F: Fn(&T) -> bool>(&'a mut self, hash: u64, eq: F) -> (r: EntryMut<'a, T>)
        requires
            old(self).wf(),
            forall|x: &T| #[trigger] call_requires(eq, (x,)),
        ensures
            ({
                let i = old(self).spec_shard_of(hash);
                let s = old(self).shard_entries(i);
                match r {
                    EntryMut::Occupied(o) => {
                        &&& o.idx < s.len()
                        &&& s[o.idx as int].0 == hash
                        &&& call_ensures(eq, (&s[o.idx as int].1,), true)
                        &&& mut_ref_current(o.sub) == old(self).tables.shards@[i].data
                        &&& shard_replaced(old(self), final(self), i, mut_ref_future(o.sub))
                    },
                    EntryMut::Vacant(v) => {
                        &&& v.hash == hash
                        &&& mut_ref_current(v.sub) == old(self).tables.shards@[i].data
                        &&& shard_replaced(old(self), final(self), i, mut_ref_future(v.sub))
                        &&& forall|j: int|
                            0 <= j < s.len() && s[j].0 == hash ==> call_ensures(
                                eq,
                                (&s[j].1,),
                                false,
                            )
                    },
                }
            }),
    {
        let found = {
            let sub = self.tables.get_read_shard(hash);
            sub.find_index(hash, &eq)
        };
        let idx = self.tables.determine_shard(hash);
        let cell = &mut self.tables.shards[idx];
        let sub = &mut cell.data;
        match found {
            Some(j) => EntryMut::Occupied(OccupiedEntryMut { idx: j, sub }),
            None => EntryMut::Vacant(VacantEntryMut { hash, sub }),
        }
    }

    /// The entry handle as a `Result`: the occupied handle on success, the
    /// vacant handle when no entry under this hash satisfies `eq`.
    pub fn find_entry<'a, F: Fn(&T) -> bool>(&'a mut self, hash: u64, eq: F) -> (r: Result<
        OccupiedEntryMut<'a, T>,
        VacantEntryMut<'a, T>,
    >)
        requires
            old(self).wf(),
            forall|x: &T| #[trigger] call_requires(eq, (x,)),
        ensures
            ({
                let i = old(self).spec_shard_of(hash);
                let s = old(self).shard_entries(i);
                match r {
                    Ok(o) => {
                        &&& o.idx < s.len()
                        &&& s[o.idx as int].0 == hash
                        &&& call_ensures(eq, (&s[o.idx as int].1,), true)
                        &&& mut_ref_current(o.sub) == old(self).tables.shards@[i].data
                        &&& shard_replaced(old(self), final(self), i, mut_ref_future(o.sub))
                    },
                    Err(v) => {
                        &&& v.hash == hash
                        &&& mut_ref_current(v.sub) == old(self).tables.shards@[i].data
                        &&& shard_replaced(old(self), final(self), i, mut_ref_future(v.sub))
                        &&& forall|j: int|
                            0 <= j < s.len() && s[j].0 == hash ==> call_ensures(
                                eq,
                                (&s[j].1,),
                                false,
                            )
                    },
                }
            }),
    {
        match self.entry(hash, eq) {
            EntryMut::Occupied(o) => Ok(o),
            EntryMut::Vacant(v) => Err(v),
        }
    }

    /// The entry handle under unique access to the table; no locking is
    /// involved. Same contract as [`ClashTable::entry`].
    pub fn entry_mut<'a, F: Fn(&T) -> bool>(&'a mut self, hash: u64, eq: F) -> (r: EntryMut<
        'a,
        T,
    >)
        requires
            old(self).wf(),
            forall|x: &T| #[trigger] call_requires(eq, (x,)),
        ensures
            ({
                let i = old(self).spec_shard_of(hash);
                let s = old(self).shard_entries(i);
                match r {
                    EntryMut::Occupied(o) => {
                        &&& o.idx < s.len()
                        &&& s[o.idx as int].0 == hash
                        &&& call_ensures(eq, (&s[o.idx as int].1,), true)
                        &&& mut_ref_current(o.sub) == old(self).tables.shards@[i].data
                        &&& shard_replaced(old(self), final(self), i, mut_ref_future(o.sub))
                    },
                    EntryMut::Vacant(v) => {
                        &&& v.hash == hash
                        &&& mut_ref_current(v.sub) == old(self).tables.shards@[i].data
                        &&& shard_replaced(old(self), final(self), i, mut_ref_future(v.sub))
                        &&& forall|j: int|
                            0 <= j < s.len() && s[j].0 == hash ==> call_ensures(
                                eq,
                                (&s[j].1,),
                                false,
                            )
                    },
                }
            }),
    {
        self.entry(hash, eq)
    }

    /// The non-blocking variant of [`ClashTable::entry`]. With a single
    /// caller the shard is never contended, so this always yields a handle.
    pub fn try_entry<'a, F: Fn(&T) -> bool>(&'a mut self, hash: u64, eq: F) -> (r: Option<
        EntryMut<'a, T>,
    >)
        requires
            old(self).wf(),
            forall|x: &T| #[trigger] call_requires(eq, (x,)),
        ensures
            r is Some,
            ({
                let i = old(self).spec_shard_of(hash);
                let s = old(self).shard_entries(i);
                match r {
                    Some(e) => match e {
                        EntryMut::Occupied(o) => {
                            &&& o.idx < s.len()
                            &&& s[o.idx as int].0 == hash
                            &&& call_ensures(eq, (&s[o.idx as int].1,), true)
                            &&& mut_ref_current(o.sub) == old(self).tables.shards@[i].data
                            &&& shard_replaced(old(self), final(self), i, mut_ref_future(o.sub))
                        },
                        EntryMut::Vacant(v) => {
                            &&& v.hash == hash
                            &&& mut_ref_current(v.sub) == old(self).tables.shards@[i].data
                            &&& shard_replaced(old(self), final(self), i, mut_ref_future(v.sub))
                            &&& forall|j: int|
                                0 <= j < s.len() && s[j].0 == hash ==> call_ensures(
                                    eq,
                                    (&s[j].1,),
                                    false,
                                )
                        },
                    },
                    None => false,
                }
            }),
    {
        Some(self.entry(hash, eq))
    }

    /// The non-blocking variant of [`ClashTable::find`]. With a single
    /// caller the shard is never contended, so this never yields `Locked`.
    pub fn try_find<'a, F: Fn(&T) -> bool>(&'a self, hash: u64, eq: F) -> (r: TryResult<
        Ref<'a, T>,
    >)
        requires
            self.wf(),
            forall|x: &T| #[trigger] call_requires(eq, (x,)),
        ensures
            ({
                let s = self.shard_entries(self.spec_shard_of(hash));
                match r {
                    TryResult::Present(h) => exists|j: int|
                        0 <= j < s.len() && s[j].0 == hash && *h.t == s[j].1 && call_ensures(
                            eq,
                            (&s[j].1,),
                            true,
                        ),
                    TryResult::Absent => forall|j: int|
                        0 <= j < s.len() && s[j].0 == hash ==> call_ensures(
                            eq,
                            (&s[j].1,),
                            false,
                        ),
                    TryResult::Locked => false,
                }
            }),
    {
        match self.find(hash, eq) {
            Some(h) => TryResult::Present(h),
            None => TryResult::Absent,
        }
    }

    /// The non-blocking variant of [`ClashTable::find_mut`]. With a single
    /// caller the shard is never contended, so this never yields `Locked`.
    pub fn try_find_mut<'a, F: Fn(&T) -> bool>(&'a mut self, hash: u64, eq: F) -> (r: TryResult<
        RefMut<'a, T>,
    >)
        requires
            old(self).wf(),
            forall|x: &T| #[trigger] call_requires(eq, (x,)),
        ensures
            ({
                let i = old(self).spec_shard_of(hash);
                let s = old(self).shard_entries(i);
                match r {
                    TryResult::Present(h) => exists|j: int|
                        {
                            &&& 0 <= j < s.len()
                            &&& s[j].0 == hash
                            &&& *h.t == s[j].1
                            &&& call_ensures(eq, (&s[j].1,), true)
                            &&& final(self).shard_entries(i) == s.update(
                                j,
                                (hash, *final(h.t)),
                            )
                            &&& same_outside_shard(old(self), final(self), i)
                        },
                    TryResult::Absent => *final(self) == *old(self) && forall|j: int|
                        0 <= j < s.len() && s[j].0 == hash ==> call_ensures(
                            eq,
                            (&s[j].1,),
                            false,
                        ),
                    TryResult::Locked => false,
                }
            }),
    {
        match self.find_mut(hash, eq) {
            Some(h) => TryResult::Present(h),
            None => TryResult::Absent,
        }
    }

    /// Keep the entries the predicate accepts and discard the rest, shard by
    /// shard under one write lock each. Within each shard the surviving
    /// entries keep their order.
    pub fn retain<F: Fn(&T) -> bool>(&mut self, f: F)
        requires
            old(self).wf(),
            forall|x: &T| #[trigger] call_requires(f, (x,)),
        ensures
            final(self).wf(),
            final(self).tables.shift == old(self).tables.shift,
            final(self).spec_shard_count() == old(self).spec_shard_count(),
            forall|i: int|
                0 <= i < old(self).spec_shard_count() ==> final(self).tables.shards@[i].raw == (
                #[trigger] old(self).tables.shards@[i]).raw
                    && final(self).tables.shards@[i].data.cap
                    == old(self).tables.shards@[i].data.cap,
            forall|i: int|
                0 <= i < old(self).spec_shard_count() ==> retained_shard(
                    #[trigger] old(self).shard_entries(i),
                    final(self).shard_entries(i),
                    f,
                ),
    {
        let n = self.tables.shards.len();
        let mut i: usize = 0;
        while i < n
            invariant
                old(self).wf(),
                forall|x: &T| #[trigger] call_requires(f, (x,)),
                n == self.spec_shard_count(),
                i <= n,
                self.tables.shift == old(self).tables.shift,
                self.tables.shards@.len() == old(self).tables.shards@.len(),
                forall|k: int|
                    i <= k < n ==> (#[trigger] self.tables.shards@[k]) == old(
                        self,
                    ).tables.shards@[k],
                forall|k: int|
                    0 <= k < n ==> (#[trigger] self.tables.shards@[k]).raw == old(
                        self,
                    ).tables.shards@[k].raw && self.tables.shards@[k].data.cap == old(
                        self,
                    ).tables.shards@[k].data.cap,
                forall|k: int|
                    0 <= k < i ==> retained_shard(
                        #[trigger] old(self).shard_entries(k),
                        self.tables.shards@[k].data.entries@,
                        f,
                    ),
            decreases n - i,
        {
            let cell = &mut self.tables.shards[i];
            retain_sub(&mut cell.data, &f);
            proof {
                assert(self.tables.shards@[i as int].data.cap == old(
                    self,
                ).tables.shards@[i as int].data.cap);
            }
            i += 1;
        }
        proof {
            assert forall|k: int, j: int|
                0 <= k < self.spec_shard_count() && 0 <= j < self.shard_entries(k).len() implies
                self.tables.spec_shard_of(#[trigger] self.shard_entries(k)[j].0) == k by {
                let s = old(self).shard_entries(k);
                let keep = choose|keep: Seq<bool>|
                    {
                        &&& #[trigger] keep.len() == s.len()
                        &&& self.tables.shards@[k].data.entries@ == spec_mask(s, keep)
                        &&& forall|m: int|
                            0 <= m < s.len() && keep[m] ==> call_ensures(f, (&s[m].1,), true)
                        &&& forall|m: int|
                            0 <= m < s.len() && !keep[m] ==> call_ensures(f, (&s[m].1,), false)
                    };
                lemma_mask_membership(s, keep);
                let x = choose|x: int|
                    0 <= x < s.len() && #[trigger] spec_mask(s, keep)[j] == s[x];
            }
        }
    }

    /// The reserved capacity of the table: the sum of the shards' promises.
    pub open spec fn cap_up_to(&self, n: int) -> int
        decreases n,
    {
        if n <= 0 {
            0
        } else {
            self.cap_up_to(n - 1) + self.tables.shards@[n - 1].data.cap
        }
    }

    /// How many entries the table can hold without reallocating.
    pub fn capacity(&self) -> (r: usize)
        requires
            self.wf(),
            self.cap_up_to(self.spec_shard_count()) <= usize::MAX,
        ensures
            r == self.cap_up_to(self.spec_shard_count()),
    {
        let n = self.tables.shards.len();
        let mut acc: usize = 0;
        let mut i: usize = 0;
        while i < n
            invariant
                self.wf(),
                self.cap_up_to(self.spec_shard_count()) <= usize::MAX,
                n == self.spec_shard_count(),
                i <= n,
                acc == self.cap_up_to(i as int),
            decreases n - i,
        {
            proof {
                lemma_cap_monotone(self, i + 1 as int, self.spec_shard_count());
            }
            acc = acc + self.tables.shards[i].data.cap;
            i += 1;
        }
        acc
    }

    /// Drop each shard's capacity promise down to what it actually holds.
    pub fn shrink_to_fit(&mut self)
        requires
            old(self).wf(),
        ensures
            final(self).wf(),
            final(self).tables.shift == old(self).tables.shift,
            final(self).spec_shard_count() == old(self).spec_shard_count(),
            forall|i: int|
                0 <= i < old(self).spec_shard_count() ==> final(self).tables.shards@[i].raw == (
                #[trigger] old(self).tables.shards@[i]).raw
                    && final(self).tables.shards@[i].data.entries@
                    == old(self).tables.shards@[i].data.entries@
                    && final(self).tables.shards@[i].data.cap
                    == old(self).tables.shards@[i].data.entries@.len(),
    {
        let n = self.tables.shards.len();
        let mut i: usize = 0;
        while i < n
            invariant
                old(self).wf(),
                n == self.spec_shard_count(),
                i <= n,
                self.tables.shift == old(self).tables.shift,
                self.tables.shards@.len() == old(self).tables.shards@.len(),
                forall|k: int|
                    i <= k < n ==> (#[trigger] self.tables.shards@[k]) == old(
                        self,
                    ).tables.shards@[k],
                forall|k: int|
                    0 <= k < i ==> (#[trigger] self.tables.shards@[k]).raw == old(
                        self,
                    ).tables.shards@[k].raw && self.tables.shards@[k].data.entries@ == old(
                        self,
                    ).tables.shards@[k].data.entries@ && self.tables.shards@[k].data.cap == old(
                        self,
                    ).tables.shards@[k].data.entries@.len(),
            decreases n - i,
        {
            let cell = &mut self.tables.shards[i];
            let len = cell.data.entries.len();
            cell.data.cap = len;
            i += 1;
        }
        proof {
            assert forall|k: int, j: int|
                0 <= k < self.spec_shard_count() && 0 <= j < self.shard_entries(k).len() implies
                self.tables.spec_shard_of(#[trigger] self.shard_entries(k)[j].0) == k by {
                assert(self.shard_entries(k) == old(self).shard_entries(k));
            }
        }
    }

    /// Try to reserve room for `additional` more entries in every shard,
    /// in shard order. Each visited shard's promise rises to what it needs
    /// (or stays, if already large enough). The walk stops at the first
    /// shard whose requirement does not fit in the machine word: that shard
    /// and the ones after it keep their old promises, while the shards
    /// already visited keep their enlarged ones (no rollback). The entries
    /// are never touched.
    pub fn try_reserve(&mut self, additional: usize) -> (r: Result<(), TryReserveError>)
        requires
            old(self).wf(),
        ensures
            final(self).wf(),
            final(self).tables.shift == old(self).tables.shift,
            final(self).spec_shard_count() == old(self).spec_shard_count(),
            forall|i: int|
                0 <= i < old(self).spec_shard_count() ==> final(self).tables.shards@[i].raw == (
                #[trigger] old(self).tables.shards@[i]).raw
                    && final(self).tables.shards@[i].data.entries@
                    == old(self).tables.shards@[i].data.entries@,
            r is Ok ==> forall|i: int|
                0 <= i < old(self).spec_shard_count() ==> (#[trigger] old(
                self).tables.shards@[i]).data.entries@.len() + additional <= usize::MAX
                    && final(self).tables.shards@[i].data.cap == reserved_cap(
                    old(self).tables.shards@[i].data,
                    additional as int,
                ),
            r is Err ==> exists|fi: int|
                {
                    &&& 0 <= fi < old(self).spec_shard_count()
                    &&& (#[trigger] old(self).tables.shards@[fi]).data.entries@.len() + additional
                        > usize::MAX
                    &&& forall|k: int|
                        0 <= k < fi ==> (#[trigger] old(
                        self).tables.shards@[k]).data.entries@.len() + additional <= usize::MAX
                            && final(self).tables.shards@[k].data.cap == reserved_cap(
                            old(self).tables.shards@[k].data,
                            additional as int,
                        )
                    &&& forall|k: int|
                        fi <= k < old(self).spec_shard_count() ==> (#[trigger] final(
                        self).tables.shards@[k]).data.cap == old(self).tables.shards@[k].data.cap
                },
    {
        let n = self.tables.shards.len();
        let mut i: usize = 0;
        while i < n
            invariant
                old(self).wf(),
                n == self.spec_shard_count(),
                i <= n,
                self.tables.shift == old(self).tables.shift,
                self.tables.shards@.len() == old(self).tables.shards@.len(),
                forall|k: int|
                    i <= k < n ==> (#[trigger] self.tables.shards@[k]) == old(
                        self,
                    ).tables.shards@[k],
                forall|k: int|
                    0 <= k < n ==> (#[trigger] self.tables.shards@[k]).raw == old(
                        self,
                    ).tables.shards@[k].raw && self.tables.shards@[k].data.entries@ == old(
                        self,
                    ).tables.shards@[k].data.entries@,
                forall|k: int|
                    0 <= k < i ==> (#[trigger] old(self).tables.shards@[k]).data.entries@.len()
                        + additional <= usize::MAX && self.tables.shards@[k].data.cap
                        == reserved_cap(old(self).tables.shards@[k].data, additional as int),
            decreases n - i,
        {
            let cell = &mut self.tables.shards[i];
            let len = cell.data.entries.len();
            match len.checked_add(additional) {
                Some(want) => {
                    if cell.data.cap < want {
                        cell.data.cap = want;
                    }
                },
                None => {
                    proof {
                        assert forall|k: int, j: int|
                            0 <= k < self.spec_shard_count() && 0 <= j < self.shard_entries(
                                k,
                            ).len() implies self.tables.spec_shard_of(
                            #[trigger] self.shard_entries(k)[j].0) == k by {
                            assert(self.shard_entries(k) == old(self).shard_entries(k));
                        }
                        assert((#[trigger] old(self).tables.shards@[i as int]).data.entries@.len()
                            + additional > usize::MAX);
                    }
                    return Err(TryReserveError {  });
                },
            }
            i += 1;
        }
        proof {
            assert forall|k: int, j: int|
                0 <= k < self.spec_shard_count() && 0 <= j < self.shard_entries(k).len() implies
                self.tables.spec_shard_of(#[trigger] self.shard_entries(k)[j].0) == k by {
                assert(self.shard_entries(k) == old(self).shard_entries(k));
            }
        }
        Ok(())
    }
}

/// In a table whose every shard is empty, every prefix of the flattening is
/// empty.
proof fn lemma_flat_empty<T>(t: &ClashTable<T>, n: int)
    requires
        forall|i: int|
            0 <= i < t.spec_shard_count() ==> (#[trigger] t.shard_entries(i)).len() == 0,
        n <= t.spec_shard_count(),
    ensures
        t.flat_up_to(n).len() == 0,
    decreases n,
{
    if n > 0 {
        lemma_flat_empty(t, n - 1);
    }
}

/// The flattening of the first `n` shards is no longer than the whole
/// flattening.
proof fn lemma_flat_len_monotone<T>(t: &ClashTable<T>, n: int, m: int)
    requires
        0 <= n <= m,
    ensures
        t.flat_up_to(n).len() <= t.flat_up_to(m).len(),
    decreases m - n,
{
    if n < m {
        lemma_flat_len_monotone(t, n + 1, m);
    }
}

/// When two tables differ only in shard `i`, whose entry count differs by
/// `d`, their flattened lengths differ by `d` as well.
pub proof fn lemma_flat_len_change<T>(pre: &ClashTable<T>, post: &ClashTable<T>, i: int, d: int, n: int)
    requires
        pre.spec_shard_count() == post.spec_shard_count(),
        0 <= i < pre.spec_shard_count(),
        0 <= n <= pre.spec_shard_count(),
        forall|k: int|
            0 <= k < pre.spec_shard_count() && k != i ==> (#[trigger] post.shard_entries(k)).len()
                == pre.shard_entries(k).len(),
        post.shard_entries(i).len() == pre.shard_entries(i).len() + d,
    ensures
        post.flat_up_to(n).len() == pre.flat_up_to(n).len() + (if i < n {
            d
        } else {
            0int
        }),
    decreases n,
{
    if n > 0 {
        lemma_flat_len_change(pre, post, i, d, n - 1);
    }
}

/// When two tables differ only in shard `i`, to which one entry was
/// appended, the flattened entries gain exactly that entry (as multisets).
pub proof fn lemma_flat_multiset_push<T>(
    pre: &ClashTable<T>,
    post: &ClashTable<T>,
    i: int,
    e: (u64, T),
    n: int,
)
    requires
        pre.spec_shard_count() == post.spec_shard_count(),
        0 <= i < pre.spec_shard_count(),
        0 <= n <= pre.spec_shard_count(),
        forall|k: int|
            0 <= k < pre.spec_shard_count() && k != i ==> (#[trigger] post.shard_entries(k))
                == pre.shard_entries(k),
        post.shard_entries(i) == pre.shard_entries(i).push(e),
    ensures
        post.flat_up_to(n).to_multiset() == if i < n {
            pre.flat_up_to(n).to_multiset().insert(e)
        } else {
            pre.flat_up_to(n).to_multiset()
        },
    decreases n,
{
    broadcast use vstd::seq_lib::group_to_multiset_ensures;
    broadcast use vstd::multiset::group_multiset_axioms;

    if n == 0 {
        assert(post.flat_up_to(0) =~= pre.flat_up_to(0));
    } else {
        lemma_flat_multiset_push(pre, post, i, e, n - 1);
        vstd::seq_lib::lemma_multiset_commutative(post.flat_up_to(n - 1), post.shard_entries(n - 1));
        vstd::seq_lib::lemma_multiset_commutative(pre.flat_up_to(n - 1), pre.shard_entries(n - 1));
        if n - 1 == i {
            vstd::seq_lib::to_multiset_build(pre.shard_entries(i), e);
            assert(post.shard_entries(i).to_multiset() =~= pre.shard_entries(
                i,
            ).to_multiset().insert(e));
            assert(post.flat_up_to(n).to_multiset() =~= pre.flat_up_to(n).to_multiset().insert(
                e,
            )) by {
                let a = pre.flat_up_to(n - 1).to_multiset();
                let b = pre.shard_entries(i).to_multiset();
                assert(post.flat_up_to(n).to_multiset() == a.add(b.insert(e)));
                assert forall|x: (u64, T)|
                    a.add(b.insert(e)).count(x) == a.add(b).insert(e).count(x) by {}
            }
        } else {
            if i < n - 1 {
                assert(post.flat_up_to(n).to_multiset() =~= pre.flat_up_to(
                    n,
                ).to_multiset().insert(e)) by {
                    let a = pre.flat_up_to(n - 1).to_multiset();
                    let b = pre.shard_entries(n - 1).to_multiset();
                    assert(post.flat_up_to(n).to_multiset() == a.insert(e).add(b));
                    assert forall|x: (u64, T)|
                        a.insert(e).add(b).count(x) == a.add(b).insert(e).count(x) by {}
                }
            } else {
                assert(post.flat_up_to(n).to_multiset() =~= pre.flat_up_to(n).to_multiset());
            }
        }
    }
}

/// When two tables differ only in shard `i`, from which the entry at `j`
/// was removed by swapping the last entry in, the flattened entries lose
/// exactly that entry (as multisets).
pub proof fn lemma_flat_multiset_swap_remove<T>(
    pre: &ClashTable<T>,
    post: &ClashTable<T>,
    i: int,
    j: int,
    n: int,
)
    requires
        pre.spec_shard_count() == post.spec_shard_count(),
        0 <= i < pre.spec_shard_count(),
        0 <= n <= pre.spec_shard_count(),
        0 <= j < pre.shard_entries(i).len(),
        forall|k: int|
            0 <= k < pre.spec_shard_count() && k != i ==> (#[trigger] post.shard_entries(k))
                == pre.shard_entries(k),
        post.shard_entries(i) == pre.shard_entries(i).update(
            j,
            pre.shard_entries(i).last(),
        ).drop_last(),
    ensures
        post.flat_up_to(n).to_multiset() == if i < n {
            pre.flat_up_to(n).to_multiset().remove(pre.shard_entries(i)[j])
        } else {
            pre.flat_up_to(n).to_multiset()
        },
    decreases n,
{
    broadcast use vstd::seq_lib::group_to_multiset_ensures;
    broadcast use vstd::multiset::group_multiset_axioms;

    let si = pre.shard_entries(i);
    let e = si[j];
    assert(post.shard_entries(i).to_multiset() =~= si.to_multiset().remove(e)) by {
        let t = si.update(j, si.last());
        assert(t.to_multiset() =~= si.to_multiset().remove(e).insert(si.last()));
        assert(t.last() == si.last());
        assert(t =~= t.drop_last().push(t.last()));
        vstd::seq_lib::to_multiset_build(t.drop_last(), t.last());
        assert(t.to_multiset() == post.shard_entries(i).to_multiset().insert(si.last()));
        assert(si.to_multiset().count(e) > 0) by {
            vstd::seq_lib::to_multiset_remove(si, j);
        }
        assert forall|x: (u64, T)|
            post.shard_entries(i).to_multiset().count(x) == si.to_multiset().remove(e).count(
                x,
            ) by {
            assert(post.shard_entries(i).to_multiset().insert(si.last()).count(x)
                == si.to_multiset().remove(e).insert(si.last()).count(x));
        }
    }
    if n == 0 {
        assert(post.flat_up_to(0) =~= pre.flat_up_to(0));
    } else {
        lemma_flat_multiset_swap_remove(pre, post, i, j, n - 1);
        vstd::seq_lib::lemma_multiset_commutative(post.flat_up_to(n - 1), post.shard_entries(n - 1));
        vstd::seq_lib::lemma_multiset_commutative(pre.flat_up_to(n - 1), pre.shard_entries(n - 1));
        if n - 1 == i {
            assert(post.flat_up_to(n).to_multiset() =~= pre.flat_up_to(n).to_multiset().remove(
                e,
            )) by {
                let a = pre.flat_up_to(n - 1).to_multiset();
                let b = si.to_multiset();
                assert(post.flat_up_to(n).to_multiset() == a.add(b.remove(e)));
                assert(b.count(e) > 0) by {
                    vstd::seq_lib::to_multiset_remove(si, j);
                }
                assert forall|x: (u64, T)|
                    a.add(b.remove(e)).count(x) == a.add(b).remove(e).count(x) by {}
            }
        } else {
            if i < n - 1 {
                assert(post.flat_up_to(n).to_multiset() =~= pre.flat_up_to(
                    n,
                ).to_multiset().remove(e)) by {
                    let a = pre.flat_up_to(n - 1).to_multiset();
                    let b = pre.shard_entries(n - 1).to_multiset();
                    assert(post.flat_up_to(n).to_multiset() == a.remove(e).add(b));
                    assert(a.count(e) > 0) by {
                        lemma_flat_contains_shard_entry(pre, i, j, n - 1);
                    }
                    assert forall|x: (u64, T)|
                        a.remove(e).add(b).count(x) == a.add(b).remove(e).count(x) by {}
                }
            } else {
                assert(post.flat_up_to(n).to_multiset() =~= pre.flat_up_to(n).to_multiset());
            }
        }
    }
}

/// A shard's entry is counted by every flattening that covers its shard.
proof fn lemma_flat_contains_shard_entry<T>(t: &ClashTable<T>, i: int, j: int, n: int)
    requires
        0 <= i < n <= t.spec_shard_count(),
        0 <= j < t.shard_entries(i).len(),
    ensures
        t.flat_up_to(n).to_multiset().count(t.shard_entries(i)[j]) > 0,
    decreases n,
{
    broadcast use vstd::seq_lib::group_to_multiset_ensures;
    broadcast use vstd::multiset::group_multiset_axioms;

    vstd::seq_lib::lemma_multiset_commutative(t.flat_up_to(n - 1), t.shard_entries(n - 1));
    if i == n - 1 {
        assert(t.shard_entries(i).to_multiset().count(t.shard_entries(i)[j]) > 0) by {
            vstd::seq_lib::to_multiset_remove(t.shard_entries(i), j);
        }
    } else {
        lemma_flat_contains_shard_entry(t, i, j, n - 1);
    }
}

/// Capacity sums grow with the prefix they cover.
proof fn lemma_cap_monotone<T>(t: &ClashTable<T>, n: int, m: int)
    requires
        0 <= n <= m,
        forall|i: int| 0 <= i < m ==> (#[trigger] t.tables.shards@[i]).data.cap >= 0,
    ensures
        t.cap_up_to(n) <= t.cap_up_to(m),
    decreases m - n,
{
    if n < m {
        lemma_cap_monotone(t, n + 1, m);
    }
}

/// Reverse a vector by popping it into a fresh one: the verified core of
/// the order-preserving rebuild passes (pop the reversal and the elements
/// come back out in their original order).
pub(crate) fn reverse_vec<T>(v: Vec<T>) -> (r: Vec<T>)
    ensures
        r@ == v@.reverse(),
{
    let ghost s = v@;
    let mut rest = v;
    let mut out: Vec<T> = Vec::new();
    proof {
        assert(rest@ =~= s.take(rest.len() as int));
        assert(Seq::<T>::empty() =~= s.skip(rest.len() as int).reverse());
    }
    while rest.len() > 0
        invariant
            rest.len() <= s.len(),
            rest@ == s.take(rest.len() as int),
            out@ == s.skip(rest.len() as int).reverse(),
        decreases rest.len(),
    {
        let ghost l = rest.len() as int;
        proof {
            assert(rest@.last() == s[l - 1]);
        }
        let e = rest.pop().unwrap();
        out.push(e);
        proof {
            assert(rest@ =~= s.take(rest.len() as int));
            assert(out@ =~= s.skip(rest.len() as int).reverse()) by {
                let t = s.skip(l - 1).reverse();
                assert(t.len() == s.len() - l + 1);
                assert forall|x: int| 0 <= x < out@.len() implies out@[x] == t[x] by {
                    assert(t[x] == s.skip(l - 1)[s.len() - l - x]);
                }
            }
        }
    }
    proof {
        assert(s.skip(0) =~= s);
        assert(out@ =~= s.reverse());
    }
    out
}

/// One shard's retain pass: rebuild the entries, keeping exactly those the
/// predicate accepts, in their original order.
fn retain_sub<T, F: Fn(&T) -> bool>(sub: &mut SubTable<T>, f: &F)
    requires
        forall|x: &T| #[trigger] call_requires(*f, (x,)),
    ensures
        final(sub).cap == old(sub).cap,
        retained_shard(old(sub).entries@, final(sub).entries@, *f),
{
    let ghost s = old(sub).entries@;
    let mut drained: Vec<(u64, T)> = Vec::new();
    core::mem::swap(&mut drained, &mut sub.entries);
    let mut reversed = reverse_vec(drained);
    proof {
        assert(s.skip(0) =~= s);
        assert(reversed@ =~= s.skip((s.len() - reversed.len()) as int).reverse());
    }
    let mut kept: Vec<(u64, T)> = Vec::new();
    let ghost mut keep = Seq::<bool>::empty();
    while reversed.len() > 0
        invariant
            forall|x: &T| #[trigger] call_requires(*f, (x,)),
            reversed@ == s.skip((s.len() - reversed.len()) as int).reverse(),
            reversed.len() <= s.len(),
            keep.len() == s.len() - reversed.len(),
            kept@ == spec_mask(s.take(keep.len() as int), keep),
            forall|k: int| 0 <= k < keep.len() && keep[k] ==> call_ensures(*f, (&s[k].1,), true),
            forall|k: int|
                0 <= k < keep.len() && !keep[k] ==> call_ensures(*f, (&s[k].1,), false),
        decreases reversed.len(),
    {
        let ghost j = s.len() - reversed.len();
        proof {
            assert(reversed@.last() == s.skip(j as int).reverse().last());
            assert(s.skip(j as int).reverse().last() == s.skip(j as int)[(s.len() - j - 1)
                - (s.len() - j - 1)]);
            assert(reversed@.last() == s[j as int]);
        }
        let e = reversed.pop().unwrap();
        let ok = f(&e.1);
        if ok {
            kept.push(e);
        }
        proof {
            let keep_old = keep;
            let kept_pre = spec_mask(s.take(j as int), keep_old);
            assert(kept@ == if ok {
                kept_pre.push((s[j as int].0, s[j as int].1))
            } else {
                kept_pre
            });
            keep = keep.push(ok);
            assert(s.take(j + 1).drop_last() =~= s.take(j as int));
            assert(s.take(j + 1).last() == s[j as int]);
            assert(keep.drop_last() =~= keep_old);
            assert(keep.last() == ok);
            assert(spec_mask(s.take(j + 1), keep) == spec_mask(s.take(j + 1).drop_last(),
                keep.drop_last()) + if keep.last() {
                seq![s.take(j + 1).last()]
            } else {
                Seq::empty()
            });
            assert(spec_mask(s.take(j + 1).drop_last(), keep.drop_last()) == kept_pre);
            if ok {
                assert(kept_pre + seq![s.take(j + 1).last()] =~= kept_pre.push(
                    (s[j as int].0, s[j as int].1),
                ));
            } else {
                assert(kept_pre + Seq::<(u64, T)>::empty() =~= kept_pre);
            }
            assert(kept@ =~= spec_mask(s.take(keep.len() as int), keep));
            assert(reversed@ =~= s.skip((s.len() - reversed.len()) as int).reverse()) by {
                let m = s.len() - reversed.len();
                let t = s.skip(m as int).reverse();
                assert forall|i: int| 0 <= i < reversed@.len() implies reversed@[i] == t[i] by {
                    assert(t[i] == s.skip(m as int)[s.len() - m - 1 - i]);
                    assert(reversed@[i] == s.skip(j as int).reverse()[i]);
                    assert(s.skip(j as int).reverse()[i] == s.skip(j as int)[s.len() - j - 1
                        - i]);
                }
            }
        }
    }
    sub.entries = kept;
    proof {
        assert(s.take(keep.len() as int) =~= s);
        assert(keep.len() == s.len() && sub.entries@ == spec_mask(s, keep) && (forall|k: int|
            0 <= k < s.len() && keep[k] ==> call_ensures(*f, (&s[k].1,), true)) && (forall|
            k: int,
        |
            0 <= k < s.len() && !keep[k] ==> call_ensures(*f, (&s[k].1,), false)));
        assert(retained_shard(s, sub.entries@, *f));
    }
}

} // verus!
