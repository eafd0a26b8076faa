//! The shard collection: a power-of-two number of lock-and-data cells, and
//! the dispatch that sends each hash to its shard.
//!
//! The shard index of a hash is `(hash << 7) >> shift` with
//! `shift == 64 - log2(shard count)`: the top 7 bits of the hash are
//! reserved for a sub-table's per-entry tag and take no part in dispatch, the
//! next `log2(shard count)` bits select the shard. The index is proved to be
//! in range for every hash, and it is a pure function of the hash and the
//! shift, so all operations on one hash meet in the same shard.

use vstd::prelude::*;

use crate::lock::RawRwLock;

verus! {

/// One shard: the reader-writer lock word and the data it guards. Under
/// concurrency the word is atomic and the data is only reached through it;
/// here the borrow discipline enforces the same exclusion, and the word
/// records handles that outlive a call.
#[derive(Clone)]
pub struct RwLock<T> {
    /// The lock word guarding `data`.
    pub raw: RawRwLock,
    /// The guarded data.
    pub data: T,
}

impl<T> RwLock<T> {
    /// A fresh unlocked cell around `data`.
    pub fn new(data: T) -> (r: Self)
        ensures
            r.raw.state == 0,
            r.data == data,
    {
        RwLock { raw: RawRwLock::new(), data }
    }

    /// Read access to the guarded data.
    pub fn read(&self) -> (r: &T)
        ensures
            r == &self.data,
    {
        &self.data
    }

    /// Write access to the guarded data.
    pub fn write(&mut self) -> (r: &mut T)
        ensures
            *r == old(self).data,
            final(self).data == *final(r),
            final(self).raw == old(self).raw,
    {
        &mut self.data
    }

    /// Consume the cell and keep the data.
    pub fn into_inner(self) -> (r: T)
        ensures
            r == self.data,
    {
        self.data
    }
}

/// The sharded collection: `shards.len()` is a power of two of at least 2,
/// and `shift` is precomputed so that [`ClashCollection::determine_shard`]
/// lands in range.
#[derive(Clone)]
pub struct ClashCollection<T> {
    /// `64 - log2(shards.len())`.
    pub shift: u64,
    /// The shards, each behind its own lock cell.
    pub shards: Vec<RwLock<T>>,
}

impl<T> ClashCollection<T> {
    /// The shape every collection keeps: at least two shards, a power of two
    /// of them, and the shift matching their number.
    pub open spec fn wf(&self) -> bool {
        &&& 1 <= self.shift < 64
        &&& self.shards.len() as u64 == (1u64 << ((64 - self.shift) as u64))
    }

    /// The number of shards.
    pub open spec fn spec_shard_count(&self) -> int {
        self.shards.len() as int
    }

    /// The shard a hash belongs to, as a specification-level function: the
    /// mapping is pure in `hash` and `shift`, so every operation on one hash
    /// routes to the same shard.
    pub open spec fn spec_shard_of(&self, hash: u64) -> int {
        ((hash << 7u64) >> self.shift) as int
    }

    /// Every hash routes into range.
    pub proof fn lemma_shard_of_in_range(&self, hash: u64)
        requires
            self.wf(),
        ensures
            0 <= self.spec_shard_of(hash) < self.spec_shard_count(),
    {
        let shift = self.shift;
        assert(1 <= shift < 64 ==> ((hash << 7u64) >> shift) < (1u64 << ((64 - shift) as u64)))
            by (bit_vector);
    }

    /// Create a collection of `shard_amount` shards, each initialised by one
    /// call of `init`. `shard_amount` must be a power of two of at least 2;
    /// `log2_amount` names its logarithm.
    pub fn with_shard_amount<F: Fn() -> T>(shard_amount: usize, init: F) -> (r: Self)
        requires
            exists|tz: u64| 1 <= tz < 64 && shard_amount as u64 == (1u64 << tz),
            forall|u: ()| #[trigger] call_requires(init, u),
        ensures
            r.wf(),
            r.shards.len() == shard_amount,
            forall|i: int|
                0 <= i < r.shards.len() ==> (#[trigger] r.shards@[i]).raw.state == 0
                    && call_ensures(init, (), r.shards@[i].data),
    {
        let mut shards: Vec<RwLock<T>> = Vec::new();
        let mut i: usize = 0;
        while i < shard_amount
            invariant
                i <= shard_amount,
                shards.len() == i,
                forall|u: ()| #[trigger] call_requires(init, u),
                forall|j: int|
                    0 <= j < i ==> (#[trigger] shards@[j]).raw.state == 0 && call_ensures(
                        init,
                        (),
                        shards@[j].data,
                    ),
            decreases shard_amount - i,
        {
            shards.push(RwLock::new(init()));
            i += 1;
        }
        let ghost snap = shards@;
        let shift: u64 = 64 - log2_of(shard_amount);
        let r = ClashCollection { shift, shards };
        proof {
            assert(r.wf());
            assert forall|i: int| 0 <= i < r.shards.len() implies (#[trigger] r.shards@[i]).raw.state
                == 0 && call_ensures(init, (), r.shards@[i].data) by {
                assert(r.shards@[i] == snap[i]);
            }
        }
        r
    }

    /// Finds which shard a certain hash is stored in.
    pub fn determine_shard(&self, hash: u64) -> (idx: usize)
        requires
            self.wf(),
        ensures
            idx == self.spec_shard_of(hash),
            idx < self.shards.len(),
    {
        let idx = (hash << 7u64) >> self.shift;
        proof {
            self.lemma_shard_of_in_range(hash);
        }
        idx as usize
    }

    /// Borrow the shards.
    pub fn shards(&self) -> (r: &Vec<RwLock<T>>)
        ensures
            r == &self.shards,
    {
        &self.shards
    }

    /// Borrow the shards mutably.
    pub fn shards_mut(&mut self) -> (r: &mut Vec<RwLock<T>>)
        ensures
            *r == old(self).shards,
            final(self).shards == *final(r),
            final(self).shift == old(self).shift,
    {
        &mut self.shards
    }

    /// Consume the collection and keep the shards.
    pub fn into_shards(self) -> (r: Vec<RwLock<T>>)
        ensures
            r == self.shards,
    {
        self.shards
    }

    /// Read access to the shard of `hash`.
    pub fn get_read_shard(&self, hash: u64) -> (r: &T)
        requires
            self.wf(),
        ensures
            r == &self.shards@[self.spec_shard_of(hash)].data,
    {
        let idx = self.determine_shard(hash);
        self.shards[idx].read()
    }

    /// Write access to the shard of `hash`.
    pub fn get_write_shard(&mut self, hash: u64) -> (r: &mut T)
        requires
            old(self).wf(),
        ensures
            *r == old(self).shards@[old(self).spec_shard_of(hash)].data,
            final(self).shift == old(self).shift,
            final(self).shards@ == old(self).shards@.update(
                old(self).spec_shard_of(hash),
                RwLock {
                    raw: old(self).shards@[old(self).spec_shard_of(hash)].raw,
                    data: *final(r),
                },
            ),
    {
        let idx = self.determine_shard(hash);
        let cell = &mut self.shards[idx];
        cell.write()
    }

    /// The non-blocking read access to the shard of `hash`. With a single
    /// caller the shard is never contended, so this always succeeds.
    pub fn try_read_shard(&self, hash: u64) -> (r: Option<&T>)
        requires
            self.wf(),
        ensures
            r == Some(&self.shards@[self.spec_shard_of(hash)].data),
    {
        Some(self.get_read_shard(hash))
    }

    /// The non-blocking write access to the shard of `hash`. With a single
    /// caller the shard is never contended, so this always succeeds.
    pub fn try_write_shard(&mut self, hash: u64) -> (r: Option<&mut T>)
        requires
            old(self).wf(),
        ensures
            r matches Some(m) ==> {
                &&& *m == old(self).shards@[old(self).spec_shard_of(hash)].data
                &&& final(self).shift == old(self).shift
                &&& final(self).shards@ == old(self).shards@.update(
                    old(self).spec_shard_of(hash),
                    RwLock {
                        raw: old(self).shards@[old(self).spec_shard_of(hash)].raw,
                        data: *final(m),
                    },
                )
            },
            r is Some,
    {
        Some(self.get_write_shard(hash))
    }

    /// Write access to the shard of `hash` under unique ownership of the
    /// whole collection; no locking is involved.
    pub fn get_mut(&mut self, hash: u64) -> (r: &mut T)
        requires
            old(self).wf(),
        ensures
            *r == old(self).shards@[old(self).spec_shard_of(hash)].data,
            final(self).shift == old(self).shift,
            final(self).shards@ == old(self).shards@.update(
                old(self).spec_shard_of(hash),
                RwLock {
                    raw: old(self).shards@[old(self).spec_shard_of(hash)].raw,
                    data: *final(r),
                },
            ),
    {
        self.get_write_shard(hash)
    }
}

/// The base-two logarithm of a power of two.
pub fn log2_of(n: usize) -> (r: u64)
    requires
        exists|tz: u64| 1 <= tz < 64 && n as u64 == (1u64 << tz),
    ensures
        1 <= r < 64,
        n as u64 == (1u64 << r),
{
    let mut tz: u64 = 1;
    proof {
        assert(forall|a: u64, b: u64|
            1 <= a < 64 && 1 <= b < 64 && a != b ==> (1u64 << a) != (1u64 << b)) by (bit_vector);
    }
    while tz < 63
        invariant
            1 <= tz < 64,
            exists|w: u64| 1 <= w < 64 && n as u64 == (1u64 << w),
            forall|w: u64| 1 <= w < tz ==> n as u64 != (1u64 << w),
            forall|a: u64, b: u64|
                1 <= a < 64 && 1 <= b < 64 && a != b ==> (1u64 << a) != (1u64 << b),
        decreases 63 - tz,
    {
        if (1u64 << tz) == n as u64 {
            return tz;
        }
        tz += 1;
    }
    tz
}

} // verus!
