//! The map facade: key-addressed operations over the sharded table.
//!
//! The facade hashes each key and delegates to the table with the hash and a
//! key-equality predicate. The hashing policy is the consumer-supplied
//! collaborator [`HashKey`]: a pure, specified function from key to 64-bit
//! hash, so the verifier can prove that every operation on one key meets in
//! the same shard. The facade's invariant adds to the table's: every entry
//! is stored under its key's hash, and no two entries of a map share a key.

use vstd::prelude::*;

use vstd::std_specs::cmp::PartialEqSpec;
use vstd::string::StringSliceAdditionalSpecFns;

use crate::mapref::entry::{Entry, OccupiedEntry, VacantEntry};
use crate::mapref::one::{Ref, RefMut};
use crate::table::{ClashTable, DEFAULT_SHARD_AMOUNT};
use crate::tableref::entrymut::EntryMut;

verus! {

/// The hashing policy a consumer supplies for its key type: a 64-bit hash
/// that is a pure function of the key, stated by `hash_spec` and computed by
/// `hash_key`. (The top 7 bits are reserved for a sub-table's tag and take
/// no part in shard dispatch.)
pub trait HashKey {
    /// What the hash of this key is.
    spec fn hash_spec(&self) -> u64;

    /// Compute the hash of this key.
    fn hash_key(&self) -> (h: u64)
        ensures
            h == self.hash_spec(),
    ;
}

impl HashKey for u64 {
    open spec fn hash_spec(&self) -> u64 {
        *self
    }

    fn hash_key(&self) -> (h: u64) {
        *self
    }
}

impl HashKey for u32 {
    open spec fn hash_spec(&self) -> u64 {
        *self as u64
    }

    fn hash_key(&self) -> (h: u64) {
        *self as u64
    }
}

impl HashKey for i32 {
    open spec fn hash_spec(&self) -> u64 {
        *self as u64
    }

    fn hash_key(&self) -> (h: u64) {
        *self as u64
    }
}

impl HashKey for usize {
    open spec fn hash_spec(&self) -> u64 {
        *self as u64
    }

    fn hash_key(&self) -> (h: u64) {
        *self as u64
    }
}

/// A polynomial hash over a byte string.
pub open spec fn bytes_hash_spec(s: Seq<u8>) -> u64
    decreases s.len(),
{
    if s.len() == 0 {
        0xcbf29ce484222325
    } else {
        (((bytes_hash_spec(s.drop_last()) ^ (s.last() as u64)) * 0x100000001b3) % 0x10000000000000000) as u64
    }
}

/// The polynomial hash, computed over a byte slice.
pub fn bytes_hash(s: &[u8]) -> (h: u64)
    ensures
        h == bytes_hash_spec(s@),
{
    let mut h: u64 = 0xcbf29ce484222325;
    let mut i: usize = 0;
    let n = s.len();
    while i < n
        invariant
            i <= n,
            n == s@.len(),
            h == bytes_hash_spec(s@.take(i as int)),
        decreases n - i,
    {
        let b = s[i];
        h = (h ^ (b as u64)).wrapping_mul(0x100000001b3);
        proof {
            assert(s@.take(i + 1).drop_last() =~= s@.take(i as int));
            assert(s@.take(i + 1).last() == s@[i as int]);
        }
        i += 1;
    }
    proof {
        assert(s@.take(n as int) =~= s@);
    }
    h
}

impl<'s> HashKey for &'s str {
    open spec fn hash_spec(&self) -> u64 {
        bytes_hash_spec(self.spec_bytes())
    }

    fn hash_key(&self) -> (h: u64) {
        bytes_hash(self.as_bytes())
    }
}

impl HashKey for String {
    open spec fn hash_spec(&self) -> u64 {
        bytes_hash_spec(vstd::utf8::encode_utf8(self@))
    }

    fn hash_key(&self) -> (h: u64) {
        bytes_hash(self.as_str().as_bytes())
    }
}

/// The key type's `==` agrees with the verifier's equality: what the facade
/// needs of a key type to state its contracts over plain equality. The
/// standard library's integer types satisfy it by their specifications.
/// `str` and `String` carry no such specification here, so for string keys
/// this is a precondition only an unverified caller can take on (the tests
/// do); verified callers use keys whose equality is specified.
pub open spec fn obeys_key_model<K: PartialEq>() -> bool {
    &&& K::obeys_eq_spec()
    &&& forall|a: &K, b: &K| #[trigger] a.eq_spec(b) <==> a == b
}

/// The first value stored under key `k` in a shard's entry sequence.
pub open spec fn find_key_in<K, V>(s: Seq<(u64, (K, V))>, k: K) -> Option<V>
    decreases s.len(),
{
    if s.len() == 0 {
        None
    } else if s[0].1.0 == k {
        Some(s[0].1.1)
    } else {
        find_key_in(s.drop_first(), k)
    }
}

/// No two entries of `s` share a key.
pub open spec fn distinct_keys<K, V>(s: Seq<(u64, (K, V))>) -> bool {
    forall|j1: int, j2: int|
        0 <= j1 < j2 < s.len() ==> !((#[trigger] s[j1]).1.0 == (#[trigger] s[j2]).1.0)
}

/// In a duplicate-free shard, looking a key up finds the entry that holds
/// it.
pub proof fn lemma_find_key_at<K, V>(s: Seq<(u64, (K, V))>, k: K, j: int)
    requires
        distinct_keys(s),
        0 <= j < s.len(),
        s[j].1.0 == k,
    ensures
        find_key_in(s, k) == Some(s[j].1.1),
    decreases s.len(),
{
    if j > 0 {
        assert(!(s[0].1.0 == s[j].1.0));
        assert(forall|j1: int, j2: int|
            0 <= j1 < j2 < s.drop_first().len() ==> !((#[trigger] s.drop_first()[j1]).1.0 == (
            #[trigger] s.drop_first()[j2]).1.0));
        lemma_find_key_at(s.drop_first(), k, j - 1);
    }
}

/// Looking up a key that no entry holds finds nothing.
pub proof fn lemma_find_key_absent<K, V>(s: Seq<(u64, (K, V))>, k: K)
    requires
        forall|j: int| 0 <= j < s.len() ==> !((#[trigger] s[j]).1.0 == k),
    ensures
        find_key_in(s, k) is None,
    decreases s.len(),
{
    if s.len() > 0 {
        lemma_find_key_absent(s.drop_first(), k);
    }
}

/// A successful lookup has a witness entry.
pub proof fn lemma_find_key_witness<K, V>(s: Seq<(u64, (K, V))>, k: K)
    requires
        find_key_in(s, k) is Some,
    ensures
        exists|j: int|
            0 <= j < s.len() && (#[trigger] s[j]).1.0 == k && find_key_in(s, k) == Some(s[j].1.1),
    decreases s.len(),
{
    if s.len() > 0 && !(s[0].1.0 == k) {
        lemma_find_key_witness(s.drop_first(), k);
        let j = choose|j: int|
            0 <= j < s.drop_first().len() && (#[trigger] s.drop_first()[j]).1.0 == k
                && find_key_in(s.drop_first(), k) == Some(s.drop_first()[j].1.1);
        assert(s[j + 1].1.0 == k && find_key_in(s, k) == Some(s[j + 1].1.1));
    }
}

/// The sharded map: keys are hashed by their [`HashKey`] policy and each
/// entry lives in the shard of its key's hash, at most once per key.
#[derive(Clone)]
pub struct ClashMap<K, V> {
    /// The underlying hash-addressed table, holding `(key, value)` entries.
    pub table: ClashTable<(K, V)>,
}

impl<K: HashKey + PartialEq, V> ClashMap<K, V> {
    /// The shard the key's hash routes to.
    pub open spec fn spec_shard_of_key(&self, k: &K) -> int {
        self.table.spec_shard_of(k.hash_spec())
    }

    /// The entries of the shard the key routes to.
    pub open spec fn key_shard(&self, k: &K) -> Seq<(u64, (K, V))> {
        self.table.shard_entries(self.spec_shard_of_key(k))
    }

    /// The value stored under `k`, if any.
    pub open spec fn spec_get(&self, k: &K) -> Option<V> {
        find_key_in(self.key_shard(k), *k)
    }

    /// Whether some entry is stored under `k`.
    pub open spec fn spec_contains(&self, k: &K) -> bool {
        self.spec_get(k) is Some
    }

    /// The number of entries in the map.
    pub open spec fn spec_len(&self) -> int {
        self.table.spec_len()
    }

    /// Well-formed: the table has its shape, every entry is stored under
    /// its key's hash, and no key appears twice in a shard (with the
    /// routing invariant, no key appears twice in the map).
    pub open spec fn wf(&self) -> bool {
        &&& self.table.wf()
        &&& forall|i: int, j: int|
            0 <= i < self.table.spec_shard_count() && 0 <= j < self.table.shard_entries(i).len()
                ==> (#[trigger] self.table.shard_entries(i)[j]).0 == self.table.shard_entries(
                i,
            )[j].1.0.hash_spec()
        &&& forall|i: int|
            0 <= i < self.table.spec_shard_count() ==> distinct_keys(
                #[trigger] self.table.shard_entries(i),
            )
    }

    /// Creates a new map with [`DEFAULT_SHARD_AMOUNT`] shards.
    pub fn new() -> (r: Self)
        ensures
            r.wf(),
            r.spec_len() == 0,
            forall|k: &K| r.spec_get(k) is None,
            r.table.spec_shard_count() == DEFAULT_SHARD_AMOUNT,
    {
        let r = ClashMap { table: ClashTable::new() };
        proof {
            assert forall|k: &K| r.spec_get(k) is None by {
                r.table.tables.lemma_shard_of_in_range(k.hash_spec());
                lemma_find_key_absent(r.key_shard(k), *k);
            }
        }
        r
    }

    /// Creates a new map with [`DEFAULT_SHARD_AMOUNT`] shards and the given
    /// starting capacity.
    pub fn with_capacity(capacity: usize) -> (r: Self)
        requires
            capacity + DEFAULT_SHARD_AMOUNT - 1 <= usize::MAX,
        ensures
            r.wf(),
            r.spec_len() == 0,
            forall|k: &K| r.spec_get(k) is None,
            r.table.spec_shard_count() == DEFAULT_SHARD_AMOUNT,
    {
        let r = ClashMap { table: ClashTable::with_capacity(capacity) };
        proof {
            assert forall|k: &K| r.spec_get(k) is None by {
                r.table.tables.lemma_shard_of_in_range(k.hash_spec());
                lemma_find_key_absent(r.key_shard(k), *k);
            }
        }
        r
    }

    /// Creates a new map with the given shard amount, which must be a power
    /// of two of at least 2.
    pub fn with_shard_amount(shard_amount: usize) -> (r: Self)
        requires
            exists|tz: u64| 1 <= tz < 64 && shard_amount as u64 == (1u64 << tz),
        ensures
            r.wf(),
            r.spec_len() == 0,
            forall|k: &K| r.spec_get(k) is None,
            r.table.spec_shard_count() == shard_amount,
    {
        let r = ClashMap { table: ClashTable::with_shard_amount(shard_amount) };
        proof {
            assert forall|k: &K| r.spec_get(k) is None by {
                r.table.tables.lemma_shard_of_in_range(k.hash_spec());
                lemma_find_key_absent(r.key_shard(k), *k);
            }
        }
        r
    }

    /// Inserts the pair, returning the value previously stored under the
    /// key, if any. Every other key's entry is untouched.
    pub fn insert(&mut self, key: K, value: V) -> (r: Option<V>)
        requires
            old(self).wf(),
            obeys_key_model::<K>(),
        ensures
            final(self).wf(),
            r == old(self).spec_get(&key),
            final(self).spec_get(&key) == Some(value),
            forall|k2: &K| !(*k2 == key) ==> final(self).spec_get(k2) == old(self).spec_get(k2),
            final(self).spec_len() == old(self).spec_len() + (if r is None {
                1int
            } else {
                0int
            }),
            final(self).table.spec_shard_count() == old(self).table.spec_shard_count(),
            r is None ==> final(self).table.spec_entries().to_multiset() == old(
                self,
            ).table.spec_entries().to_multiset().insert((key.hash_spec(), (key, value))),
    {
        let ghost k_g = key;
        let hash = key.hash_key();
        let ghost i = old(self).table.spec_shard_of(hash);
        let ghost s = old(self).table.shard_entries(i);
        proof {
            old(self).table.tables.lemma_shard_of_in_range(hash);
        }
        let kref = &key;
        let eq = (|t: &(K, V)| -> (b: bool)
            requires
                obeys_key_model::<K>(),
            ensures
                b == (t.0 == *kref),
            { t.0.eq(kref) });
        let r: Option<V>;
        let ghost j_g: int;
        match self.table.entry(hash, eq) {
            EntryMut::Occupied(o) => {
                proof {
                    j_g = o.idx as int;
                }
                let ghost o_sub_fut = mut_ref_future(o.sub);
                let slot = o.into_mut();
                let mut tmp = value;
                core::mem::swap(&mut slot.1, &mut tmp);
                proof {
                    assert(*final(slot) == (s[j_g].1.0, value));
                    assert(o_sub_fut.entries@ == s.update(j_g, (s[j_g].0, (s[j_g].1.0, value))));
                }
                r = Some(tmp);
            },
            EntryMut::Vacant(v) => {
                proof {
                    j_g = s.len() as int;
                }
                let _slot = v.insert((key, value));
                r = None;
            },
        }
        proof {
            let post = self.table.shard_entries(i);
            if r is Some {
                assert(post =~= s.update(j_g, (s[j_g].0, (s[j_g].1.0, value))));
            } else {
                assert(post =~= s.push((hash, (k_g, value))));
            }
            self.lemma_insert_post(old(self), k_g, value, hash, i, s, j_g, r);
        }
        r
    }

    /// The re-establishment argument shared by both arms of `insert`: given
    /// the shape the one touched shard now has, the map is well-formed
    /// again, the inserted key reads back, and nothing else moved.
    proof fn lemma_insert_post(
        &self,
        pre: &Self,
        key: K,
        value: V,
        hash: u64,
        i: int,
        s: Seq<(u64, (K, V))>,
        j: int,
        r: Option<V>,
    )
        requires
            pre.wf(),
            obeys_key_model::<K>(),
            hash == key.hash_spec(),
            i == pre.table.spec_shard_of(hash),
            s == pre.table.shard_entries(i),
            crate::table::same_outside_shard(&pre.table, &self.table, i),
            self.table.tables.wf(),
            r is Some ==> 0 <= j < s.len() && s[j].1.0 == key && r == Some(s[j].1.1)
                && self.table.shard_entries(i) == s.update(j, (s[j].0, (s[j].1.0, value))),
            r is None ==> (forall|m: int|
                0 <= m < s.len() && s[m].0 == hash ==> !((#[trigger] s[m]).1.0 == key))
                && self.table.shard_entries(i) == s.push((hash, (key, value))),
        ensures
            self.wf(),
            r == pre.spec_get(&key),
            self.spec_get(&key) == Some(value),
            forall|k2: &K| !(*k2 == key) ==> self.spec_get(k2) == pre.spec_get(k2),
            self.spec_len() == pre.spec_len() + (if r is None {
                1int
            } else {
                0int
            }),
            r is None ==> self.table.spec_entries().to_multiset()
                == pre.table.spec_entries().to_multiset().insert((hash, (key, value))),
    {
        pre.table.tables.lemma_shard_of_in_range(hash);
        let post = self.table.shard_entries(i);
        let n = pre.table.spec_shard_count();
        assert(s == pre.table.shard_entries(i));
        assert(forall|m: int|
            0 <= m < s.len() ==> (#[trigger] pre.table.shard_entries(i)[m]).0
                == pre.table.shard_entries(i)[m].1.0.hash_spec());
        assert(forall|k: int|
            0 <= k < n && k != i ==> (#[trigger] self.table.shard_entries(k)) == pre
                .table.shard_entries(k));
        // keys outside the hash's shard cannot equal `key`, and entries keep
        // their stored hash next to their key
        if r is None {
            assert forall|m: int| 0 <= m < s.len() implies !((#[trigger] s[m]).1.0 == key) by {
                if s[m].1.0 == key {
                    assert(s[m].0 == s[m].1.0.hash_spec());
                    assert(s[m].1.0.hash_spec() == key.hash_spec());
                }
            }
        }
        // well-formedness: hash field and distinctness of the new shard
        assert forall|m: int| 0 <= m < post.len() implies (#[trigger] post[m]).0
            == post[m].1.0.hash_spec() by {
            if r is Some {
                if m == j {
                    assert(post[m] == (s[j].0, (s[j].1.0, value)));
                    assert(s[j].0 == s[j].1.0.hash_spec());
                } else {
                    assert(post[m] == s[m]);
                }
            } else {
                if m < s.len() {
                    assert(post[m] == s[m]);
                } else {
                    assert(post[m] == (hash, (key, value)));
                }
            }
        }
        assert(distinct_keys(post)) by {
            assert forall|m1: int, m2: int| 0 <= m1 < m2 < post.len() implies !((
            #[trigger] post[m1]).1.0 == (#[trigger] post[m2]).1.0) by {
                if r is Some {
                    assert(post[m1].1.0 == s[m1].1.0);
                    assert(post[m2].1.0 == s[m2].1.0);
                } else {
                    if m2 < s.len() {
                        assert(post[m1].1.0 == s[m1].1.0);
                        assert(post[m2].1.0 == s[m2].1.0);
                    } else {
                        assert(post[m2].1.0 == key);
                        assert(!(s[m1].1.0 == key));
                    }
                }
            }
        }
        assert forall|k: int, m: int|
            0 <= k < self.table.spec_shard_count() && 0 <= m < self.table.shard_entries(
                k,
            ).len() implies self.table.spec_shard_of(
            #[trigger] self.table.shard_entries(k)[m].0) == k by {
            if k != i {
                assert(self.table.shard_entries(k) == pre.table.shard_entries(k));
            } else {
                if r is Some {
                    assert(post[m].0 == s[m].0 || post[m].0 == s[j].0);
                } else {
                    if m < s.len() {
                        assert(post[m].0 == s[m].0);
                    } else {
                        assert(post[m].0 == hash);
                    }
                }
            }
        }
        assert(self.wf());
        // the key reads back, the previous value is the one handed out
        if r is Some {
            lemma_find_key_at(s, key, j);
            lemma_find_key_at(post, key, j);
            assert(post[j].1.1 == value);
        } else {
            lemma_find_key_absent(s, key);
            lemma_find_key_at(post, key, s.len() as int);
        }
        // other keys are untouched
        assert forall|k2: &K| !(*k2 == key) implies self.spec_get(k2) == pre.spec_get(k2) by {
            let i2 = pre.table.spec_shard_of(k2.hash_spec());
            pre.table.tables.lemma_shard_of_in_range(k2.hash_spec());
            if i2 != i {
                assert(self.table.shard_entries(i2) == pre.table.shard_entries(i2));
            } else {
                if pre.spec_get(k2) is Some {
                    lemma_find_key_witness(s, *k2);
                    let m = choose|m: int|
                        0 <= m < s.len() && (#[trigger] s[m]).1.0 == *k2 && find_key_in(s, *k2)
                            == Some(s[m].1.1);
                    assert(!(m == j && r is Some) ==> post[m] == s[m]);
                    if r is Some && m == j {
                        assert(s[j].1.0 == key);
                        assert(false);
                    }
                    lemma_find_key_at(post, *k2, m);
                } else {
                    assert forall|m: int| 0 <= m < s.len() implies !((#[trigger] s[m]).1.0
                        == *k2) by {
                        if s[m].1.0 == *k2 {
                            lemma_find_key_at(s, *k2, m);
                        }
                    }
                    assert forall|m: int| 0 <= m < post.len() implies !((#[trigger] post[m]).1.0
                        == *k2) by {
                        if r is Some {
                            assert(post[m].1.0 == s[m].1.0);
                        } else {
                            if m < s.len() {
                                assert(post[m].1.0 == s[m].1.0);
                            } else {
                                assert(post[m].1.0 == key);
                            }
                        }
                    }
                    lemma_find_key_absent(post, *k2);
                }
            }
        }
        // the length moves by exactly the number of fresh keys
        if r is Some {
            crate::table::lemma_flat_len_change(&pre.table, &self.table, i, 0, n);
        } else {
            crate::table::lemma_flat_len_change(&pre.table, &self.table, i, 1, n);
            crate::table::lemma_flat_multiset_push(
                &pre.table,
                &self.table,
                i,
                (hash, (key, value)),
                n,
            );
        }
    }

    /// Get a shared handle on the entry stored under `key`, if any.
    pub fn get<'a>(&'a self, key: &K) -> (r: Option<Ref<'a, K, V>>)
        requires
            self.wf(),
            obeys_key_model::<K>(),
        ensures
            match r {
                Some(h) => self.spec_get(key) == Some(*h.v) && *h.k == *key,
                None => self.spec_get(key) is None,
            },
    {
        proof {
            self.table.tables.lemma_shard_of_in_range(key.hash_spec());
        }
        let hash = key.hash_key();
        let ghost i = self.table.spec_shard_of(hash);
        let ghost s = self.table.shard_entries(i);
        let eq = (|t: &(K, V)| -> (b: bool)
            requires
                obeys_key_model::<K>(),
            ensures
                b == (t.0 == *key),
            { t.0.eq(key) });
        match self.table.find(hash, eq) {
            Some(h) => {
                proof {
                    let j = choose|j: int|
                        0 <= j < s.len() && s[j].0 == hash && *h.t == s[j] .1 && call_ensures(
                            eq,
                            (&s[j].1,),
                            true,
                        );
                    lemma_find_key_at(s, *key, j);
                }
                let t = h.t;
                Some(Ref { k: &t.0, v: &t.1 })
            },
            None => {
                proof {
                    self.lemma_no_match_absent(key, hash, i, s);
                }
                None
            },
        }
    }

    /// Whether some entry is stored under `key`.
    pub fn contains_key(&self, key: &K) -> (r: bool)
        requires
            self.wf(),
            obeys_key_model::<K>(),
        ensures
            r == self.spec_contains(key),
    {
        self.get(key).is_some()
    }

    /// When no hash-matching entry of the key's shard holds the key, the
    /// key is absent from the map.
    proof fn lemma_no_match_absent(&self, key: &K, hash: u64, i: int, s: Seq<(u64, (K, V))>)
        requires
            self.wf(),
            hash == key.hash_spec(),
            i == self.table.spec_shard_of(hash),
            s == self.table.shard_entries(i),
            0 <= i < self.table.spec_shard_count(),
            forall|j: int|
                0 <= j < s.len() && s[j].0 == hash ==> !((#[trigger] s[j]).1.0 == *key),
        ensures
            self.spec_get(key) is None,
    {
        assert forall|j: int| 0 <= j < s.len() implies !((#[trigger] s[j]).1.0 == *key) by {
            if s[j].1.0 == *key {
                assert(s[j].0 == s[j].1.0.hash_spec());
            }
        }
        lemma_find_key_absent(s, *key);
    }

    /// Get an exclusive handle on the entry stored under `key`, if any.
    /// Writing through the handle rewrites that entry's value in place;
    /// the key set, the shard shapes and every other entry are untouched.
    pub fn get_mut<'a>(&'a mut self, key: &K) -> (r: Option<RefMut<'a, K, V>>)
        requires
            old(self).wf(),
            obeys_key_model::<K>(),
        ensures
            match r {
                Some(h) => {
                    &&& *h.k == *key
                    &&& old(self).spec_get(key) == Some(*h.v)
                    &&& final(self).wf()
                    &&& final(self).spec_get(key) == Some(*final(h.v))
                    &&& forall|k2: &K|
                        !(*k2 == *key) ==> final(self).spec_get(k2) == old(self).spec_get(k2)
                    &&& final(self).spec_len() == old(self).spec_len()
                    &&& final(self).table.spec_shard_count() == old(
                        self,
                    ).table.spec_shard_count()
                },
                None => *final(self) == *old(self) && old(self).spec_get(key) is None,
            },
    {
        proof {
            old(self).table.tables.lemma_shard_of_in_range(key.hash_spec());
        }
        let hash = key.hash_key();
        let ghost i = old(self).table.spec_shard_of(hash);
        let ghost s = old(self).table.shard_entries(i);
        let eq = (|t: &(K, V)| -> (b: bool)
            requires
                obeys_key_model::<K>(),
            ensures
                b == (t.0 == *key),
            { t.0.eq(key) });
        let found = {
            let sub = self.table.tables.get_read_shard(hash);
            sub.find_index(hash, &eq)
        };
        match found {
            Some(j) => {
                proof {
                    assert(s[j as int].1.0 == *key);
                    assert(s[j as int].0 == hash);
                    assert(distinct_keys(s));
                    lemma_find_key_at(s, *key, j as int);
                    old(self).lemma_value_update_quant(key, hash, i, s, j as int);
                }
                let idx = self.table.tables.determine_shard(hash);
                let cell = &mut self.table.tables.shards[idx];
                let e = &mut cell.data.entries[j];
                let pair = &mut e.1;
                Some(RefMut { k: &pair.0, v: &mut pair.1 })
            },
            None => {
                proof {
                    old(self).lemma_no_match_absent(key, hash, i, s);
                }
                None
            },
        }
    }

    /// What holds of the key's shard after its entry's value is replaced by
    /// any value whatever: the shard keeps its keys and hashes, the key
    /// reads back the new value, and no other key moves.
    proof fn lemma_value_update_quant(
        &self,
        key: &K,
        hash: u64,
        i: int,
        s: Seq<(u64, (K, V))>,
        j: int,
    )
        requires
            self.wf(),
            obeys_key_model::<K>(),
            hash == key.hash_spec(),
            i == self.table.spec_shard_of(hash),
            s == self.table.shard_entries(i),
            0 <= i < self.table.spec_shard_count(),
            0 <= j < s.len(),
            s[j].1.0 == *key,
            s[j].0 == hash,
        ensures
            forall|vv: V|
                {
                    let ps = #[trigger] s.update(j, (hash, (s[j].1.0, vv)));
                    &&& find_key_in(ps, *key) == Some(vv)
                    &&& distinct_keys(ps)
                    &&& forall|m: int|
                        0 <= m < ps.len() ==> (#[trigger] ps[m]).0 == ps[m].1.0.hash_spec()
                    &&& forall|k2: &K|
                        !(*k2 == *key) ==> find_key_in(ps, *k2) == find_key_in(s, *k2)
                    &&& ps.len() == s.len()
                },
            forall|post: &ClashMap<K, V>, vv: V|
                #![trigger post.table.tables.shards@, s.update(j, (hash, (s[j].1.0, vv)))]
                {
                    (post.table.tables.shift == self.table.tables.shift
                        && post.table.tables.shards@.len() == self.table.tables.shards@.len()
                        && (forall|k: int|
                        0 <= k < self.table.tables.shards@.len() && k != i
                            ==> post.table.tables.shards@[k] == self.table.tables.shards@[k])
                        && post.table.tables.shards@[i].raw == self.table.tables.shards@[i].raw
                        && post.table.tables.shards@[i].data.cap
                        == self.table.tables.shards@[i].data.cap && post.table.shard_entries(i)
                        == s.update(j, (hash, (s[j].1.0, vv)))) ==> {
                        &&& post.wf()
                        &&& post.spec_get(key) == Some(vv)
                        &&& forall|k2: &K|
                            !(*k2 == *key) ==> post.spec_get(k2) == self.spec_get(k2)
                        &&& post.spec_len() == self.spec_len()
                        &&& post.table.spec_shard_count() == self.table.spec_shard_count()
                    }
                },
    {
        assert forall|vv: V|
            {
                let ps = #[trigger] s.update(j, (hash, (s[j].1.0, vv)));
                &&& find_key_in(ps, *key) == Some(vv)
                &&& distinct_keys(ps)
                &&& forall|m: int|
                    0 <= m < ps.len() ==> (#[trigger] ps[m]).0 == ps[m].1.0.hash_spec()
                &&& forall|k2: &K|
                    !(*k2 == *key) ==> find_key_in(ps, *k2) == find_key_in(s, *k2)
                &&& ps.len() == s.len()
            } by {
            let ps = s.update(j, (hash, (s[j].1.0, vv)));
            assert(forall|m: int| 0 <= m < s.len() && m != j ==> ps[m] == #[trigger] s[m]);
            assert(distinct_keys(ps));
            lemma_find_key_at(ps, *key, j);
            assert forall|m: int| 0 <= m < ps.len() implies (#[trigger] ps[m]).0
                == ps[m].1.0.hash_spec() by {
                if m != j {
                    assert(s[m].0 == s[m].1.0.hash_spec());
                } else {
                    assert(s[j].0 == s[j].1.0.hash_spec());
                }
            }
            assert forall|k2: &K| !(*k2 == *key) implies find_key_in(ps, *k2) == find_key_in(
                s,
                *k2,
            ) by {
                if find_key_in(s, *k2) is Some {
                    lemma_find_key_witness(s, *k2);
                    let m = choose|m: int|
                        0 <= m < s.len() && (#[trigger] s[m]).1.0 == *k2 && find_key_in(s, *k2)
                            == Some(s[m].1.1);
                    assert(m != j);
                    lemma_find_key_at(ps, *k2, m);
                } else {
                    assert forall|m: int| 0 <= m < s.len() implies !((#[trigger] s[m]).1.0
                        == *k2) by {
                        if s[m].1.0 == *k2 {
                            lemma_find_key_at(s, *k2, m);
                        }
                    }
                    assert forall|m: int| 0 <= m < ps.len() implies !((#[trigger] ps[m]).1.0
                        == *k2) by {
                        if m != j {
                            assert(ps[m].1.0 == s[m].1.0);
                        } else {
                            assert(ps[j].1.0 == s[j].1.0);
                        }
                    }
                    lemma_find_key_absent(ps, *k2);
                }
            }
        }
        assert forall|post: &ClashMap<K, V>, vv: V|
            #![trigger post.table.tables.shards@, s.update(j, (hash, (s[j].1.0, vv)))]
            (post.table.tables.shift == self.table.tables.shift
                && post.table.tables.shards@.len() == self.table.tables.shards@.len() && (forall|
                k: int,
            |
                0 <= k < self.table.tables.shards@.len() && k != i
                    ==> post.table.tables.shards@[k] == self.table.tables.shards@[k])
                && post.table.tables.shards@[i].raw == self.table.tables.shards@[i].raw
                && post.table.tables.shards@[i].data.cap == self.table.tables.shards@[i].data.cap
                && post.table.shard_entries(i) == s.update(j, (hash, (s[j].1.0, vv)))) implies {
            &&& post.wf()
            &&& post.spec_get(key) == Some(vv)
            &&& forall|k2: &K| !(*k2 == *key) ==> post.spec_get(k2) == self.spec_get(k2)
            &&& post.spec_len() == self.spec_len()
            &&& post.table.spec_shard_count() == self.table.spec_shard_count()
        } by {
            let ps = s.update(j, (hash, (s[j].1.0, vv)));
            assert(post.table.shard_entries(i) == ps);
            assert(forall|k: int|
                0 <= k < self.table.spec_shard_count() && k != i ==> (
                #[trigger] post.table.shard_entries(k)) == self.table.shard_entries(k));
            assert forall|k: int, m: int|
                0 <= k < post.table.spec_shard_count() && 0 <= m < post.table.shard_entries(
                    k,
                ).len() implies post.table.tables.spec_shard_of(
                #[trigger] post.table.shard_entries(k)[m].0) == k by {
                if k != i {
                    assert(post.table.shard_entries(k) == self.table.shard_entries(k));
                } else {
                    if m != j {
                        assert(ps[m] == s[m]);
                    } else {
                        assert(ps[j].0 == hash);
                    }
                }
            }
            assert(post.wf());
            assert forall|k2: &K| !(*k2 == *key) implies post.spec_get(k2) == self.spec_get(
                k2,
            ) by {
                self.table.tables.lemma_shard_of_in_range(k2.hash_spec());
            }
            crate::table::lemma_flat_len_change(
                &self.table,
                &post.table,
                i,
                0,
                self.table.spec_shard_count(),
            );
        }
    }

    /// Get the slot for `key` as an entry handle: occupied if the key is
    /// stored, vacant otherwise. The handle borrows the key's shard
    /// exclusively (the write guard); what its terminal operation leaves in
    /// the sub-table is what the map holds afterwards.
    pub fn entry<'a>(&'a mut self, key: K) -> (r: Entry<'a, K, V>)
        requires
            old(self).wf(),
            obeys_key_model::<K>(),
        ensures
            ({
                let i = old(self).table.spec_shard_of(key.hash_spec());
                let s = old(self).table.shard_entries(i);
                match r {
                    Entry::Occupied(o) => {
                        &&& o.wf()
                        &&& o.inner.idx < s.len()
                        &&& mut_ref_current(o.inner.sub).entries@ == s
                        &&& o.spec_entry() == s[o.inner.idx as int]
                        &&& o.spec_entry().1.0 == key
                        &&& old(self).spec_get(&key) == Some(o.spec_entry().1.1)
                        &&& crate::table::shard_replaced(
                            &old(self).table,
                            &final(self).table,
                            i,
                            mut_ref_future(o.inner.sub),
                        )
                    },
                    Entry::Vacant(v) => {
                        &&& v.key == key
                        &&& v.inner.hash == key.hash_spec()
                        &&& mut_ref_current(v.inner.sub).entries@ == s
                        &&& old(self).spec_get(&key) is None
                        &&& crate::table::shard_replaced(
                            &old(self).table,
                            &final(self).table,
                            i,
                            mut_ref_future(v.inner.sub),
                        )
                    },
                }
            }),
    {
        proof {
            old(self).table.tables.lemma_shard_of_in_range(key.hash_spec());
        }
        let hash = key.hash_key();
        let ghost i = old(self).table.spec_shard_of(hash);
        let ghost s = old(self).table.shard_entries(i);
        let kref = &key;
        let eq = (|t: &(K, V)| -> (b: bool)
            requires
                obeys_key_model::<K>(),
            ensures
                b == (t.0 == *kref),
            { t.0.eq(kref) });
        let found = {
            let sub = self.table.tables.get_read_shard(hash);
            sub.find_index(hash, &eq)
        };
        match found {
            Some(j) => {
                proof {
                    assert(distinct_keys(s));
                    lemma_find_key_at(s, key, j as int);
                }
                let idx = self.table.tables.determine_shard(hash);
                let cell = &mut self.table.tables.shards[idx];
                let sub = &mut cell.data;
                Entry::Occupied(
                    OccupiedEntry {
                        inner: crate::tableref::entrymut::OccupiedEntryMut { idx: j, sub },
                    },
                )
            },
            None => {
                proof {
                    old(self).lemma_no_match_absent(&key, hash, i, s);
                }
                let idx = self.table.tables.determine_shard(hash);
                let cell = &mut self.table.tables.shards[idx];
                let sub = &mut cell.data;
                Entry::Vacant(
                    VacantEntry { key, inner: crate::tableref::entrymut::VacantEntryMut { hash, sub } },
                )
            },
        }
    }

    /// Apply a function to the value stored under `key`, if any: the entry
    /// is taken out, the function rewrites the value, and the pair goes
    /// back in. An absent key is left absent.
    pub fn alter<F: FnOnce(&K, V) -> V>(&mut self, key: &K, f: F)
        requires
            old(self).wf(),
            obeys_key_model::<K>(),
            forall|k: &K, v: V| #[trigger] call_requires(f, (k, v)),
        ensures
            final(self).wf(),
            final(self).spec_len() == old(self).spec_len(),
            final(self).table.spec_shard_count() == old(self).table.spec_shard_count(),
            forall|k2: &K| !(*k2 == *key) ==> final(self).spec_get(k2) == old(self).spec_get(k2),
            match old(self).spec_get(key) {
                Some(v) => exists|nv: V|
                    #![trigger call_ensures(f, (key, v), nv)]
                    call_ensures(f, (key, v), nv) && final(self).spec_get(key) == Some(nv),
                None => final(self).spec_get(key) is None,
            },
    {
        match self.remove(key) {
            Some((k2, v)) => {
                let ghost vg = v;
                let nv = f(&k2, v);
                let ghost nvg = nv;
                let ghost kg = k2;
                let _ = self.insert(k2, nv);
                proof {
                    assert(call_ensures(f, (key, vg), nvg));
                    assert(kg == *key);
                    assert(self.spec_get(key) == self.spec_get(&kg));
                }
            },
            None => {},
        }
    }

    /// Apply a pure function to every entry's value, in place. Keys,
    /// hashes, shard shapes and the entry count are untouched; each new
    /// value is what one call of `f` on the entry's key and old value
    /// produced.
    pub fn alter_all<F: Fn(&K, V) -> V>(&mut self, f: F)
        requires
            old(self).wf(),
            forall|k: &K, v: V| #[trigger] call_requires(f, (k, v)),
        ensures
            final(self).wf(),
            final(self).table.spec_shard_count() == old(self).table.spec_shard_count(),
            final(self).spec_len() == old(self).spec_len(),
            forall|ii: int|
                0 <= ii < old(self).table.spec_shard_count() ==> altered_shard(
                    #[trigger] old(self).table.shard_entries(ii),
                    final(self).table.shard_entries(ii),
                    f,
                ),
    {
        let n = self.table.tables.shards.len();
        let mut i: usize = 0;
        while i < n
            invariant
                old(self).wf(),
                forall|k: &K, v: V| #[trigger] call_requires(f, (k, v)),
                n == self.table.spec_shard_count(),
                i <= n,
                self.table.tables.shift == old(self).table.tables.shift,
                self.table.tables.shards@.len() == old(self).table.tables.shards@.len(),
                forall|k: int|
                    i <= k < n ==> (#[trigger] self.table.tables.shards@[k]) == old(
                        self,
                    ).table.tables.shards@[k],
                forall|k: int|
                    0 <= k < n ==> (#[trigger] self.table.tables.shards@[k]).raw == old(
                        self,
                    ).table.tables.shards@[k].raw && self.table.tables.shards@[k].data.cap == old(
                        self,
                    ).table.tables.shards@[k].data.cap,
                forall|k: int|
                    0 <= k < i ==> altered_shard(
                        #[trigger] old(self).table.shard_entries(k),
                        self.table.shard_entries(k),
                        f,
                    ),
            decreases n - i,
        {
            let cell = &mut self.table.tables.shards[i];
            alter_sub(&mut cell.data, &f);
            i += 1;
        }
        proof {
            assert forall|k: int, m: int|
                0 <= k < self.table.spec_shard_count() && 0 <= m < self.table.shard_entries(
                    k,
                ).len() implies self.table.tables.spec_shard_of(
                #[trigger] self.table.shard_entries(k)[m].0) == k by {
                assert(altered_shard(old(self).table.shard_entries(k), self.table.shard_entries(k), f));
                assert(self.table.shard_entries(k)[m].0 == old(self).table.shard_entries(k)[m].0);
            }
            assert forall|k: int, m1: int, m2: int|
                0 <= k < self.table.spec_shard_count() && 0 <= m1 < m2
                    < self.table.shard_entries(k).len() implies !((
            #[trigger] self.table.shard_entries(k)[m1]).1.0 == (
            #[trigger] self.table.shard_entries(k)[m2]).1.0) by {
                assert(self.table.shard_entries(k)[m1].1.0 == old(self).table.shard_entries(
                    k,
                )[m1].1.0);
                assert(self.table.shard_entries(k)[m2].1.0 == old(self).table.shard_entries(
                    k,
                )[m2].1.0);
            }
            assert forall|k: int, m: int|
                0 <= k < self.table.spec_shard_count() && 0 <= m < self.table.shard_entries(
                    k,
                ).len() implies (#[trigger] self.table.shard_entries(k)[m]).0
                == self.table.shard_entries(k)[m].1.0.hash_spec() by {
                assert(altered_shard(old(self).table.shard_entries(k), self.table.shard_entries(k), f));
                assert(self.table.shard_entries(k)[m].0 == old(self).table.shard_entries(k)[m].0);
                assert(self.table.shard_entries(k)[m].1.0 == old(self).table.shard_entries(
                    k,
                )[m].1.0);
                assert(old(self).table.shard_entries(k)[m].0 == old(self).table.shard_entries(
                    k,
                )[m].1.0.hash_spec());
            }
            assert(self.wf());
            assert forall|k: int| 0 <= k <= n implies #[trigger] self.table.flat_up_to(k).len()
                == old(self).table.flat_up_to(k).len() by {
                lemma_flat_len_eq(&old(self).table, &self.table, k);
            }
        }
    }

    /// Start iterating the map's entries.
    pub fn iter<'a>(&'a self) -> (r: crate::iter::Iter<'a, K, V>)
        requires
            self.wf(),
        ensures
            r.wf(),
            r.inner.table == &self.table,
            r.flat_pos() == 0,
    {
        crate::iter::Iter::new(self)
    }

    /// Consume the map into an owning iterator over its pairs.
    pub fn into_iter(self) -> (r: crate::iter::OwningIter<K, V>)
        ensures
            r.inner.entries@.to_multiset() == self.table.spec_entries().to_multiset(),
            stored_pairs(r.inner.entries@).to_multiset() == stored_pairs(
                self.table.spec_entries(),
            ).to_multiset(),
    {
        crate::iter::OwningIter::new(self)
    }

    /// Freeze the map into a read-only view: the locks are unwrapped and
    /// the bare sub-tables kept, in shard order.
    pub fn into_read_only(self) -> (r: crate::read_only::ReadOnlyView<K, V>)
        requires
            self.wf(),
        ensures
            r.wf(),
            r.shift == self.table.tables.shift,
            r.shards@.len() == self.table.tables.shards@.len(),
            forall|i: int|
                0 <= i < r.shards@.len() ==> (#[trigger] r.shards@[i])
                    == self.table.tables.shards@[i].data,
            forall|k: &K| #[trigger] r.spec_get(k) == self.spec_get(k),
    {
        let ghost pre = self;
        let shift = self.table.tables.shift;
        let cells = self.table.tables.into_shards();
        let ghost snap = cells@;
        let mut rev = crate::table::reverse_vec(cells);
        proof {
            assert(snap.skip(0) =~= snap);
            assert(rev@ =~= snap.skip((snap.len() - rev.len()) as int).reverse());
        }
        let mut shards: Vec<crate::table::SubTable<(K, V)>> = Vec::new();
        while rev.len() > 0
            invariant
                rev.len() <= snap.len(),
                rev@ == snap.skip((snap.len() - rev.len()) as int).reverse(),
                shards@.len() == snap.len() - rev.len(),
                forall|m: int|
                    0 <= m < shards@.len() ==> (#[trigger] shards@[m]) == snap[m].data,
            decreases rev.len(),
        {
            let ghost j = snap.len() - rev.len();
            proof {
                assert(rev@.last() == snap.skip(j as int).reverse().last());
                assert(snap.skip(j as int).reverse().last() == snap.skip(j as int)[(snap.len() - j
                    - 1) - (snap.len() - j - 1)]);
                assert(rev@.last() == snap[j as int]);
            }
            let cell = rev.pop().unwrap();
            shards.push(cell.into_inner());
            proof {
                assert(rev@ =~= snap.skip((snap.len() - rev.len()) as int).reverse()) by {
                    let m = snap.len() - rev.len();
                    let t = snap.skip(m as int).reverse();
                    assert forall|x: int| 0 <= x < rev@.len() implies rev@[x] == t[x] by {
                        assert(t[x] == snap.skip(m as int)[snap.len() - m - 1 - x]);
                        assert(rev@[x] == snap.skip(j as int).reverse()[x]);
                        assert(snap.skip(j as int).reverse()[x] == snap.skip(j as int)[snap.len()
                            - j - 1 - x]);
                    }
                }
            }
        }
        let r = crate::read_only::ReadOnlyView { shift, shards };
        proof {
            assert forall|i: int, j: int|
                0 <= i < r.shards@.len() && 0 <= j < r.shard_entries(i).len() implies (
            #[trigger] r.shard_entries(i)[j]).0 == r.shard_entries(i)[j].1.0.hash_spec()
                && r.spec_shard_of(r.shard_entries(i)[j].0) == i by {
                assert(r.shard_entries(i) == pre.table.shard_entries(i));
            }
            assert forall|i: int| 0 <= i < r.shards@.len() implies distinct_keys(
                #[trigger] r.shard_entries(i),
            ) by {
                assert(r.shard_entries(i) == pre.table.shard_entries(i));
            }
            assert(r.wf());
            assert forall|k: &K| #[trigger] r.spec_get(k) == pre.spec_get(k) by {
                pre.table.tables.lemma_shard_of_in_range(k.hash_spec());
            }
        }
        r
    }

    /// Build a map from a vector of pairs, inserting them in order: a later
    /// pair with the same key replaces the earlier one's value. When the
    /// keys are pairwise distinct, the map stores exactly the given pairs.
    pub fn from_entries(entries: Vec<(K, V)>) -> (r: Self)
        requires
            obeys_key_model::<K>(),
        ensures
            r.wf(),
            r.table.spec_shard_count() == DEFAULT_SHARD_AMOUNT,
            forall|j: int|
                0 <= j < entries@.len() && (forall|j2: int|
                    j < j2 < entries@.len() ==> !((#[trigger] entries@[j2]).0 == entries@[j].0))
                    ==> #[trigger] r.spec_get(&entries@[j].0) == Some(entries@[j].1),
            (forall|j1: int, j2: int|
                0 <= j1 < j2 < entries@.len() ==> !((#[trigger] entries@[j1]).0 == (
                #[trigger] entries@[j2]).0)) ==> stored_pairs(
                r.table.spec_entries(),
            ).to_multiset() == entries@.to_multiset(),
    {
        broadcast use vstd::seq_lib::group_to_multiset_ensures;
        broadcast use vstd::multiset::lemma_multiset_empty_len;

        let mut r: ClashMap<K, V> = ClashMap::new();
        let n = entries.len();
        let mut entries = entries;
        let ghost all = entries@;
        let ghost dk = forall|j1: int, j2: int|
            0 <= j1 < j2 < all.len() ==> !((#[trigger] all[j1]).0 == (#[trigger] all[j2]).0);
        proof {
            assert(r.table.spec_entries().len() == 0);
            assert(r.table.spec_entries() =~= Seq::<(u64, (K, V))>::empty());
            assert(stored_pairs(r.table.spec_entries()) =~= Seq::<(K, V)>::empty());
            vstd::seq_lib::to_multiset_len(stored_pairs(r.table.spec_entries()));
            assert(all.take(0) =~= Seq::<(K, V)>::empty());
            vstd::seq_lib::to_multiset_len(all.take(0));
            assert(stored_pairs(r.table.spec_entries()).to_multiset() =~= all.take(
                0,
            ).to_multiset());
        }
        let mut i: usize = 0;
        while i < n
            invariant
                obeys_key_model::<K>(),
                r.wf(),
                r.table.spec_shard_count() == DEFAULT_SHARD_AMOUNT,
                n == all.len(),
                i <= n,
                entries@ == all.skip(i as int),
                dk == (forall|j1: int, j2: int|
                    0 <= j1 < j2 < all.len() ==> !((#[trigger] all[j1]).0 == (
                    #[trigger] all[j2]).0)),
                forall|j: int|
                    0 <= j < i && (forall|j2: int|
                        j < j2 < i ==> !((#[trigger] all[j2]).0 == all[j].0)) ==> #[trigger] r
                        .spec_get(&all[j].0) == Some(all[j].1),
                forall|k: &K|
                    #[trigger] r.spec_get(k) is Some ==> exists|j: int|
                        0 <= j < i && (#[trigger] all[j]).0 == *k,
                dk ==> stored_pairs(r.table.spec_entries()).to_multiset() == all.take(
                    i as int,
                ).to_multiset(),
            decreases n - i,
        {
            proof {
                assert(entries@[0] == all[i as int]);
            }
            let mut rest = entries.split_off(1);
            let (k, v) = entries.pop().unwrap();
            core::mem::swap(&mut entries, &mut rest);
            let ghost pre_map = r;
            let inserted = r.insert(k, v);
            i += 1;
            proof {
                assert(entries@ =~= all.skip(i as int));
                let ki = all[i - 1].0;
                assert forall|k2: &K| #[trigger] r.spec_get(k2) is Some implies exists|j: int|
                    0 <= j < i && (#[trigger] all[j]).0 == *k2 by {
                    if *k2 == ki {
                        assert(all[i - 1].0 == *k2);
                    } else {
                        assert(r.spec_get(k2) == pre_map.spec_get(k2));
                        let j = choose|j: int| 0 <= j < i - 1 && (#[trigger] all[j]).0 == *k2;
                        assert(all[j].0 == *k2);
                    }
                }
                if dk {
                    if inserted is Some {
                        let j = choose|j: int| 0 <= j < i - 1 && (#[trigger] all[j]).0 == ki;
                        assert(!(all[j].0 == all[i - 1].0));
                        assert(false);
                    }
                    lemma_map_values_multiset_insert(
                        r.table.spec_entries(),
                        pre_map.table.spec_entries(),
                        (ki.hash_spec(), (all[i - 1].0, all[i - 1].1)),
                        |e: (u64, (K, V))| e.1,
                    );
                    assert(all.take(i as int) =~= all.take(i - 1).push(all[i - 1]));
                    vstd::seq_lib::to_multiset_build(all.take(i - 1), all[i - 1]);
                    assert(stored_pairs(r.table.spec_entries()).to_multiset() =~= all.take(
                        i as int,
                    ).to_multiset());
                }
            }
        }
        proof {
            assert(all.take(n as int) =~= all);
        }
        r
    }

    /// Removes the entry stored under `key`, handing its pair back.
    pub fn remove(&mut self, key: &K) -> (r: Option<(K, V)>)
        requires
            old(self).wf(),
            obeys_key_model::<K>(),
        ensures
            final(self).wf(),
            match r {
                Some(kv) => {
                    &&& kv.0 == *key
                    &&& old(self).spec_get(key) == Some(kv.1)
                    &&& final(self).spec_get(key) is None
                    &&& final(self).spec_len() == old(self).spec_len() - 1
                },
                None => old(self).spec_get(key) is None && final(self).spec_get(key) is None
                    && final(self).spec_len() == old(self).spec_len(),
            },
            forall|k2: &K| !(*k2 == *key) ==> final(self).spec_get(k2) == old(self).spec_get(k2),
            final(self).table.spec_shard_count() == old(self).table.spec_shard_count(),
            r matches Some(kv) ==> final(self).table.spec_entries().to_multiset() == old(
                self,
            ).table.spec_entries().to_multiset().remove((key.hash_spec(), (kv.0, kv.1))),
    {
        proof {
            old(self).table.tables.lemma_shard_of_in_range(key.hash_spec());
        }
        let hash = key.hash_key();
        let ghost i = old(self).table.spec_shard_of(hash);
        let ghost s = old(self).table.shard_entries(i);
        let eq = (|t: &(K, V)| -> (b: bool)
            requires
                obeys_key_model::<K>(),
            ensures
                b == (t.0 == *key),
            { t.0.eq(key) });
        let r: Option<(K, V)>;
        let ghost j_g: int;
        match self.table.entry(hash, eq) {
            EntryMut::Occupied(o) => {
                proof {
                    j_g = o.idx as int;
                }
                let (_h, pair) = o.sub.entries.swap_remove(o.idx);
                r = Some(pair);
            },
            EntryMut::Vacant(_v) => {
                proof {
                    j_g = 0;
                }
                r = None;
            },
        }
        proof {
            if r is Some {
                assert(self.table.shard_entries(i) =~= s.update(j_g, s.last()).drop_last());
                self.lemma_remove_post(old(self), key, hash, i, s, j_g, r);
            } else {
                assert(self.table.tables.shards@ =~= old(self).table.tables.shards@);
                assert(forall|k: int|
                    0 <= k < old(self).table.spec_shard_count() ==> (
                    #[trigger] self.table.shard_entries(k)) == old(self).table.shard_entries(k));
                assert(self.wf());
                old(self).lemma_no_match_absent(key, hash, i, s);
                assert forall|k2: &K| !(*k2 == *key) implies self.spec_get(k2) == old(
                    self,
                ).spec_get(k2) by {
                    old(self).table.tables.lemma_shard_of_in_range(k2.hash_spec());
                }
                crate::table::lemma_flat_len_change(
                    &old(self).table,
                    &self.table,
                    i,
                    0,
                    old(self).table.spec_shard_count(),
                );
            }
        }
        r
    }

    /// The re-establishment argument for `remove`: with one entry swapped
    /// out of the key's shard, the map is well-formed again, the key is
    /// gone, and nothing else moved.
    proof fn lemma_remove_post(
        &self,
        pre: &Self,
        key: &K,
        hash: u64,
        i: int,
        s: Seq<(u64, (K, V))>,
        j: int,
        r: Option<(K, V)>,
    )
        requires
            pre.wf(),
            obeys_key_model::<K>(),
            hash == key.hash_spec(),
            i == pre.table.spec_shard_of(hash),
            s == pre.table.shard_entries(i),
            0 <= i < pre.table.spec_shard_count(),
            crate::table::same_outside_shard(&pre.table, &self.table, i),
            self.table.tables.wf(),
            0 <= j < s.len(),
            s[j].1.0 == *key,
            r == Some((s[j].1.0, s[j].1.1)),
            self.table.shard_entries(i) == s.update(j, s.last()).drop_last(),
        ensures
            self.wf(),
            pre.spec_get(key) == Some(s[j].1.1),
            self.spec_get(key) is None,
            forall|k2: &K| !(*k2 == *key) ==> self.spec_get(k2) == pre.spec_get(k2),
            self.spec_len() == pre.spec_len() - 1,
            self.table.spec_entries().to_multiset() == pre.table.spec_entries().to_multiset()
                .remove((key.hash_spec(), (s[j].1.0, s[j].1.1))),
    {
        let post = self.table.shard_entries(i);
        let n = pre.table.spec_shard_count();
        assert(forall|k: int|
            0 <= k < n && k != i ==> (#[trigger] self.table.shard_entries(k)) == pre
                .table.shard_entries(k));
        assert(forall|m: int|
            0 <= m < s.len() ==> (#[trigger] s[m]).0 == s[m].1.0.hash_spec());
        assert(forall|m: int|
            0 <= m < post.len() ==> post[m] == (if m == j {
                s.last()
            } else {
                #[trigger] s[m]
            }));
        lemma_find_key_at(s, *key, j);
        assert forall|m: int| 0 <= m < post.len() implies (#[trigger] post[m]).0
            == post[m].1.0.hash_spec() by {}
        assert(distinct_keys(post)) by {
            assert forall|m1: int, m2: int| 0 <= m1 < m2 < post.len() implies !((
            #[trigger] post[m1]).1.0 == (#[trigger] post[m2]).1.0) by {}
        }
        assert forall|k: int, m: int|
            0 <= k < self.table.spec_shard_count() && 0 <= m < self.table.shard_entries(
                k,
            ).len() implies self.table.spec_shard_of(
            #[trigger] self.table.shard_entries(k)[m].0) == k by {
            if k != i {
                assert(self.table.shard_entries(k) == pre.table.shard_entries(k));
            }
        }
        assert(self.wf());
        assert forall|m: int| 0 <= m < post.len() implies !((#[trigger] post[m]).1.0 == *key) by {
            if m == j {
                assert(post[j].1.0 == s.last().1.0);
                if s.len() - 1 != j {
                    assert(!(s[j].1.0 == s[s.len() - 1].1.0));
                }
            }
        }
        lemma_find_key_absent(post, *key);
        assert forall|k2: &K| !(*k2 == *key) implies self.spec_get(k2) == pre.spec_get(k2) by {
            let i2 = pre.table.spec_shard_of(k2.hash_spec());
            pre.table.tables.lemma_shard_of_in_range(k2.hash_spec());
            if i2 != i {
                assert(self.table.shard_entries(i2) == pre.table.shard_entries(i2));
            } else {
                if pre.spec_get(k2) is Some {
                    lemma_find_key_witness(s, *k2);
                    let m = choose|m: int|
                        0 <= m < s.len() && (#[trigger] s[m]).1.0 == *k2 && find_key_in(s, *k2)
                            == Some(s[m].1.1);
                    assert(m != j);
                    if m == s.len() - 1 {
                        assert(post[j] == s[m]);
                        lemma_find_key_at(post, *k2, j);
                    } else {
                        assert(post[m] == s[m]);
                        lemma_find_key_at(post, *k2, m);
                    }
                } else {
                    assert forall|m: int| 0 <= m < s.len() implies !((#[trigger] s[m]).1.0
                        == *k2) by {
                        if s[m].1.0 == *k2 {
                            lemma_find_key_at(s, *k2, m);
                        }
                    }
                    assert forall|m: int| 0 <= m < post.len() implies !((#[trigger] post[m]).1.0
                        == *k2) by {}
                    lemma_find_key_absent(post, *k2);
                }
            }
        }
        crate::table::lemma_flat_len_change(&pre.table, &self.table, i, -1, n);
        crate::table::lemma_flat_multiset_swap_remove(&pre.table, &self.table, i, j, n);
        assert(s[j] == (key.hash_spec(), (s[j].1.0, s[j].1.1)));
    }

    /// Fetches the total number of entries in the map.
    pub fn len(&self) -> (r: usize)
        requires
            self.wf(),
            self.spec_len() <= usize::MAX,
        ensures
            r == self.spec_len(),
    {
        self.table.len()
    }

    /// Checks if the map is empty.
    pub fn is_empty(&self) -> (r: bool)
        requires
            self.wf(),
            self.spec_len() <= usize::MAX,
        ensures
            r == (self.spec_len() == 0),
    {
        self.table.is_empty()
    }

    /// Removes every entry.
    pub fn clear(&mut self)
        requires
            old(self).wf(),
        ensures
            final(self).wf(),
            final(self).spec_len() == 0,
            forall|k: &K| final(self).spec_get(k) is None,
            final(self).table.spec_shard_count() == old(self).table.spec_shard_count(),
    {
        self.table.clear();
        proof {
            assert forall|k: &K| self.spec_get(k) is None by {
                self.table.tables.lemma_shard_of_in_range(k.hash_spec());
                lemma_find_key_absent(self.key_shard(k), *k);
            }
        }
    }
}

/// `out` is `s` with each value replaced by what one call of `f` on the
/// entry's key and old value produced; keys and hashes are unchanged.
pub open spec fn altered_shard<K, V, F: Fn(&K, V) -> V>(
    s: Seq<(u64, (K, V))>,
    out: Seq<(u64, (K, V))>,
    f: F,
) -> bool {
    &&& out.len() == s.len()
    &&& forall|m: int|
        0 <= m < s.len() ==> (#[trigger] out[m]).0 == s[m].0 && out[m].1.0 == s[m].1.0
            && call_ensures(f, (&s[m].1.0, s[m].1.1), out[m].1.1)
}

/// One shard's alteration pass: rebuild the entries with each value passed
/// through `f`, keys and order kept.
fn alter_sub<K, V, F: Fn(&K, V) -> V>(sub: &mut crate::table::SubTable<(K, V)>, f: &F)
    requires
        forall|k: &K, v: V| #[trigger] call_requires(*f, (k, v)),
    ensures
        final(sub).cap == old(sub).cap,
        altered_shard(old(sub).entries@, final(sub).entries@, *f),
{
    let ghost s = old(sub).entries@;
    let mut drained: Vec<(u64, (K, V))> = Vec::new();
    core::mem::swap(&mut drained, &mut sub.entries);
    let mut reversed = crate::table::reverse_vec(drained);
    proof {
        assert(s.skip(0) =~= s);
        assert(reversed@ =~= s.skip((s.len() - reversed.len()) as int).reverse());
    }
    let mut rebuilt: Vec<(u64, (K, V))> = Vec::new();
    while reversed.len() > 0
        invariant
            forall|k: &K, v: V| #[trigger] call_requires(*f, (k, v)),
            reversed@ == s.skip((s.len() - reversed.len()) as int).reverse(),
            reversed.len() <= s.len(),
            rebuilt.len() == s.len() - reversed.len(),
            forall|m: int|
                0 <= m < rebuilt.len() ==> (#[trigger] rebuilt@[m]).0 == s[m].0
                    && rebuilt@[m].1.0 == s[m].1.0 && call_ensures(
                    *f,
                    (&s[m].1.0, s[m].1.1),
                    rebuilt@[m].1.1,
                ),
        decreases reversed.len(),
    {
        let ghost j = s.len() - reversed.len();
        proof {
            assert(reversed@.last() == s.skip(j as int).reverse().last());
            assert(s.skip(j as int).reverse().last() == s.skip(j as int)[(s.len() - j - 1) - (
            s.len() - j - 1)]);
            assert(reversed@.last() == s[j as int]);
        }
        let e = reversed.pop().unwrap();
        let (h, kv) = e;
        let (k, v) = kv;
        let nv = f(&k, v);
        rebuilt.push((h, (k, nv)));
        proof {
            assert(reversed@ =~= s.skip((s.len() - reversed.len()) as int).reverse()) by {
                let m = s.len() - reversed.len();
                let t = s.skip(m as int).reverse();
                assert forall|x: int| 0 <= x < reversed@.len() implies reversed@[x] == t[x] by {
                    assert(t[x] == s.skip(m as int)[s.len() - m - 1 - x]);
                    assert(reversed@[x] == s.skip(j as int).reverse()[x]);
                    assert(s.skip(j as int).reverse()[x] == s.skip(j as int)[s.len() - j - 1 - x]);
                }
            }
        }
    }
    sub.entries = rebuilt;
}

/// Two tables with equally long shards have equally long flattenings.
proof fn lemma_flat_len_eq<T>(pre: &ClashTable<T>, post: &ClashTable<T>, n: int)
    requires
        pre.spec_shard_count() == post.spec_shard_count(),
        0 <= n <= pre.spec_shard_count(),
        forall|k: int|
            0 <= k < pre.spec_shard_count() ==> (#[trigger] post.shard_entries(k)).len()
                == pre.shard_entries(k).len(),
    ensures
        post.flat_up_to(n).len() == pre.flat_up_to(n).len(),
    decreases n,
{
    if n > 0 {
        lemma_flat_len_eq(pre, post, n - 1);
    }
}

/// The key-value pairs a shard or a flattening stores, hashes dropped.
pub open spec fn stored_pairs<K, V>(s: Seq<(u64, (K, V))>) -> Seq<(K, V)> {
    s.map_values(|e: (u64, (K, V))| e.1)
}

/// Mapping a function over two sequences with equal multisets yields equal
/// multisets again.
pub proof fn lemma_map_values_multiset<A, B>(s1: Seq<A>, s2: Seq<A>, f: spec_fn(A) -> B)
    requires
        s1.to_multiset() == s2.to_multiset(),
    ensures
        s1.map_values(f).to_multiset() == s2.map_values(f).to_multiset(),
    decreases s1.len(),
{
    broadcast use vstd::seq_lib::group_to_multiset_ensures;
    broadcast use vstd::multiset::group_multiset_axioms;
    broadcast use vstd::multiset::lemma_multiset_empty_len;

    vstd::seq_lib::to_multiset_len(s1);
    vstd::seq_lib::to_multiset_len(s2);
    if s1.len() == 0 {
        assert(s1.map_values(f) =~= Seq::<B>::empty());
        assert(s2.map_values(f) =~= Seq::<B>::empty());
        assert(s1.map_values(f).to_multiset() =~= s2.map_values(f).to_multiset());
    } else {
        let a = s1.last();
        assert(s1.to_multiset().count(a) > 0) by {
            assert(s1 =~= s1.drop_last().push(a));
            vstd::seq_lib::to_multiset_build(s1.drop_last(), a);
        }
        assert(s2.to_multiset().count(a) > 0);
        assert(s2.contains(a));
        let k = choose|k: int| 0 <= k < s2.len() && s2[k] == a;
        let s2r = s2.remove(k);
        vstd::seq_lib::to_multiset_remove(s2, k);
        assert(s2r.to_multiset() =~= s2.to_multiset().remove(a));
        assert(s1.drop_last().to_multiset() =~= s1.to_multiset().remove(a)) by {
            assert(s1 =~= s1.drop_last().push(a));
            vstd::seq_lib::to_multiset_build(s1.drop_last(), a);
            assert forall|x: A|
                s1.drop_last().to_multiset().count(x) == s1.to_multiset().remove(a).count(
                    x,
                ) by {}
        }
        lemma_map_values_multiset(s1.drop_last(), s2r, f);
        assert(s1.map_values(f) =~= s1.drop_last().map_values(f).push(f(a)));
        vstd::seq_lib::to_multiset_build(s1.drop_last().map_values(f), f(a));
        assert(s2r.map_values(f) =~= s2.map_values(f).remove(k));
        vstd::seq_lib::to_multiset_remove(s2.map_values(f), k);
        assert(s2.map_values(f)[k] == f(a));
        assert(s1.map_values(f).to_multiset() =~= s2.map_values(f).to_multiset()) by {
            let m1 = s1.drop_last().map_values(f).to_multiset();
            let m2 = s2.map_values(f).to_multiset();
            assert(s1.map_values(f).to_multiset() == m1.insert(f(a)));
            assert(m1 =~= m2.remove(f(a)));
            assert(m2.count(f(a)) > 0) by {
                assert(s2.map_values(f).contains(f(a)));
            }
            assert forall|x: B| m1.insert(f(a)).count(x) == m2.count(x) by {}
        }
    }
}

/// Mapping a function over a sequence that gained one element yields a
/// multiset that gained the element's image.
pub proof fn lemma_map_values_multiset_insert<A, B>(
    s1: Seq<A>,
    s2: Seq<A>,
    e: A,
    f: spec_fn(A) -> B,
)
    requires
        s1.to_multiset() == s2.to_multiset().insert(e),
    ensures
        s1.map_values(f).to_multiset() == s2.map_values(f).to_multiset().insert(f(e)),
{
    broadcast use vstd::seq_lib::group_to_multiset_ensures;

    vstd::seq_lib::to_multiset_build(s2, e);
    lemma_map_values_multiset(s1, s2.push(e), f);
    assert(s2.push(e).map_values(f) =~= s2.map_values(f).push(f(e)));
    vstd::seq_lib::to_multiset_build(s2.map_values(f), f(e));
}

/// Draining preserves the pairs: what comes out of an owning walk is, as a
/// multiset, exactly what was put in, hashes dropped on both sides.
pub proof fn lemma_round_trip_multiset<K, V>(
    input: Seq<(K, V)>,
    stored: Seq<(u64, (K, V))>,
    drained: Seq<(u64, (K, V))>,
)
    requires
        stored_pairs(stored).to_multiset() == input.to_multiset(),
        drained.to_multiset() == stored.to_multiset(),
    ensures
        stored_pairs(drained).to_multiset() == input.to_multiset(),
{
    lemma_map_values_multiset(drained, stored, |e: (u64, (K, V))| e.1);
}

/// Inserting a pair makes it readable: the map insertion hands back
/// guarantees that the key now holds exactly the inserted value, and any
/// later operation that leaves the key alone keeps it.
pub proof fn lemma_insert_reads_back<K: HashKey + PartialEq, V>(
    post: &ClashMap<K, V>,
    key: &K,
    value: V,
)
    requires
        post.spec_get(key) == Some(value),
    ensures
        post.spec_contains(key),
        post.spec_get(key) == Some(value),
{
}

/// An operation that promises to leave every key but `touched` alone keeps
/// every other stored pair readable, with its value.
pub proof fn lemma_get_preserved<K: HashKey + PartialEq, V>(
    pre: &ClashMap<K, V>,
    post: &ClashMap<K, V>,
    touched: &K,
    key: &K,
    value: V,
)
    requires
        pre.spec_get(key) == Some(value),
        !(*key == *touched),
        forall|k2: &K| !(*k2 == *touched) ==> post.spec_get(k2) == pre.spec_get(k2),
    ensures
        post.spec_get(key) == Some(value),
{
}

/// Inserting a pair the map already holds changes nothing: the second
/// insertion's guarantees, started from a map that already reads the pair
/// back, pin every observation to its previous value.
pub proof fn lemma_insert_idempotent<K: HashKey + PartialEq, V>(
    m1: &ClashMap<K, V>,
    m2: &ClashMap<K, V>,
    key: K,
    value: V,
    r2: Option<V>,
)
    requires
        m1.spec_get(&key) == Some(value),
        r2 == m1.spec_get(&key),
        m2.spec_get(&key) == Some(value),
        forall|k2: &K| !(*k2 == key) ==> m2.spec_get(k2) == m1.spec_get(k2),
        m2.spec_len() == m1.spec_len() + (if r2 is None {
            1int
        } else {
            0int
        }),
    ensures
        forall|k2: &K| m2.spec_get(k2) == m1.spec_get(k2),
        m2.spec_len() == m1.spec_len(),
{
    assert forall|k2: &K| m2.spec_get(k2) == m1.spec_get(k2) by {
        if *k2 == key {
            assert(m2.spec_get(k2) == m2.spec_get(&key));
        }
    }
}

/// The entry count tracks successful insertions and removals: a fresh
/// insertion adds one, removing it takes one away, and the count returns to
/// where it started. This is one step of each kind; the quiescent
/// "insertions minus removals" count over a whole run follows by induction
/// over the operation sequence, each step being one of these deltas.
pub proof fn lemma_len_counts<K: HashKey + PartialEq, V>(
    m0: &ClashMap<K, V>,
    m1: &ClashMap<K, V>,
    m2: &ClashMap<K, V>,
    r1: Option<V>,
    r2: Option<(K, V)>,
)
    requires
        r1 is None,
        m1.spec_len() == m0.spec_len() + (if r1 is None {
            1int
        } else {
            0int
        }),
        r2 is Some,
        m2.spec_len() == m1.spec_len() - 1,
    ensures
        m1.spec_len() == m0.spec_len() + 1,
        m2.spec_len() == m0.spec_len(),
{
}

} // verus!
