//! A read-only view of a map: the shard locks are unwrapped, leaving the
//! bare sub-tables, so values can be borrowed directly and indefinitely.

use vstd::prelude::*;

use vstd::std_specs::cmp::PartialEqSpec;

use crate::map::{ClashMap, HashKey, distinct_keys, find_key_in, lemma_find_key_at,
    lemma_find_key_absent, obeys_key_model, stored_pairs};
use crate::sharded::{ClashCollection, RwLock};
use crate::table::{ClashTable, SubTable};

verus! {

/// A read-only view: the shift and the bare sub-tables, in shard order.
#[derive(Clone)]
pub struct ReadOnlyView<K, V> {
    /// `64 - log2(shard count)`, as in the map.
    pub shift: u64,
    /// The shards' sub-tables, locks removed.
    pub shards: Vec<SubTable<(K, V)>>,
}

impl<K: HashKey + PartialEq, V> ReadOnlyView<K, V> {
    /// The shard a key's hash routes to.
    pub open spec fn spec_shard_of(&self, hash: u64) -> int {
        ((hash << 7u64) >> self.shift) as int
    }

    /// The entries of shard `i`.
    pub open spec fn shard_entries(&self, i: int) -> Seq<(u64, (K, V))> {
        self.shards@[i].entries@
    }

    /// The value stored under `k`, if any.
    pub open spec fn spec_get(&self, k: &K) -> Option<V> {
        find_key_in(self.shard_entries(self.spec_shard_of(k.hash_spec())), *k)
    }

    /// The number of entries of the first `n` shards.
    pub open spec fn len_up_to(&self, n: int) -> int
        decreases n,
    {
        if n <= 0 {
            0
        } else {
            self.len_up_to(n - 1) + self.shard_entries(n - 1).len()
        }
    }

    /// The number of entries of the view.
    pub open spec fn spec_len(&self) -> int {
        self.len_up_to(self.shards@.len() as int)
    }

    /// The key-value pairs of the first `n` shards, in shard-then-slot
    /// order, hashes dropped.
    pub open spec fn pairs_up_to(&self, n: int) -> Seq<(K, V)>
        decreases n,
    {
        if n <= 0 {
            Seq::empty()
        } else {
            self.pairs_up_to(n - 1) + stored_pairs(self.shard_entries(n - 1))
        }
    }

    /// All key-value pairs of the view, in shard-then-slot order.
    pub open spec fn spec_pairs(&self) -> Seq<(K, V)> {
        self.pairs_up_to(self.shards@.len() as int)
    }

    /// The reserved capacity of the first `n` shards.
    pub open spec fn cap_up_to(&self, n: int) -> int
        decreases n,
    {
        if n <= 0 {
            0
        } else {
            self.cap_up_to(n - 1) + self.shards@[n - 1].cap
        }
    }

    /// Well-formed: the same shape and invariants as the map the view came
    /// from.
    pub open spec fn wf(&self) -> bool {
        &&& 1 <= self.shift < 64
        &&& self.shards.len() as u64 == (1u64 << ((64 - self.shift) as u64))
        &&& forall|i: int, j: int|
            0 <= i < self.shards@.len() && 0 <= j < self.shard_entries(i).len() ==> (
            #[trigger] self.shard_entries(i)[j]).0 == self.shard_entries(i)[j].1.0.hash_spec()
                && self.spec_shard_of(self.shard_entries(i)[j].0) == i
        &&& forall|i: int|
            0 <= i < self.shards@.len() ==> distinct_keys(#[trigger] self.shard_entries(i))
    }

    /// The key's shard index is in range.
    pub proof fn lemma_shard_in_range(&self, hash: u64)
        requires
            self.wf(),
        ensures
            0 <= self.spec_shard_of(hash) < self.shards@.len(),
    {
        let shift = self.shift;
        assert(1 <= shift < 64 ==> ((hash << 7u64) >> shift) < (1u64 << ((64 - shift) as u64)))
            by (bit_vector);
    }

    /// Returns the number of entries of the view.
    pub fn len(&self) -> (r: usize)
        requires
            self.wf(),
            self.spec_len() <= usize::MAX,
        ensures
            r == self.spec_len(),
    {
        let n = self.shards.len();
        let mut acc: usize = 0;
        let mut i: usize = 0;
        while i < n
            invariant
                self.wf(),
                self.spec_len() <= usize::MAX,
                n == self.shards@.len(),
                i <= n,
                acc == self.len_up_to(i as int),
            decreases n - i,
        {
            proof {
                lemma_view_len_monotone(self, i + 1 as int, n as int);
            }
            acc = acc + self.shards[i].entries.len();
            i += 1;
        }
        acc
    }

    /// Whether the view is empty.
    pub fn is_empty(&self) -> (r: bool)
        requires
            self.wf(),
            self.spec_len() <= usize::MAX,
        ensures
            r == (self.spec_len() == 0),
    {
        self.len() == 0
    }

    /// The reserved capacity of the view.
    pub fn capacity(&self) -> (r: usize)
        requires
            self.wf(),
            self.cap_up_to(self.shards@.len() as int) <= usize::MAX,
        ensures
            r == self.cap_up_to(self.shards@.len() as int),
    {
        let n = self.shards.len();
        let mut acc: usize = 0;
        let mut i: usize = 0;
        while i < n
            invariant
                self.wf(),
                self.cap_up_to(self.shards@.len() as int) <= usize::MAX,
                n == self.shards@.len(),
                i <= n,
                acc == self.cap_up_to(i as int),
            decreases n - i,
        {
            proof {
                lemma_view_cap_monotone(self, i + 1 as int, n as int);
            }
            acc = acc + self.shards[i].cap;
            i += 1;
        }
        acc
    }

    /// The key-value pair stored under `key`, if any.
    pub fn get_key_value<'a>(&'a self, key: &K) -> (r: Option<(&'a K, &'a V)>)
        requires
            self.wf(),
            obeys_key_model::<K>(),
        ensures
            match r {
                Some(kv) => self.spec_get(key) == Some(*kv.1) && *kv.0 == *key,
                None => self.spec_get(key) is None,
            },
    {
        let hash = key.hash_key();
        let idx = ((hash << 7u64) >> self.shift) as usize;
        proof {
            let shift = self.shift;
            assert(1 <= shift < 64 ==> ((hash << 7u64) >> shift) < (1u64 << ((64 - shift)
                as u64))) by (bit_vector);
            assert(idx as int == self.spec_shard_of(hash));
            assert(idx as int == self.spec_shard_of(key.hash_spec()));
            assert(idx < self.shards@.len());
        }
        let sub = &self.shards[idx];
        let ghost s = sub.entries@;
        proof {
            assert(s == self.shard_entries(self.spec_shard_of(key.hash_spec())));
            assert(distinct_keys(s));
        }
        let n = sub.entries.len();
        let mut j: usize = 0;
        while j < n
            invariant
                self.wf(),
                obeys_key_model::<K>(),
                s == sub.entries@,
                sub == &self.shards@[self.spec_shard_of(key.hash_spec())],
                n == s.len(),
                j <= n,
                hash == key.hash_spec(),
                distinct_keys(s),
                forall|m: int|
                    0 <= m < s.len() ==> (#[trigger] s[m]).0 == s[m].1.0.hash_spec(),
                forall|m: int| 0 <= m < j ==> !((#[trigger] s[m]).1.0 == *key),
            decreases n - j,
        {
            let e = &sub.entries[j];
            let ghost jj = j as int;
            if e.0 == hash {
                if e.1.0.eq(key) {
                    proof {
                        assert(distinct_keys(s));
                        lemma_find_key_at(s, *key, j as int);
                    }
                    return Some((&e.1.0, &e.1.1));
                }
                proof {
                    assert(!(s[jj].1.0 == *key));
                }
            } else {
                proof {
                    assert(s[jj].0 == s[jj].1.0.hash_spec());
                    if s[jj].1.0 == *key {
                        assert(s[jj].1.0.hash_spec() == key.hash_spec());
                        assert(false);
                    }
                }
            }
            j += 1;
        }
        proof {
            lemma_find_key_absent(s, *key);
        }
        None
    }

    /// The value stored under `key`, if any.
    pub fn get<'a>(&'a self, key: &K) -> (r: Option<&'a V>)
        requires
            self.wf(),
            obeys_key_model::<K>(),
        ensures
            match r {
                Some(v) => self.spec_get(key) == Some(*v),
                None => self.spec_get(key) is None,
            },
    {
        match self.get_key_value(key) {
            Some((_k, v)) => Some(v),
            None => None,
        }
    }

    /// Whether the view stores a value under `key`.
    pub fn contains_key(&self, key: &K) -> (r: bool)
        requires
            self.wf(),
            obeys_key_model::<K>(),
        ensures
            r == (self.spec_get(key) is Some),
    {
        self.get(key).is_some()
    }

    /// Every pair of the view, in shard-then-slot order: the result lists
    /// exactly [`ReadOnlyView::spec_pairs`].
    pub fn iter<'a>(&'a self) -> (r: Vec<(&'a K, &'a V)>)
        requires
            self.wf(),
            self.spec_len() <= usize::MAX,
        ensures
            r@.len() == self.spec_len(),
            forall|x: int|
                0 <= x < r@.len() ==> (*(#[trigger] r@[x]).0, *r@[x].1) == self.spec_pairs()[x],
    {
        let n = self.shards.len();
        let mut out: Vec<(&'a K, &'a V)> = Vec::new();
        let mut i: usize = 0;
        proof {
            lemma_view_pairs_len(self, n as int);
        }
        while i < n
            invariant
                self.wf(),
                self.spec_len() <= usize::MAX,
                n == self.shards@.len(),
                i <= n,
                out@.len() == self.len_up_to(i as int),
                forall|x: int|
                    0 <= x < out@.len() ==> (*(#[trigger] out@[x]).0, *out@[x].1)
                        == self.spec_pairs()[x],
            decreases n - i,
        {
            let sub = &self.shards[i];
            let m = sub.entries.len();
            let mut j: usize = 0;
            proof {
                lemma_view_len_monotone(self, i + 1 as int, n as int);
            }
            while j < m
                invariant
                    self.wf(),
                    self.spec_len() <= usize::MAX,
                    n == self.shards@.len(),
                    i < n,
                    sub == &self.shards@[i as int],
                    m == self.shard_entries(i as int).len(),
                    j <= m,
                    self.len_up_to(i + 1 as int) <= self.spec_len(),
                    out@.len() == self.len_up_to(i as int) + j,
                    forall|x: int|
                        0 <= x < out@.len() ==> (*(#[trigger] out@[x]).0, *out@[x].1)
                            == self.spec_pairs()[x],
                decreases m - j,
            {
                let e = &sub.entries[j];
                out.push((&e.1.0, &e.1.1));
                proof {
                    lemma_view_pairs_index(self, n as int, i as int, j as int);
                    lemma_view_pairs_len(self, n as int);
                }
                j += 1;
            }
            i += 1;
        }
        out
    }

    /// Every key of the view, in shard-then-slot order: the keys of
    /// [`ReadOnlyView::spec_pairs`].
    pub fn keys<'a>(&'a self) -> (r: Vec<&'a K>)
        requires
            self.wf(),
            self.spec_len() <= usize::MAX,
        ensures
            r@.len() == self.spec_len(),
            forall|x: int| 0 <= x < r@.len() ==> *(#[trigger] r@[x]) == self.spec_pairs()[x].0,
    {
        let pairs = self.iter();
        let mut out: Vec<&'a K> = Vec::new();
        let n = pairs.len();
        let mut x: usize = 0;
        while x < n
            invariant
                x <= n,
                n == pairs@.len(),
                out@.len() == x,
                forall|y: int| 0 <= y < x ==> #[trigger] out@[y] == pairs@[y].0,
            decreases n - x,
        {
            out.push(pairs[x].0);
            x += 1;
        }
        out
    }

    /// Every value of the view, in shard-then-slot order: the values of
    /// [`ReadOnlyView::spec_pairs`].
    pub fn values<'a>(&'a self) -> (r: Vec<&'a V>)
        requires
            self.wf(),
            self.spec_len() <= usize::MAX,
        ensures
            r@.len() == self.spec_len(),
            forall|x: int| 0 <= x < r@.len() ==> *(#[trigger] r@[x]) == self.spec_pairs()[x].1,
    {
        let pairs = self.iter();
        let mut out: Vec<&'a V> = Vec::new();
        let n = pairs.len();
        let mut x: usize = 0;
        while x < n
            invariant
                x <= n,
                n == pairs@.len(),
                out@.len() == x,
                forall|y: int| 0 <= y < x ==> #[trigger] out@[y] == pairs@[y].1,
            decreases n - x,
        {
            out.push(pairs[x].1);
            x += 1;
        }
        out
    }

    /// Borrow the bare sub-tables.
    pub fn shards(&self) -> (r: &Vec<SubTable<(K, V)>>)
        ensures
            r == &self.shards,
    {
        &self.shards
    }

    /// Rebuild the map the view came from: each sub-table goes back behind
    /// a fresh unlocked lock word.
    pub fn into_inner(self) -> (r: ClashMap<K, V>)
        requires
            self.wf(),
        ensures
            r.wf(),
            r.table.tables.shift == self.shift,
            r.table.tables.shards@.len() == self.shards@.len(),
            forall|i: int|
                0 <= i < self.shards@.len() ==> (#[trigger] r.table.tables.shards@[i]).data
                    == self.shards@[i] && r.table.tables.shards@[i].raw.state == 0,
    {
        let ghost vpre = self;
        let ReadOnlyView { shift, shards } = self;
        let ghost snap = shards@;
        let mut rev = crate::table::reverse_vec(shards);
        proof {
            assert(snap.skip(0) =~= snap);
            assert(rev@ =~= snap.skip((snap.len() - rev.len()) as int).reverse());
        }
        let mut cells: Vec<RwLock<SubTable<(K, V)>>> = Vec::new();
        while rev.len() > 0
            invariant
                rev.len() <= snap.len(),
                rev@ == snap.skip((snap.len() - rev.len()) as int).reverse(),
                cells@.len() == snap.len() - rev.len(),
                forall|m: int|
                    0 <= m < cells@.len() ==> (#[trigger] cells@[m]).data == snap[m]
                        && cells@[m].raw.state == 0,
            decreases rev.len(),
        {
            let ghost j = snap.len() - rev.len();
            proof {
                assert(rev@.last() == snap.skip(j as int).reverse().last());
                assert(snap.skip(j as int).reverse().last() == snap.skip(j as int)[(snap.len() - j
                    - 1) - (snap.len() - j - 1)]);
                assert(rev@.last() == snap[j as int]);
            }
            let sub = rev.pop().unwrap();
            cells.push(RwLock::new(sub));
            proof {
                assert(rev@ =~= snap.skip((snap.len() - rev.len()) as int).reverse()) by {
                    let m = snap.len() - rev.len();
                    let t = snap.skip(m as int).reverse();
                    assert forall|x: int| 0 <= x < rev@.len() implies rev@[x] == t[x] by {
                        assert(t[x] == snap.skip(m as int)[snap.len() - m - 1 - x]);
                        assert(rev@[x] == snap.skip(j as int).reverse()[x]);
                        assert(snap.skip(j as int).reverse()[x] == snap.skip(j as int)[snap.len()
                            - j - 1 - x]);
                    }
                }
            }
        }
        let r = ClashMap {
            table: ClashTable { tables: ClashCollection { shift, shards: cells } },
        };
        proof {
            assert forall|i: int, j: int|
                0 <= i < r.table.spec_shard_count() && 0 <= j < r.table.shard_entries(
                    i,
                ).len() implies (#[trigger] r.table.shard_entries(i)[j]).0
                == r.table.shard_entries(i)[j].1.0.hash_spec() && r.table.tables.spec_shard_of(
                r.table.shard_entries(i)[j].0) == i by {
                assert(r.table.shard_entries(i) == snap[i].entries@);
                assert(vpre.shard_entries(i) == snap[i].entries@);
            }
            assert forall|i: int| 0 <= i < r.table.spec_shard_count() implies distinct_keys(
                #[trigger] r.table.shard_entries(i),
            ) by {
                assert(r.table.shard_entries(i) == snap[i].entries@);
                assert(vpre.shard_entries(i) == snap[i].entries@);
            }
            assert(r.wf());
        }
        r
    }
}

/// The flattened pairs of a prefix are as many as its entries.
proof fn lemma_view_pairs_len<K: HashKey + PartialEq, V>(v: &ReadOnlyView<K, V>, n: int)
    requires
        0 <= n <= v.shards@.len(),
    ensures
        v.pairs_up_to(n).len() == v.len_up_to(n),
    decreases n,
{
    if n > 0 {
        lemma_view_pairs_len(v, n - 1);
    }
}

/// The flattened pair at a shard-and-slot position is that shard's pair.
proof fn lemma_view_pairs_index<K: HashKey + PartialEq, V>(
    v: &ReadOnlyView<K, V>,
    m: int,
    sh: int,
    pos: int,
)
    requires
        0 <= sh < m <= v.shards@.len(),
        0 <= pos < v.shard_entries(sh).len(),
    ensures
        v.pairs_up_to(m).len() > v.len_up_to(sh) + pos,
        v.pairs_up_to(m)[v.len_up_to(sh) + pos] == v.shard_entries(sh)[pos].1,
    decreases m,
{
    lemma_view_pairs_len(v, sh);
    if m == sh + 1 {
        lemma_view_pairs_len(v, sh + 1);
    } else {
        lemma_view_pairs_index(v, m - 1, sh, pos);
        lemma_view_pairs_len(v, m - 1);
    }
}

/// Entry counts grow with the prefix of shards they cover.
proof fn lemma_view_len_monotone<K: HashKey + PartialEq, V>(v: &ReadOnlyView<K, V>, n: int, m: int)
    requires
        0 <= n <= m,
    ensures
        v.len_up_to(n) <= v.len_up_to(m),
    decreases m - n,
{
    if n < m {
        lemma_view_len_monotone(v, n + 1, m);
    }
}

/// Capacity sums grow with the prefix of shards they cover.
proof fn lemma_view_cap_monotone<K: HashKey + PartialEq, V>(v: &ReadOnlyView<K, V>, n: int, m: int)
    requires
        0 <= n <= m,
    ensures
        v.cap_up_to(n) <= v.cap_up_to(m),
    decreases m - n,
{
    if n < m {
        lemma_view_cap_monotone(v, n + 1, m);
    }
}

} // verus!
