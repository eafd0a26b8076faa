use std::collections::hash_map::RandomState;
use std::hash::{BuildHasher, Hash, Hasher};

use clashmap::table::ClashTable;
use clashmap::try_result::TryResult;

fn hash_one(s: &impl BuildHasher, h: impl Hash) -> u64 {
    let mut s = s.build_hasher();
    h.hash(&mut s);
    s.finish()
}

#[test]
fn iter_iter_mut_manual_count() {
    let mut table = ClashTable::new();
    let hasher = RandomState::new();

    table
        .entry(hash_one(&hasher, "Johnny"), |&t| t == "Johnny")
        .or_insert("Johnny");

    assert_eq!(table.len(), 1);

    let mut c = 0;

    for cell in table.tables.shards() {
        c += cell.read().entries.len();
    }

    assert_eq!(c, 1);
}

#[test]
fn iter_into_iter_count() {
    let mut table = ClashTable::new();
    let hasher = RandomState::new();

    table
        .entry(hash_one(&hasher, "Johnny"), |&t| t == "Johnny")
        .or_insert("Johnny");

    let mut it = clashmap::tableref::iter::OwningIter::new(table);
    let mut c = 0;
    while it.next().is_some() {
        c += 1;
    }

    assert_eq!(c, 1);
}

#[test]
fn iter_iter_count() {
    let mut table = ClashTable::new();
    let hasher = RandomState::new();

    table
        .entry(hash_one(&hasher, "Johnny"), |&t| t == "Johnny")
        .or_insert("Johnny");

    assert_eq!(table.len(), 1);

    let mut it = clashmap::tableref::iter::Iter::new(&table);
    let mut c = 0;
    while it.next().is_some() {
        c += 1;
    }
    assert_eq!(c, 1);
}

#[test]
fn iter_iter_clone() {
    let mut table = ClashTable::new();
    let hasher = RandomState::new();

    table
        .entry(hash_one(&hasher, "Johnny"), |&t| t == "Johnny")
        .or_insert("Johnny");
    table
        .entry(hash_one(&hasher, "Chucky"), |&t| t == "Chucky")
        .or_insert("Chucky");

    let mut iter = clashmap::tableref::iter::Iter::new(&table);
    iter.next();

    let mut iter2 = iter.clone();

    let mut c1 = 0;
    while iter.next().is_some() {
        c1 += 1;
    }
    let mut c2 = 0;
    while iter2.next().is_some() {
        c2 += 1;
    }
    assert_eq!(c1, 1);
    assert_eq!(c2, 1);
}

#[test]
fn one_downgrade() {
    let mut data = ClashTable::new();
    let hasher = RandomState::new();

    data.entry(hash_one(&hasher, "test"), |&t| t == "test")
        .or_insert("test");

    let mut w_ref = data
        .find_mut(hash_one(&hasher, "test"), |&t| t == "test")
        .unwrap();

    *w_ref.t = "test2";
    let r_ref = w_ref.downgrade();
    assert_eq!(*r_ref.value(), "test2");
}

#[test]
fn one_mapped_mut() {
    let mut data = ClashTable::new();
    let hasher = RandomState::new();

    data.entry(hash_one(&hasher, *b"test"), |&t| t == *b"test")
        .or_insert(*b"test");

    let b_ref = data
        .find_mut(hash_one(&hasher, *b"test"), |&t| t == *b"test")
        .unwrap();

    let s_ref = b_ref
        .try_map(|b| std::str::from_utf8(b).is_ok(), |b| b)
        .ok()
        .unwrap();
    s_ref.t.make_ascii_uppercase();
}

#[test]
fn find_and_try_find() {
    let mut table: ClashTable<u64> = ClashTable::new();
    table.entry(42, |&t| t == 420).or_insert(420);
    assert_eq!(*table.find(42, |&t| t == 420).unwrap().value(), 420);
    assert!(table.find(42, |&t| t == 7).is_none());
    assert!(matches!(
        table.try_find(42, |&t| t == 420),
        TryResult::Present(_)
    ));
    assert!(table.try_find(43, |&t| t == 430).is_absent());
    match table.try_find_mut(42, |&t| t == 420) {
        TryResult::Present(h) => {
            *h.t += 1;
        }
        _ => panic!("expected the entry to be present"),
    }
    assert_eq!(*table.find(42, |&t| t == 421).unwrap().value(), 421);
}

#[test]
fn retain_keeps_only_accepted_entries() {
    let mut table: ClashTable<u64> = ClashTable::new();
    for i in 0..10u64 {
        table.entry(i, |&t| t == i).or_insert(i);
    }
    assert_eq!(table.len(), 10);
    table.retain(|&t| t % 2 == 0);
    assert_eq!(table.len(), 5);
    assert!(table.find(3, |&t| t == 3).is_none());
    assert_eq!(*table.find(4, |&t| t == 4).unwrap().value(), 4);
    table.clear();
    assert!(table.is_empty());
}

#[test]
fn capacity_reserve_and_shrink() {
    let mut table: ClashTable<u64> = ClashTable::with_capacity_and_shard_amount(64, 4);
    assert_eq!(table.capacity(), 64);
    assert!(table.try_reserve(8).is_ok());
    assert!(table.capacity() >= 32);
    table.shrink_to_fit();
    assert_eq!(table.capacity(), 0);
    table.entry(1, |&t| t == 1).or_insert(1);
    table.shrink_to_fit();
    assert_eq!(table.capacity(), 1);
}

#[test]
fn entry_mut_inserts_and_removes() {
    let mut table: ClashTable<(u64, u64)> = ClashTable::with_shard_amount(2);
    match table.entry_mut(5, |t| t.0 == 5) {
        clashmap::tableref::entrymut::EntryMut::Vacant(v) => {
            let slot = v.insert((5, 50));
            assert_eq!(*slot, (5, 50));
        }
        clashmap::tableref::entrymut::EntryMut::Occupied(_) => {
            panic!("expected the slot to be vacant")
        }
    }
    match table.entry_mut(5, |t| t.0 == 5) {
        clashmap::tableref::entrymut::EntryMut::Occupied(o) => {
            assert_eq!(o.remove(), (5, 50));
        }
        clashmap::tableref::entrymut::EntryMut::Vacant(_) => {
            panic!("expected the slot to be occupied")
        }
    }
    assert!(table.is_empty());
}

#[test]
fn find_entry_splits_by_presence() {
    let mut table: ClashTable<u64> = ClashTable::new();
    assert!(table.find_entry(9, |&t| t == 9).is_err());
    table.entry(9, |&t| t == 9).or_insert(9);
    match table.find_entry(9, |&t| t == 9) {
        Ok(o) => assert_eq!(*o.get(), 9),
        Err(_) => panic!("expected the entry to be found"),
    }
}

#[test]
fn shard_accessors_agree() {
    let mut table: ClashTable<u64> = ClashTable::with_shard_amount(4);
    table.entry(1, |&t| t == 1).or_insert(1);
    let total: usize = table.shards().iter().map(|c| c.read().entries.len()).sum();
    assert_eq!(total, 1);
    assert!(table.tables.try_read_shard(1).is_some());
    assert!(table.tables.try_write_shard(1).is_some());
    let cells = table.into_shards();
    assert_eq!(cells.len(), 4);
}

#[test]
fn iter_iter_mut_count() {
    let mut table = ClashTable::new();
    let hasher = RandomState::new();

    table
        .entry(hash_one(&hasher, "Johnny"), |&t| t == "Johnny")
        .or_insert("Johnny");

    assert_eq!(table.len(), 1);

    let visited = std::cell::Cell::new(0usize);
    table.retain(|_t| {
        visited.set(visited.get() + 1);
        true
    });
    assert_eq!(visited.get(), 1);
    assert_eq!(table.len(), 1);
}

#[test]
fn table_and_modify_runs_only_when_occupied() {
    let mut table: ClashTable<u64> = ClashTable::new();
    table.entry(6, |&t| t == 60).or_insert(60);
    match table
        .entry(6, |&t| t >= 60)
        .and_modify(|t| *t += 1)
    {
        clashmap::tableref::entrymut::EntryMut::Occupied(o) => assert_eq!(*o.get(), 61),
        clashmap::tableref::entrymut::EntryMut::Vacant(_) => {
            panic!("expected the slot to be occupied")
        }
    }
    let untouched = table.entry(7, |&t| t == 70).and_modify(|t| *t += 1);
    assert!(matches!(
        untouched,
        clashmap::tableref::entrymut::EntryMut::Vacant(_)
    ));
    assert_eq!(table.len(), 1);
    assert_eq!(*table.find(6, |&t| t == 61).unwrap().value(), 61);
}

#[test]
fn occupied_get_mut_writes_through() {
    let mut table: ClashTable<u64> = ClashTable::new();
    table.entry(8, |&t| t == 80).or_insert(80);
    match table.find_entry(8, |&t| t == 80) {
        Ok(mut o) => {
            *o.get_mut() += 5;
            assert_eq!(*o.get(), 85);
        }
        Err(_) => panic!("expected the entry to be found"),
    }
    assert_eq!(*table.find(8, |&t| t == 85).unwrap().value(), 85);
}

#[test]
fn shards_mut_reaches_the_cells() {
    let mut table: ClashTable<u64> = ClashTable::with_shard_amount(4);
    table.entry(1, |&t| t == 1).or_insert(1);
    let mut seen = 0;
    for cell in table.shards_mut() {
        seen += cell.write().entries.len();
    }
    assert_eq!(seen, 1);
    assert_eq!(table.len(), 1);
}

#[test]
fn try_reserve_failure_keeps_earlier_promises() {
    let mut table: ClashTable<u64> = ClashTable::with_shard_amount(2);
    // one entry routed to the second shard: with two shards the dispatch
    // reads the hash bit just below the seven reserved tag bits
    let h = 1u64 << 56;
    table.entry(h, |&t| t == 9).or_insert(9);
    assert_eq!(table.determine_shard(h), 1);
    // the first shard (empty) accepts the huge reservation; the second
    // overflows, and the first keeps its enlarged promise (no rollback)
    assert!(table.try_reserve(usize::MAX).is_err());
    assert_eq!(table.shards()[0].read().cap, usize::MAX);
    assert_eq!(table.shards()[1].read().cap, 0);
    assert_eq!(*table.find(h, |&t| t == 9).unwrap().value(), 9);
}
