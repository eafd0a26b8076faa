use clashmap::map::ClashMap;
use clashmap::try_result::TryResult;

#[test]
fn insert_then_get_reads_back() {
    let mut map: ClashMap<u64, u64> = ClashMap::new();
    assert!(map.insert(1, 10).is_none());
    assert!(map.insert(2, 20).is_none());
    assert!(map.contains_key(&1));
    assert!(map.contains_key(&2));
    assert_eq!(*map.get(&1).unwrap().value(), 10);
    assert_eq!(*map.get(&2).unwrap().value(), 20);
    assert!(map.get(&3).is_none());
    let removed = map.remove(&1).unwrap();
    assert_eq!(removed, (1, 10));
    assert!(!map.contains_key(&1));
    assert_eq!(*map.get(&2).unwrap().value(), 20);
}

#[test]
fn insert_overwrites_and_returns_previous() {
    let mut map: ClashMap<u64, &'static str> = ClashMap::new();
    assert!(map.insert(7, "first").is_none());
    assert_eq!(map.insert(7, "second"), Some("first"));
    assert_eq!(*map.get(&7).unwrap().value(), "second");
    assert_eq!(map.len(), 1);
}

#[test]
fn repeated_insert_changes_nothing_after_the_first() {
    let mut map: ClashMap<u64, u64> = ClashMap::new();
    map.insert(5, 50);
    let before = map.len();
    assert_eq!(map.insert(5, 50), Some(50));
    assert_eq!(map.len(), before);
    assert_eq!(*map.get(&5).unwrap().value(), 50);
}

#[test]
fn len_counts_inserts_minus_removes() {
    let mut map: ClashMap<u64, u64> = ClashMap::new();
    assert_eq!(map.len(), 0);
    assert!(map.is_empty());
    for i in 0..10u64 {
        map.insert(i, i * i);
    }
    assert_eq!(map.len(), 10);
    for i in 0..4u64 {
        assert!(map.remove(&i).is_some());
    }
    assert!(map.remove(&100).is_none());
    assert_eq!(map.len(), 6);
    map.clear();
    assert_eq!(map.len(), 0);
}

#[test]
fn two_shards_route_and_serve_all_operations() {
    let mut map: ClashMap<u64, u64> = ClashMap::with_shard_amount(2);
    // with two shards the dispatch reads the hash bit just below the seven
    // reserved tag bits, so spread the keys across that bit
    let keys: Vec<u64> = (0..64u64).map(|i| (i << 51) | i).collect();
    for &k in &keys {
        assert!(map.insert(k, k + 1000).is_none());
    }
    assert_eq!(map.len(), 64);
    for &k in &keys {
        assert_eq!(*map.get(&k).unwrap().value(), k + 1000);
    }
    // the dispatch sends every hash into one of the two shards, and uses
    // both
    let mut seen = [false, false];
    for &k in &keys {
        let idx = map.table.determine_shard(k);
        assert!(idx < 2);
        seen[idx] = true;
    }
    assert!(seen[0] && seen[1]);
    for &k in &keys {
        assert!(map.remove(&k).is_some());
    }
    assert!(map.is_empty());
}

#[test]
fn string_keys_route_consistently() {
    let mut map: ClashMap<&'static str, u64> = ClashMap::new();
    map.insert("hello", 1);
    map.insert("world", 2);
    map.insert("alex", 3);
    assert_eq!(*map.get(&"hello").unwrap().value(), 1);
    assert_eq!(*map.get(&"world").unwrap().value(), 2);
    assert_eq!(*map.get(&"alex").unwrap().value(), 3);
    assert!(map.get(&"steve").is_none());
}

#[test]
fn owned_string_keys_work() {
    let mut map: ClashMap<String, u64> = ClashMap::new();
    map.insert(String::from("one"), 1);
    map.insert(String::from("two"), 2);
    assert_eq!(*map.get(&String::from("one")).unwrap().value(), 1);
    assert_eq!(map.remove(&String::from("two")).unwrap().1, 2);
    assert!(map.get(&String::from("two")).is_none());
}

#[test]
fn table_try_find_reports_presence() {
    let mut map: ClashMap<u64, u64> = ClashMap::new();
    map.insert(1, 11);
    let hash = 1u64;
    match map.table.try_find(hash, |t: &(u64, u64)| t.0 == 1) {
        TryResult::Present(h) => assert_eq!(h.t.1, 11),
        _ => panic!("expected the entry to be present"),
    }
    assert!(map.table.try_find(2, |t: &(u64, u64)| t.0 == 2).is_absent());
}

#[test]
fn from_entries_reads_every_pair_back() {
    let map = ClashMap::from_entries(vec![(1u64, 10u64), (2, 20), (3, 30)]);
    assert_eq!(map.len(), 3);
    assert_eq!(*map.get(&1).unwrap().value(), 10);
    assert_eq!(*map.get(&2).unwrap().value(), 20);
    assert_eq!(*map.get(&3).unwrap().value(), 30);
}
