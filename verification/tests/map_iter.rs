use clashmap::map::ClashMap;

#[test]
fn iter_mut_manual_count() {
    let mut map = ClashMap::new();

    map.insert("Johnny", 21);

    assert_eq!(map.len(), 1);

    let mut c = 0;

    for cell in map.table.tables.shards() {
        c += cell.read().entries.len();
    }

    assert_eq!(c, 1);
}

#[test]
fn into_iter_count() {
    let mut map = ClashMap::new();

    map.insert("Johnny", 21);

    let mut it = map.into_iter();
    let mut c = 0;
    while it.next().is_some() {
        c += 1;
    }

    assert_eq!(c, 1);
}

#[test]
fn iter_count() {
    let mut map = ClashMap::new();

    map.insert("Johnny", 21);

    assert_eq!(map.len(), 1);

    let mut it = map.iter();
    let mut c = 0;
    while it.next().is_some() {
        c += 1;
    }
    assert_eq!(c, 1);
}

#[test]
fn iter_clone() {
    let mut map = ClashMap::new();

    map.insert("Johnny", 21);
    map.insert("Chucky", 22);

    let mut iter = map.iter();
    iter.next();

    let mut iter2 = iter.clone();

    let mut c1 = 0;
    while iter.next().is_some() {
        c1 += 1;
    }
    let mut c2 = 0;
    while iter2.next().is_some() {
        c2 += 1;
    }

    assert_eq!(c1, 1);
    assert_eq!(c2, 1);
}

#[test]
fn into_iter_returns_both_pairs() {
    let mut map = ClashMap::new();
    map.insert("hello", "world");
    map.insert("alex", "steve");
    let mut it = map.into_iter();
    let mut pairs: Vec<(&'static str, &'static str)> = Vec::new();
    while let Some(p) = it.next() {
        pairs.push(p);
    }
    assert_eq!(pairs.len(), 2);
    assert!(pairs.contains(&("hello", "world")));
    assert!(pairs.contains(&("alex", "steve")));
}

#[test]
fn alter_all_bumps_every_value() {
    let mut map = ClashMap::new();
    map.insert("Johnny", 21);
    map.alter_all(|_k, v| v + 1);
    assert_eq!(*map.get(&"Johnny").unwrap().value(), 22);
}

#[test]
fn round_trip_keeps_the_pairs() {
    let original = vec![(1u64, 10u64), (2, 20), (3, 30), (4, 40)];
    let map = ClashMap::from_entries(original.clone());
    let mut it = map.into_iter();
    let mut collected: Vec<(u64, u64)> = Vec::new();
    while let Some(p) = it.next() {
        collected.push(p);
    }
    collected.sort();
    let mut expected = original;
    expected.sort();
    assert_eq!(collected, expected);
}

#[test]
fn iter_yields_inserted_pair() {
    let mut map = ClashMap::new();
    map.insert(11u64, 110u64);
    let mut it = map.iter();
    let h = it.next().unwrap();
    assert_eq!(*h.key(), 11);
    assert_eq!(*h.value(), 110);
    assert_eq!(h.pair(), (&11, &110));
    assert!(it.next().is_none());
}

#[test]
fn iter_mut_count() {
    let mut map = ClashMap::new();

    map.insert("Johnny", 21);

    assert_eq!(map.len(), 1);

    let visited = std::cell::Cell::new(0usize);
    map.alter_all(|_k, v| {
        visited.set(visited.get() + 1);
        v
    });
    assert_eq!(visited.get(), 1);
}
