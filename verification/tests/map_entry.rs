use clashmap::map::ClashMap;
use clashmap::mapref::entry::Entry;

#[test]
fn test_insert_entry_into_vacant() {
    let mut map: ClashMap<u32, u32> = ClashMap::new();

    let entry = map.entry(1);

    assert!(matches!(entry, Entry::Vacant(_)));

    let entry = entry.insert_entry(2);

    assert_eq!(*entry.get(), 2);

    drop(entry);

    assert_eq!(*map.get(&1).unwrap().value(), 2);
}

#[test]
fn test_insert_entry_into_occupied() {
    let mut map: ClashMap<u32, u32> = ClashMap::new();

    map.insert(1, 1000);

    let entry = map.entry(1);

    assert!(matches!(&entry, Entry::Occupied(entry) if *entry.get() == 1000));

    let entry = entry.insert_entry(2);

    assert_eq!(*entry.get(), 2);

    drop(entry);

    assert_eq!(*map.get(&1).unwrap().value(), 2);
}

#[test]
fn or_insert_keeps_existing_and_fills_vacant() {
    let mut map: ClashMap<u32, u32> = ClashMap::new();
    {
        let handle = map.entry(4).or_insert(40);
        assert_eq!(*handle.value(), 40);
    }
    assert_eq!(*map.get(&4).unwrap().value(), 40);
    {
        let handle = map.entry(4).or_insert(99);
        assert_eq!(*handle.value(), 40);
    }
    assert_eq!(*map.get(&4).unwrap().value(), 40);
}

#[test]
fn entry_insert_forces_the_value() {
    let mut map: ClashMap<u32, u32> = ClashMap::new();
    map.insert(9, 1);
    {
        let mut handle = map.entry(9).insert(2);
        assert_eq!(*handle.value(), 2);
        *handle.value_mut() += 5;
    }
    assert_eq!(*map.get(&9).unwrap().value(), 7);
}

#[test]
fn occupied_remove_deletes_the_entry() {
    let mut map: ClashMap<u32, u32> = ClashMap::new();
    map.insert(3, 33);
    match map.entry(3) {
        Entry::Occupied(o) => {
            assert_eq!(o.remove(), 33);
        }
        Entry::Vacant(_) => panic!("expected the key to be stored"),
    }
    assert!(map.get(&3).is_none());
    assert_eq!(map.len(), 0);
}

#[test]
fn vacant_keeps_its_key() {
    let mut map: ClashMap<u32, u32> = ClashMap::new();
    match map.entry(8) {
        Entry::Vacant(v) => {
            assert_eq!(*v.key(), 8);
            assert_eq!(v.into_key(), 8);
        }
        Entry::Occupied(_) => panic!("expected the slot to be vacant"),
    }
    assert!(map.get(&8).is_none());
}

#[test]
fn and_modify_touches_only_occupied() {
    let mut map: ClashMap<u32, u32> = ClashMap::new();
    map.insert(1, 10);
    {
        let e = map.entry(1).and_modify(|v| *v += 1);
        assert!(matches!(e, Entry::Occupied(_)));
    }
    assert_eq!(*map.get(&1).unwrap().value(), 11);
    {
        let e = map.entry(2).and_modify(|v| *v += 1);
        assert!(matches!(e, Entry::Vacant(_)));
    }
    assert!(map.get(&2).is_none());
}

#[test]
fn replace_entry_returns_previous() {
    let mut map: ClashMap<u32, u32> = ClashMap::new();
    map.insert(5, 100);
    match map.entry(5) {
        Entry::Occupied(o) => {
            assert_eq!(o.replace_entry(200), 100);
        }
        Entry::Vacant(_) => panic!("expected the key to be stored"),
    }
    assert_eq!(*map.get(&5).unwrap().value(), 200);
}

#[test]
fn or_insert_with_calls_only_when_vacant() {
    let mut map: ClashMap<u32, u32> = ClashMap::new();
    {
        let handle = map.entry(1).or_insert_with(|| 11);
        assert_eq!(*handle.value(), 11);
    }
    {
        let handle = map.entry(1).or_insert_with(|| 99);
        assert_eq!(*handle.value(), 11);
    }
}

#[test]
fn or_default_fills_with_zero() {
    let mut map: ClashMap<u32, u32> = ClashMap::new();
    {
        let handle = map.entry(2).or_default();
        assert_eq!(*handle.value(), 0);
    }
    assert_eq!(*map.get(&2).unwrap().value(), 0);
}

#[test]
fn or_try_insert_with_passes_errors_through() {
    let mut map: ClashMap<u32, u32> = ClashMap::new();
    let failed: Result<_, &'static str> = map.entry(3).or_try_insert_with(|| Err("nope"));
    assert!(failed.is_err());
    assert!(map.get(&3).is_none());
    let ok: Result<_, &'static str> = map.entry(3).or_try_insert_with(|| Ok(30));
    assert_eq!(*ok.ok().unwrap().value(), 30);
    assert_eq!(*map.get(&3).unwrap().value(), 30);
}

#[test]
fn alter_rewrites_present_and_skips_absent() {
    let mut map: ClashMap<u32, u32> = ClashMap::new();
    map.insert(1, 10);
    map.alter(&1, |_k, v| v * 2);
    assert_eq!(*map.get(&1).unwrap().value(), 20);
    map.alter(&2, |_k, v| v * 2);
    assert!(map.get(&2).is_none());
    assert_eq!(map.len(), 1);
}

#[test]
fn occupied_entry_get_mut_writes_through() {
    let mut map: ClashMap<u32, u32> = ClashMap::new();
    map.insert(6, 60);
    match map.entry(6) {
        Entry::Occupied(mut o) => {
            *o.get_mut() += 2;
            assert_eq!(*o.get(), 62);
            assert_eq!(*o.key(), 6);
        }
        Entry::Vacant(_) => panic!("expected the key to be stored"),
    }
    assert_eq!(*map.get(&6).unwrap().value(), 62);
}
