use clashmap::map::ClashMap;

fn construct_sample_map() -> ClashMap<i32, String> {
    let mut map = ClashMap::new();

    map.insert(1, "one".to_string());

    map.insert(10, "ten".to_string());

    map.insert(27, "twenty seven".to_string());

    map.insert(45, "forty five".to_string());

    map
}

#[test]
fn test_properties() {
    let map = construct_sample_map();

    let view = map.clone().into_read_only();

    assert_eq!(view.is_empty(), map.is_empty());

    assert_eq!(view.len(), map.len());

    assert_eq!(view.capacity(), map.table.capacity());

    let new_map = view.into_inner();

    assert_eq!(new_map.is_empty(), map.is_empty());

    assert_eq!(new_map.len(), map.len());

    assert_eq!(new_map.table.capacity(), map.table.capacity());
}

#[test]
fn test_get() {
    let map = construct_sample_map();

    let view = map.clone().into_read_only();

    for key in [1, 10, 27, 45] {
        assert!(view.contains_key(&key));

        let map_entry = map.get(&key).unwrap();

        assert_eq!(view.get(&key).unwrap(), map_entry.value());

        let key_value: (&i32, &String) = view.get_key_value(&key).unwrap();

        assert_eq!(key_value.0, map_entry.key());

        assert_eq!(key_value.1, map_entry.value());
    }
}

#[test]
fn test_iters() {
    let map = construct_sample_map();

    let view = map.clone().into_read_only();

    let mut visited_items = Vec::new();

    for (key, value) in view.iter() {
        map.contains_key(key);

        let map_entry = map.get(key).unwrap();

        assert_eq!(key, map_entry.key());

        assert_eq!(value, map_entry.value());

        visited_items.push((key, value));
    }

    let mut visited_keys = Vec::new();

    for key in view.keys() {
        map.contains_key(key);

        let map_entry = map.get(key).unwrap();

        assert_eq!(key, map_entry.key());

        assert_eq!(view.get(key).unwrap(), map_entry.value());

        visited_keys.push(key);
    }

    let mut visited_values = Vec::new();

    for value in view.values() {
        visited_values.push(value);
    }

    let mut iter = map.iter();
    while let Some(entry) = iter.next() {
        let key = entry.key();

        let value = entry.value();

        assert!(visited_keys.contains(&key));

        assert!(visited_values.contains(&value));

        assert!(visited_items.contains(&(key, value)));
    }
}
