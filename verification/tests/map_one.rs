use clashmap::map::ClashMap;

#[test]
fn downgrade() {
    let mut data = ClashMap::new();
    data.insert("test", "test");
    if let Some(mut w_ref) = data.get_mut(&"test") {
        *w_ref.value_mut() = "test2";
        let r_ref = w_ref.downgrade();
        assert_eq!(*r_ref.value(), "test2");
    };
}

#[test]
fn mapped_mut() {
    let mut data = ClashMap::new();
    data.insert("test", *b"test");
    if let Some(b_ref) = data.get_mut(&"test") {
        let mut s_ref = b_ref
            .try_map(|b| std::str::from_utf8(b).is_ok(), |b| b)
            .ok()
            .unwrap();
        s_ref.value_mut().make_ascii_uppercase();
    }

    assert_eq!(data.get(&"test").unwrap().value(), b"TEST");
}

#[test]
fn mapped_mut_again() {
    let mut data = ClashMap::new();
    data.insert("test", *b"hello world");
    if let Some(b_ref) = data.get_mut(&"test") {
        let s_ref = b_ref
            .try_map(|b| std::str::from_utf8(b).is_ok(), |b| b)
            .ok()
            .unwrap();
        let mut hello_ref = s_ref
            .try_map(|b| b.get(..5).is_some(), |b| (&mut b[..5]).try_into().unwrap())
            .ok()
            .unwrap();
        let hello: &mut [u8; 5] = hello_ref.value_mut();
        hello.make_ascii_uppercase();
    }

    assert_eq!(data.get(&"test").unwrap().value(), b"HELLO world");
}

#[test]
fn mapped_ref() {
    let mut data = ClashMap::new();
    data.insert("test", *b"test");
    if let Some(b_ref) = data.get(&"test") {
        let s_ref = b_ref
            .try_map(|b| if std::str::from_utf8(b).is_ok() { Some(b) } else { None })
            .ok()
            .unwrap();

        assert_eq!(std::str::from_utf8(s_ref.value()).unwrap(), "test");
    };
}

#[test]
fn mapped_ref_again() {
    let mut data = ClashMap::new();
    data.insert("test", *b"hello world");
    if let Some(b_ref) = data.get(&"test") {
        let s_ref = b_ref
            .try_map(|b| if std::str::from_utf8(b).is_ok() { Some(b) } else { None })
            .ok()
            .unwrap();
        let hello_ref = s_ref
            .try_map(|b| b[..5].try_into().ok())
            .ok()
            .unwrap();
        let hello: &[u8; 5] = hello_ref.value();

        assert_eq!(std::str::from_utf8(hello).unwrap(), "hello");
    };
}

#[test]
fn try_map_failure_preserves_the_handle() {
    let mut data = ClashMap::new();
    data.insert(1u64, 7u64);
    let w_ref = data.get_mut(&1).unwrap();
    // a projection that never applies hands the original handle back
    let failed = w_ref.try_map(|_v| false, |v| v);
    match failed {
        Err(orig) => {
            assert_eq!(*orig.key(), 1);
            assert_eq!(*orig.value(), 7);
        }
        Ok(_) => panic!("the projection test returned false"),
    }
}

#[test]
fn handle_accessors_agree() {
    let mut data = ClashMap::new();
    data.insert(5u64, 55u64);
    {
        let mut w = data.get_mut(&5).unwrap();
        assert_eq!(*w.key(), 5);
        assert_eq!(*w.value(), 55);
        let (k, v) = w.pair_mut();
        assert_eq!(*k, 5);
        *v += 1;
    }
    let r = data.get(&5).unwrap();
    assert_eq!(r.pair(), (&5, &56));
}

#[test]
fn try_map_can_be_retried_after_failure() {
    let mut data = ClashMap::new();
    data.insert(2u64, 40u64);
    let w_ref = data.get_mut(&2).unwrap();
    let w_ref = match w_ref.try_map(|v| *v > 100, |v| v) {
        Err(orig) => orig,
        Ok(_) => panic!("the first projection test returned false"),
    };
    // the failed projection handed the handle back with the entry intact,
    // so a second attempt with a satisfied test goes through
    let mut s_ref = w_ref.try_map(|v| *v > 10, |v| v).ok().unwrap();
    *s_ref.value_mut() += 1;
    drop(s_ref);
    assert_eq!(*data.get(&2).unwrap().value(), 41);
}
