use clashmap::alias::{Aliasor, DoClone, DoCopy};
use clashmap::map::{bytes_hash, HashKey};
use clashmap::mapref::multiple::{RefMulti, RefMutMulti};
use clashmap::node::{metadata_len, node_cap, Node, Slot};
use clashmap::sharded::ClashCollection;
use clashmap::try_result::TryResult;

#[test]
fn node_sizes_follow_the_two_bit_budget() {
    assert_eq!(node_cap(0), 1);
    assert_eq!(node_cap(2), 4);
    assert_eq!(node_cap(10), 1024);
    assert_eq!(metadata_len(0), 0);
    assert_eq!(metadata_len(2), 1);
    assert_eq!(metadata_len(10), 256);
}

#[test]
fn fresh_node_is_all_empty() {
    let node: Node<u64> = Node::new(3);
    assert_eq!(node.slots.len(), 8);
    assert_eq!(node.metadata.len(), 2);
    for slot in &node.slots {
        assert!(matches!(slot, Slot::Empty));
    }
}

#[test]
fn aliasors_duplicate_runs() {
    let src = vec![1u64, 2, 3];
    let copied = DoCopy::alias(&src);
    assert_eq!(copied, src);
    let strings = vec!["a".to_string(), "b".to_string()];
    let cloned = DoClone::alias(&strings);
    assert_eq!(cloned, strings);
}

#[test]
fn byte_hash_is_a_pure_function() {
    let a = bytes_hash(b"Johnny");
    let b = bytes_hash(b"Johnny");
    assert_eq!(a, b);
    assert_ne!(bytes_hash(b"Johnny"), bytes_hash(b"Chucky"));
    assert_eq!("Johnny".hash_key(), bytes_hash(b"Johnny"));
    assert_eq!(String::from("Johnny").hash_key(), "Johnny".hash_key());
}

#[test]
fn integer_hashing_is_stable() {
    assert_eq!(5u64.hash_key(), 5);
    assert_eq!(5u32.hash_key(), 5);
    assert_eq!((-1i32).hash_key(), (-1i32) as u64);
}

#[test]
fn try_result_accessors() {
    let p: TryResult<u64> = TryResult::Present(3);
    assert!(p.is_present());
    assert!(!p.is_absent());
    assert!(!p.is_locked());
    assert_eq!(p.unwrap(), 3);
    let a: TryResult<u64> = TryResult::Absent;
    assert!(a.is_absent());
    let l: TryResult<u64> = TryResult::Locked;
    assert!(l.is_locked());
}

#[test]
fn multi_handles_expose_the_pair() {
    let k = 7u64;
    let mut v = 70u64;
    {
        let mut h = RefMutMulti::new(&k, &mut v);
        assert_eq!(*h.key(), 7);
        assert_eq!(*h.value(), 70);
        *h.value_mut() += 1;
        let (hk, hv) = h.pair_mut();
        assert_eq!(*hk, 7);
        *hv += 1;
    }
    assert_eq!(v, 72);
    let shared = RefMulti::new(&k, &v);
    let copy = shared;
    assert_eq!(copy.pair(), (&7, &72));
    assert_eq!(*shared.value(), 72);
}

#[test]
fn set_handles_expose_the_key() {
    let k = "element";
    let unit = ();
    let inner = RefMulti::new(&k, &unit);
    let h = clashmap::setref::multiple::RefMulti::new(inner);
    assert_eq!(*h.key(), "element");
}

#[test]
fn collection_dispatch_is_total_and_stable() {
    let coll: ClashCollection<u64> = ClashCollection::with_shard_amount(8, || 0u64);
    for hash in [0u64, 1, u64::MAX, 0xdead_beef, 1 << 57] {
        let a = coll.determine_shard(hash);
        let b = coll.determine_shard(hash);
        assert_eq!(a, b);
        assert!(a < 8);
    }
}
