use clashmap::lock::{
    lock_exclusive_step, lock_shared_step, reader_park_validate, unlock_exclusive_wake,
    unlock_shared_wakes_writer, writer_park_validate, LockStep, RawRwLock, Wake, MAX_READERS,
    ONE_READER, ONE_WRITER, READERS_PARKED, WRITERS_PARKED,
};

#[test]
fn writer_round_trip() {
    let mut l = RawRwLock::new();
    assert_eq!(l.state, 0);
    assert!(l.try_lock_exclusive());
    assert_eq!(l.state, ONE_WRITER);
    assert!(!l.try_lock_exclusive());
    assert!(!l.try_lock_shared());
    l.unlock_exclusive();
    assert_eq!(l.state, 0);
}

#[test]
fn readers_coexist_and_block_writers() {
    let mut l = RawRwLock::new();
    assert!(l.try_lock_shared());
    assert!(l.try_lock_shared());
    assert_eq!(l.state, 2 * ONE_READER);
    assert!(!l.try_lock_exclusive());
    l.unlock_shared();
    assert!(!l.try_lock_exclusive());
    l.unlock_shared();
    assert!(l.try_lock_exclusive());
}

#[test]
fn downgrade_is_atomic_to_one_reader() {
    let mut l = RawRwLock::new();
    l.lock_exclusive();
    l.downgrade();
    assert_eq!(l.state, ONE_READER);
    // another reader may join; no writer can slip in
    assert!(l.try_lock_shared());
    assert!(!l.try_lock_exclusive());
    l.unlock_shared();
    l.unlock_shared();
    assert_eq!(l.state, 0);
}

#[test]
fn downgrade_keeps_writers_parked_flag() {
    let mut l = RawRwLock::new();
    l.state = ONE_WRITER | WRITERS_PARKED | READERS_PARKED;
    l.downgrade();
    assert_eq!(l.state, ONE_READER | WRITERS_PARKED);
}

#[test]
fn reader_count_at_capacity_refuses_more() {
    let mut l = RawRwLock::new();
    l.state = MAX_READERS << 2;
    assert!(!l.try_lock_shared());
    assert_eq!(l.state, MAX_READERS << 2);
    // the blocking slow path reports the overflow instead of wrapping into
    // the writer pattern
    assert!(matches!(lock_shared_step(l.state), LockStep::Overflowed));
    // one below capacity still admits one reader
    let mut l2 = RawRwLock::new();
    l2.state = (MAX_READERS - 1) << 2;
    assert!(l2.try_lock_shared());
    assert!(!l2.try_lock_shared());
}

#[test]
fn release_prefers_parked_readers() {
    // both classes parked: readers are woken first and the writers stay
    // parked, which is the documented unfairness toward writers
    assert_eq!(
        unlock_exclusive_wake(ONE_WRITER | READERS_PARKED | WRITERS_PARKED),
        Wake::AllReaders
    );
    assert_eq!(unlock_exclusive_wake(ONE_WRITER | READERS_PARKED), Wake::AllReaders);
    assert_eq!(unlock_exclusive_wake(ONE_WRITER | WRITERS_PARKED), Wake::OneWriter);
    assert_eq!(unlock_exclusive_wake(ONE_WRITER), Wake::Nobody);
}

#[test]
fn unlock_exclusive_state_outcomes() {
    let mut l = RawRwLock::new();
    l.state = ONE_WRITER | READERS_PARKED | WRITERS_PARKED;
    l.unlock_exclusive();
    assert_eq!(l.state, WRITERS_PARKED);
    let mut l2 = RawRwLock::new();
    l2.state = ONE_WRITER | READERS_PARKED;
    l2.unlock_exclusive();
    assert_eq!(l2.state, 0);
}

#[test]
fn last_reader_wakes_parked_writer() {
    assert!(unlock_shared_wakes_writer(ONE_READER | WRITERS_PARKED));
    assert!(!unlock_shared_wakes_writer(2 * ONE_READER | WRITERS_PARKED));
    let mut l = RawRwLock::new();
    l.state = ONE_READER | WRITERS_PARKED;
    l.unlock_shared();
    assert_eq!(l.state, 0);
}

#[test]
fn exclusive_slow_path_steps() {
    assert_eq!(lock_exclusive_step(0, 0), LockStep::CasAcquire(ONE_WRITER));
    assert_eq!(
        lock_exclusive_step(0, WRITERS_PARKED),
        LockStep::CasAcquire(ONE_WRITER | WRITERS_PARKED)
    );
    assert_eq!(
        lock_exclusive_step(ONE_READER, 0),
        LockStep::CasSetParked(ONE_READER | WRITERS_PARKED)
    );
    assert_eq!(lock_exclusive_step(ONE_READER | WRITERS_PARKED, 0), LockStep::Park);
    assert!(writer_park_validate(ONE_WRITER | WRITERS_PARKED));
    assert!(!writer_park_validate(ONE_WRITER));
    assert!(!writer_park_validate(WRITERS_PARKED));
}

#[test]
fn shared_slow_path_steps() {
    assert_eq!(lock_shared_step(0), LockStep::CasAcquire(ONE_READER));
    assert_eq!(
        lock_shared_step(ONE_WRITER),
        LockStep::CasSetParked(ONE_WRITER | READERS_PARKED)
    );
    assert_eq!(lock_shared_step(ONE_WRITER | READERS_PARKED), LockStep::Park);
    assert!(reader_park_validate(ONE_WRITER | READERS_PARKED));
    assert!(!reader_park_validate(READERS_PARKED));
}
