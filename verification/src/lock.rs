//! The per-shard reader-writer lock, as a verified state machine.
//!
//! The lock state is a single 64-bit word. The two low bits are flags: bit 0
//! records that readers are parked, bit 1 that writers are parked. The
//! remaining high bits count readers in units of `ONE_READER`; the word in
//! which *every* high bit is set (`ONE_WRITER`) denotes a writer holding the
//! lock. State `0` is an unlocked lock with nobody parked.
//!
//! Under concurrency these transitions run as compare-and-swap loops with
//! kernel-assisted parking, which verified code cannot express. This module
//! therefore verifies two faces of the same machine:
//!
//! * methods on [`RawRwLock`] perform the transitions directly on the word,
//!   which is their effect in any execution where they do not have to wait;
//! * the step functions ([`lock_exclusive_step`], [`lock_shared_step`], the
//!   park validators and the wake decisions) are the pure decision logic of
//!   the slow paths, so an unverified shell can run the loop "observe word,
//!   compute step, apply it atomically" without re-deriving any of the rules.
//!
//! The lock is deliberately unfair to writers: when both classes are parked,
//! releasing a writer wakes all readers first ([`unlock_exclusive_wake`]).

use vstd::prelude::*;

verus! {

/// Low bit set while some reader is parked waiting for the lock.
pub const READERS_PARKED: u64 = 0b0001;

/// Low bit set while some writer is parked waiting for the lock.
pub const WRITERS_PARKED: u64 = 0b0010;

/// One unit of the reader count (the count lives in the high 62 bits).
pub const ONE_READER: u64 = 0b0100;

/// The reader-count field with every bit set: a writer holds the lock.
pub const ONE_WRITER: u64 = !(READERS_PARKED | WRITERS_PARKED);

/// Largest admissible reader count: one less than the all-ones pattern that
/// denotes a writer, so that an increment can never be mistaken for one.
pub const MAX_READERS: u64 = 0x3FFF_FFFF_FFFF_FFFE;

/// A writer holds the lock: every bit of the reader-count field is set.
pub open spec fn is_writer_locked(s: u64) -> bool {
    s & ONE_WRITER == ONE_WRITER
}

/// The reader count stored in the high bits (meaningful when no writer holds
/// the lock).
pub open spec fn reader_count(s: u64) -> u64 {
    s >> 2u64
}

/// Some reader is parked on this lock.
pub open spec fn readers_parked(s: u64) -> bool {
    s & READERS_PARKED != 0
}

/// Some writer is parked on this lock.
pub open spec fn writers_parked(s: u64) -> bool {
    s & WRITERS_PARKED != 0
}

/// A reader may enter: no writer holds the lock and the count has room.
pub open spec fn can_lock_shared(s: u64) -> bool {
    !is_writer_locked(s) && reader_count(s) < MAX_READERS
}

/// A writer may enter: no writer holds the lock and no reader is inside.
/// (Parked-waiter flags do not block acquisition.)
pub open spec fn can_lock_exclusive(s: u64) -> bool {
    s & ONE_WRITER == 0
}

/// Which class of parked threads a release hands the lock to.
#[derive(Clone, Copy, PartialEq, Eq, Debug)]
pub enum Wake {
    /// Nobody is parked; nothing to wake.
    Nobody,
    /// Wake every parked reader.
    AllReaders,
    /// Wake a single parked writer.
    OneWriter,
}

/// One decision of a slow-path acquisition loop, computed from an observed
/// state word. `CasAcquire` and `CasSetParked` carry the word the loop should
/// install by compare-and-swap.
#[derive(Clone, Copy, PartialEq, Eq, Debug)]
pub enum LockStep {
    /// The lock can be taken now; install this word with acquire ordering.
    CasAcquire(u64),
    /// The lock is contended; install this word (which only sets the parked
    /// flag of the waiting class) and then park.
    CasSetParked(u64),
    /// The parked flag is already set; park on the class's address.
    Park,
    /// The reader count is at capacity; entering would corrupt the encoding.
    Overflowed,
}

/// The per-shard reader-writer lock word.
#[derive(Clone)]
pub struct RawRwLock {
    /// The state word. Under concurrency this is a single atomic word.
    pub state: u64,
}

impl RawRwLock {
    /// A fresh lock: unlocked, nobody parked.
    pub fn new() -> (r: Self)
        ensures
            r.state == 0,
    {
        RawRwLock { state: 0 }
    }

    /// Try to enter as a writer without waiting: succeeds exactly on the
    /// zero word and installs the all-ones reader field.
    pub fn try_lock_exclusive(&mut self) -> (r: bool)
        ensures
            r == (old(self).state == 0),
            r ==> final(self).state == ONE_WRITER,
            !r ==> final(self).state == old(self).state,
            r ==> is_writer_locked(final(self).state),
    {
        if self.state == 0 {
            self.state = ONE_WRITER;
            proof {
                assert(is_writer_locked(ONE_WRITER)) by (bit_vector);
            }
            true
        } else {
            false
        }
    }

    /// Enter as a writer. The caller must know that no reader and no writer
    /// holds the lock (the concurrent slow path waits for this state; a
    /// single-threaded caller that violates it would deadlock). Parked-waiter
    /// flags are preserved, as the slow path's acquire-with mask does.
    pub fn lock_exclusive(&mut self)
        requires
            can_lock_exclusive(old(self).state),
        ensures
            final(self).state == old(self).state | ONE_WRITER,
            is_writer_locked(final(self).state),
            readers_parked(final(self).state) == readers_parked(old(self).state),
            writers_parked(final(self).state) == writers_parked(old(self).state),
    {
        let s = self.state;
        self.state = s | ONE_WRITER;
        proof {
            assert(is_writer_locked(s | ONE_WRITER) && readers_parked(s | ONE_WRITER)
                == readers_parked(s) && writers_parked(s | ONE_WRITER) == writers_parked(s))
                by (bit_vector);
        }
    }

    /// Release the writer lock. When only one class is parked the word drops
    /// to zero and that class is woken; when both are parked the word keeps
    /// the writers-parked flag and the readers are woken first (the
    /// deliberate unfairness toward writers). [`unlock_exclusive_wake`]
    /// computes who is woken.
    pub fn unlock_exclusive(&mut self)
        requires
            is_writer_locked(old(self).state),
        ensures
            final(self).state == if readers_parked(old(self).state) && writers_parked(
                old(self).state,
            ) {
                WRITERS_PARKED
            } else {
                0
            },
            !is_writer_locked(final(self).state),
            reader_count(final(self).state) == 0,
    {
        let parked = self.state & (READERS_PARKED | WRITERS_PARKED);
        proof {
            let s = self.state;
            assert((s & (READERS_PARKED | WRITERS_PARKED) == (READERS_PARKED | WRITERS_PARKED))
                == (readers_parked(s) && writers_parked(s))) by (bit_vector);
            assert(!is_writer_locked(0u64) && !is_writer_locked(WRITERS_PARKED) && reader_count(0u64)
                == 0 && reader_count(WRITERS_PARKED) == 0) by (bit_vector);
        }
        if parked == READERS_PARKED | WRITERS_PARKED {
            self.state = WRITERS_PARKED;
        } else {
            self.state = 0;
        }
    }

    /// The fast path of shared acquisition: add one reader unless a writer
    /// holds the lock or the count is full.
    pub fn try_lock_shared_fast(&mut self) -> (r: bool)
        ensures
            r == can_lock_shared(old(self).state),
            r ==> final(self).state == old(self).state + ONE_READER,
            !r ==> final(self).state == old(self).state,
            r ==> !is_writer_locked(final(self).state) && reader_count(final(self).state)
                == reader_count(old(self).state) + 1,
            r ==> readers_parked(final(self).state) == readers_parked(old(self).state)
                && writers_parked(final(self).state) == writers_parked(old(self).state),
    {
        let s = self.state;
        proof {
            lemma_shared_increment(s);
        }
        if let Some(new_state) = s.checked_add(ONE_READER) {
            if new_state & ONE_WRITER != ONE_WRITER {
                self.state = new_state;
                return true;
            }
        }
        false
    }

    /// The slow path of non-blocking shared acquisition. Concurrently this
    /// retries the compare-and-swap until it is no longer pre-empted; absent
    /// interference the retry collapses to a single attempt, with the same
    /// outcome as the fast path.
    pub fn try_lock_shared_slow(&mut self) -> (r: bool)
        ensures
            r == can_lock_shared(old(self).state),
            r ==> final(self).state == old(self).state + ONE_READER,
            !r ==> final(self).state == old(self).state,
    {
        let s = self.state;
        proof {
            lemma_shared_increment(s);
        }
        if let Some(new_state) = s.checked_add(ONE_READER) {
            if new_state & ONE_WRITER == ONE_WRITER {
                return false;
            }
            self.state = new_state;
            return true;
        }
        false
    }

    /// Try to enter as a reader without waiting.
    pub fn try_lock_shared(&mut self) -> (r: bool)
        ensures
            r == can_lock_shared(old(self).state),
            r ==> final(self).state == old(self).state + ONE_READER,
            !r ==> final(self).state == old(self).state,
    {
        if self.try_lock_shared_fast() {
            return true;
        }
        self.try_lock_shared_slow()
    }

    /// Enter as a reader. The caller must know that no writer holds the lock
    /// and the reader count has room (the concurrent slow path waits for the
    /// writer to leave, and aborts the process on reader-count overflow; both
    /// situations are excluded here by the precondition).
    pub fn lock_shared(&mut self)
        requires
            can_lock_shared(old(self).state),
        ensures
            final(self).state == old(self).state + ONE_READER,
            !is_writer_locked(final(self).state),
            reader_count(final(self).state) == reader_count(old(self).state) + 1,
            readers_parked(final(self).state) == readers_parked(old(self).state),
            writers_parked(final(self).state) == writers_parked(old(self).state),
    {
        let entered = self.try_lock_shared_fast();
        assert(entered);
    }

    /// Release a reader. The word loses one reader unit; when the last
    /// reader leaves while a writer is parked, the parked flag is consumed
    /// and the word drops to zero as that writer is woken
    /// ([`unlock_shared_wakes_writer`]).
    pub fn unlock_shared(&mut self)
        requires
            !is_writer_locked(old(self).state),
            reader_count(old(self).state) >= 1,
        ensures
            final(self).state == if old(self).state == ONE_READER | WRITERS_PARKED {
                0
            } else {
                old(self).state - ONE_READER
            },
            !is_writer_locked(final(self).state),
            old(self).state != ONE_READER | WRITERS_PARKED ==> reader_count(final(self).state)
                == reader_count(old(self).state) - 1,
    {
        let prev = self.state;
        proof {
            let s = prev;
            assert(!is_writer_locked(s) && reader_count(s) >= 1 ==> s >= ONE_READER && reader_count(
                (s - ONE_READER) as u64,
            ) == reader_count(s) - 1 && !is_writer_locked((s - ONE_READER) as u64)) by (bit_vector);
            assert(!is_writer_locked(0u64)) by (bit_vector);
        }
        self.state = prev - ONE_READER;
        if prev == ONE_READER | WRITERS_PARKED {
            self.state = 0;
        }
    }

    /// Atomically demote the writer to a single reader: the word is replaced
    /// by one reader unit plus the preserved writers-parked flag, so no other
    /// writer can slip in between. Parked readers are woken
    /// ([`downgrade_wakes_readers`]) and the readers-parked flag cleared.
    pub fn downgrade(&mut self)
        requires
            is_writer_locked(old(self).state),
        ensures
            final(self).state == ONE_READER | (old(self).state & WRITERS_PARKED),
            !is_writer_locked(final(self).state),
            reader_count(final(self).state) == 1,
            !readers_parked(final(self).state),
            writers_parked(final(self).state) == writers_parked(old(self).state),
    {
        let s = self.state;
        self.state = ONE_READER | (s & WRITERS_PARKED);
        proof {
            assert({
                let n = ONE_READER | (s & WRITERS_PARKED);
                !is_writer_locked(n) && reader_count(n) == 1 && !readers_parked(n)
                    && writers_parked(n) == writers_parked(s)
            }) by (bit_vector);
        }
    }
}

/// Who a writer release hands the lock to, as a pure function of the word it
/// observed: readers are preferred whenever any reader is parked, which is
/// the documented unfairness toward writers.
pub fn unlock_exclusive_wake(s: u64) -> (r: Wake)
    requires
        is_writer_locked(s),
    ensures
        r == Wake::AllReaders <==> readers_parked(s),
        r == Wake::OneWriter <==> (!readers_parked(s) && writers_parked(s)),
        r == Wake::Nobody <==> (!readers_parked(s) && !writers_parked(s)),
{
    if s & READERS_PARKED != 0 {
        Wake::AllReaders
    } else if s & WRITERS_PARKED != 0 {
        Wake::OneWriter
    } else {
        Wake::Nobody
    }
}

/// A reader release wakes one parked writer exactly when it observed itself
/// to be the last reader with a writer parked and nobody else waiting.
pub fn unlock_shared_wakes_writer(s: u64) -> (r: bool)
    ensures
        r == (s == ONE_READER | WRITERS_PARKED),
{
    s == ONE_READER | WRITERS_PARKED
}

/// A downgrade wakes the parked readers exactly when the readers-parked flag
/// was set in the writer-held word.
pub fn downgrade_wakes_readers(s: u64) -> (r: bool)
    ensures
        r == readers_parked(s),
{
    s & READERS_PARKED != 0
}

/// One decision of the exclusive slow path. `acquire_with` is zero before
/// the first park and `WRITERS_PARKED` afterwards, so that a writer that was
/// woken re-acquires with the flag still set and the next release knows to
/// unpark its peers.
pub fn lock_exclusive_step(s: u64, acquire_with: u64) -> (r: LockStep)
    requires
        acquire_with == 0 || acquire_with == WRITERS_PARKED,
    ensures
        can_lock_exclusive(s) ==> r == LockStep::CasAcquire(s | ONE_WRITER | acquire_with),
        !can_lock_exclusive(s) && !writers_parked(s) ==> r == LockStep::CasSetParked(
            s | WRITERS_PARKED,
        ),
        !can_lock_exclusive(s) && writers_parked(s) ==> r == LockStep::Park,
        r matches LockStep::CasAcquire(t) ==> is_writer_locked(t),
        r matches LockStep::CasSetParked(t) ==> writers_parked(t) && (is_writer_locked(t)
            == is_writer_locked(s)) && reader_count(t) == reader_count(s),
{
    proof {
        let a = acquire_with;
        assert(a == 0 || a == WRITERS_PARKED ==> is_writer_locked(s | ONE_WRITER | a))
            by (bit_vector);
        assert(writers_parked(s | WRITERS_PARKED) && is_writer_locked(s | WRITERS_PARKED)
            == is_writer_locked(s) && reader_count(s | WRITERS_PARKED) == reader_count(s))
            by (bit_vector);
    }
    if s & ONE_WRITER == 0 {
        LockStep::CasAcquire(s | ONE_WRITER | acquire_with)
    } else if s & WRITERS_PARKED == 0 {
        LockStep::CasSetParked(s | WRITERS_PARKED)
    } else {
        LockStep::Park
    }
}

/// The park validation a writer runs under the queue lock: sleep only while
/// a writer holds the lock and the writers-parked flag is still set.
pub fn writer_park_validate(s: u64) -> (r: bool)
    ensures
        r == (s & ONE_WRITER != 0 && writers_parked(s)),
{
    (s & ONE_WRITER != 0) && (s & WRITERS_PARKED != 0)
}

/// One decision of the shared slow path: enter when there is room, report
/// overflow at capacity (the concurrent path aborts rather than corrupt the
/// count), otherwise set the readers-parked flag and park.
pub fn lock_shared_step(s: u64) -> (r: LockStep)
    ensures
        can_lock_shared(s) ==> r == LockStep::CasAcquire((s + ONE_READER) as u64),
        !is_writer_locked(s) && reader_count(s) >= MAX_READERS ==> r == LockStep::Overflowed,
        is_writer_locked(s) && !readers_parked(s) ==> r == LockStep::CasSetParked(
            s | READERS_PARKED,
        ),
        is_writer_locked(s) && readers_parked(s) ==> r == LockStep::Park,
        r matches LockStep::CasAcquire(t) ==> !is_writer_locked(t) && reader_count(t)
            == reader_count(s) + 1,
{
    proof {
        lemma_shared_increment(s);
        assert(is_writer_locked(s) ==> s > u64::MAX - ONE_READER) by (bit_vector);
        assert(!is_writer_locked(s) ==> s <= u64::MAX - ONE_READER) by (bit_vector);
        assert(readers_parked(s | READERS_PARKED) && is_writer_locked(s | READERS_PARKED)
            == is_writer_locked(s)) by (bit_vector);
    }
    if let Some(new_state) = s.checked_add(ONE_READER) {
        if new_state & ONE_WRITER == ONE_WRITER {
            LockStep::Overflowed
        } else {
            LockStep::CasAcquire(new_state)
        }
    } else if s & READERS_PARKED == 0 {
        LockStep::CasSetParked(s | READERS_PARKED)
    } else {
        LockStep::Park
    }
}

/// The park validation a reader runs under the queue lock: sleep only while
/// a writer holds the lock and the readers-parked flag is still set.
pub fn reader_park_validate(s: u64) -> (r: bool)
    ensures
        r == (is_writer_locked(s) && readers_parked(s)),
{
    (s & ONE_WRITER == ONE_WRITER) && (s & READERS_PARKED != 0)
}

/// How adding one reader unit behaves on any non-writer word: the checked
/// addition, the flag bits, and the count all decompose as expected.
proof fn lemma_shared_increment(s: u64)
    ensures
        can_lock_shared(s) <==> (s <= u64::MAX - ONE_READER && (s + ONE_READER) as u64 & ONE_WRITER
            != ONE_WRITER),
        s <= u64::MAX - ONE_READER ==> {
            let n = (s + ONE_READER) as u64;
            &&& reader_count(n) == reader_count(s) + 1
            &&& readers_parked(n) == readers_parked(s)
            &&& writers_parked(n) == writers_parked(s)
            &&& (n & ONE_WRITER != ONE_WRITER ==> !is_writer_locked(n))
        },
{
    assert((can_lock_shared(s) <==> (s <= u64::MAX - ONE_READER && (s + ONE_READER) as u64
        & ONE_WRITER != ONE_WRITER)) && (s <= u64::MAX - ONE_READER ==> {
        let n = (s + ONE_READER) as u64;
        &&& reader_count(n) == reader_count(s) + 1
        &&& readers_parked(n) == readers_parked(s)
        &&& writers_parked(n) == writers_parked(s)
        &&& (n & ONE_WRITER != ONE_WRITER ==> !is_writer_locked(n))
    })) by (bit_vector);
}

/// At reader capacity a further shared acquisition is refused rather than
/// wrapped into the writer pattern: the count never silently becomes the
/// all-ones writer encoding. (The non-blocking paths return false here; the
/// blocking slow path reports [`LockStep::Overflowed`] and the concurrent
/// shell aborts on it.)
pub proof fn lemma_shared_refused_at_capacity(s: u64)
    requires
        !is_writer_locked(s),
        reader_count(s) >= MAX_READERS,
    ensures
        !can_lock_shared(s),
{
}

/// Readers are admitted while writers wait: whether writers are parked has
/// no bearing on a reader's admission, which needs only the writer slot
/// free and room in the count (a machine-limit bound). This is the
/// deliberate unfairness toward writers.
pub proof fn lemma_reader_admitted_past_parked_writers(s: u64)
    requires
        !is_writer_locked(s),
        reader_count(s) < MAX_READERS,
    ensures
        can_lock_shared(s),
        can_lock_shared(s | WRITERS_PARKED),
{
    assert(!is_writer_locked(s) && reader_count(s) < MAX_READERS ==> (!is_writer_locked(
        s | WRITERS_PARKED,
    ) && reader_count(s | WRITERS_PARKED) < MAX_READERS)) by (bit_vector);
}

/// Mutual exclusion, seen from the writer's side: while a writer holds the
/// lock no reader can enter and the word is never the unlocked zero, so no
/// second writer can enter either.
pub proof fn lemma_writer_excludes_all(s: u64)
    ensures
        is_writer_locked(s) ==> !can_lock_shared(s) && s != 0 && !can_lock_exclusive(s),
{
    assert(is_writer_locked(s) ==> !can_lock_shared(s) && s != 0 && !can_lock_exclusive(s))
        by (bit_vector);
}

/// Mutual exclusion, seen from the readers' side: while any reader is inside
/// a writer cannot enter.
pub proof fn lemma_readers_exclude_writer(s: u64)
    ensures
        reader_count(s) > 0 ==> !can_lock_exclusive(s),
{
    assert(reader_count(s) > 0 ==> !can_lock_exclusive(s)) by (bit_vector);
}

} // verus!
