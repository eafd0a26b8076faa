//! A sharded hash map: the key space is split across a fixed, power-of-two
//! number of independently locked sub-tables ("shards"), so that operations on
//! keys of different shards never contend.
//!
//! This crate is the verified core of such a map. Everything that can be
//! checked by the verifier is implemented and proved here: the reader-writer
//! lock's state-word encoding and its transitions, the hash-to-shard dispatch,
//! the sub-table operations, the reference handles and the entry API, and the
//! map facade. Kernel-assisted blocking (atomics, parking) cannot be expressed
//! in verified code; the lock module therefore exposes its slow-path decisions
//! as pure verified functions, and an unverified shell can run the actual
//! compare-and-swap loop around them. Within this crate the borrow checker
//! plays the role that the shard locks play under concurrency: a shared borrow
//! of the map is a reader, a mutable borrow is a writer.

use vstd::prelude::*;

pub mod alias;
pub mod iter;
pub mod lock;
pub mod map;
pub mod mapref;
pub mod node;
pub mod read_only;
pub mod setref;
pub mod sharded;
pub mod table;
pub mod tableref;
pub mod try_result;

verus! {

/// Error returned when a shard cannot reserve the requested extra capacity.
///
/// Mirrors `std::collections::TryReserveError`, which cannot be constructed
/// outside the standard library.
#[derive(Clone, PartialEq, Eq, Debug)]
pub struct TryReserveError {}

} // verus!
