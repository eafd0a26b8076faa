//! Reference handles scoped to one key-value entry of a
//! [`ClashMap`](crate::map::ClashMap).

pub mod entry;
pub mod entry_ref;
pub mod multiple;
pub mod one;
