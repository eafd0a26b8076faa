//! Reference handles scoped to one entry of a [`ClashTable`](crate::table::ClashTable).

pub mod entrymut;
pub mod iter;
pub mod multiple;
pub mod one;
