//! Reference handles for set-shaped use of the map (values of unit type).

pub mod multiple;
