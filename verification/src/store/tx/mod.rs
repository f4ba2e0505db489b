//! The typed stores of a transaction.

pub mod doublekey_map;
pub mod map;
pub mod value;
pub mod vec;
