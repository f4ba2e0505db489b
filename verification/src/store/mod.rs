//! The typed stores: what a storage and a transaction offer for each kind of
//! model.

pub mod doublekey_map;
pub mod laws;
pub mod map;
pub mod tx;
pub mod utils;
pub mod value;
pub mod vec;

pub use doublekey_map::{DoubleKeyMapStore, DoubleKeyState};
pub use map::MapStore;
pub use value::ValueStore;
pub use vec::{VecState, VecStore};
