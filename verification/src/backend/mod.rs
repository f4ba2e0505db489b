//! The ordered byte store that a storage writes to.

pub mod memory;
pub mod store;

pub use memory::MemoryBackend;
pub use store::Store;
