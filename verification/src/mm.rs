//! Virtual memory: addresses and the region table of an address space.

pub mod address;
pub mod memory_set;

pub use address::VirtAddr;
pub use memory_set::{MapArea, MapError, MemorySet};
