//! Memory layouts.

pub mod memory;

pub use memory::MemoryLayout;
