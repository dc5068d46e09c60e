//! Virtual-to-physical translation and paged, typed memory access over a
//! raw physical-memory backend.

pub mod address;
pub mod arch;
pub mod codec;
pub mod mem;
pub mod page_chunks;
pub mod plugin;
pub mod translate;
pub mod typed;
pub mod virt;
