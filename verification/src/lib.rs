//! Region-based memory allocators: a bump allocator, a stack allocator and a
//! pool allocator, each carving allocations out of one zero-initialised arena.
//!
//! An allocation is identified by its byte offset inside the arena's region;
//! the region's first byte is offset `0`, and alignment is reckoned from it.

pub mod arenas;
pub mod layout;
