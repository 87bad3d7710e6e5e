pub mod arena;
pub mod bump_allocator;
pub mod pool_allocator;
pub mod stack_allocator;
