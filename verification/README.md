# arenas

Region-based allocators, verified with Verus:

- `src/layout.rs`: `Layout`, a size with a power-of-two alignment.
- `src/arenas/arena.rs`: `Arena`, a zeroed region with a tracker, and the
  padding arithmetic shared by the allocators.
- `src/arenas/bump_allocator.rs`: `BumpAlloc`, allocations only go forward.
- `src/arenas/stack_allocator.rs`: `StackAlloc`, which can pop its last allocation.
- `src/arenas/pool_allocator.rs`: `PoolAlloc`, fixed-size blocks that are handed
  out and freed in any order.
- `app/lib.rs`: console logging around the allocators.

Allocations are byte offsets into the arena's region; `Arena::write` and
`Arena::read` move bytes in and out of it.
