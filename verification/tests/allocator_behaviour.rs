use arenas::arenas::arena::Arena;
use arenas::arenas::bump_allocator::BumpAlloc;
use arenas::arenas::pool_allocator::{Block, PoolAlloc, RemoveOutcome};
use arenas::arenas::stack_allocator::StackAlloc;
use arenas::layout::{is_power_of_two, Layout, LayoutError};

#[test]
fn layout_from_size_align_accepts_only_valid_pairs() {
    let l = Layout::from_size_align(24, 8).unwrap();
    assert_eq!(l.size(), 24);
    assert_eq!(l.align(), 8);
    assert_eq!(Layout::from_size_align(8, 3), Err(LayoutError));
    assert_eq!(Layout::from_size_align(8, 0), Err(LayoutError));
    assert!(Layout::from_size_align(isize::MAX as usize, 1).is_ok());
    assert_eq!(Layout::from_size_align(isize::MAX as usize + 1, 1), Err(LayoutError));
    // rounded up to the alignment, the size would pass isize::MAX
    assert_eq!(Layout::from_size_align(isize::MAX as usize, 2), Err(LayoutError));
}

#[test]
fn layout_of_types_matches_std() {
    let l = Layout::new::<u64>();
    assert_eq!(l.size(), std::mem::size_of::<u64>());
    assert_eq!(l.align(), std::mem::align_of::<u64>());
    let l = Layout::new::<[i16; 3]>();
    assert_eq!(l.size(), 6);
    assert_eq!(l.align(), 2);
}

#[test]
fn powers_of_two() {
    assert!(!is_power_of_two(0));
    assert!(is_power_of_two(1));
    assert!(is_power_of_two(64));
    assert!(!is_power_of_two(96));
    assert!(is_power_of_two(1usize << 63));
}

#[test]
fn arena_build_is_zeroed_and_empty() {
    let arena = Arena::build(16);
    assert_eq!(arena.memory, vec![0u8; 16]);
    assert_eq!(arena.used_bytes, 0);
    assert_eq!(arena.tracker, 0);
    assert_eq!(arena.remaining_space(), 16);
}

#[test]
fn bytes_to_push_counts_padding() {
    let mut arena = Arena::build(64);
    let l = Layout::from_size_align(4, 8).unwrap();
    assert_eq!(arena.bytes_to_push(&l), 4);
    arena.tracker = 1;
    arena.used_bytes = 1;
    assert_eq!(arena.bytes_to_push(&l), 7 + 4);
    arena.tracker = 8;
    arena.used_bytes = 8;
    assert_eq!(arena.bytes_to_push(&l), 4);
}

#[test]
fn arena_write_then_read() {
    let mut arena = Arena::build(8);
    arena.write(2, &[7, 8, 9]);
    assert_eq!(arena.read(0, 8), vec![0, 0, 7, 8, 9, 0, 0, 0]);
    assert_eq!(arena.read(3, 2), vec![8, 9]);
}

#[test]
fn bump_push_returns_aligned_offsets() {
    let mut bump = BumpAlloc::build(32);
    assert_eq!(bump.push(&Layout::new::<u8>()), Some(0));
    assert_eq!(bump.push(&Layout::new::<u64>()), Some(8));
    assert_eq!(bump.arena.used_bytes, 16);
    assert_eq!(bump.arena.tracker, 16);
    assert_eq!(bump.arena.remaining_space(), 16);
    // 17 bytes do not fit in the 16 that are left, and nothing changes
    assert_eq!(bump.push(&Layout::from_size_align(17, 1).unwrap()), None);
    assert_eq!(bump.arena.used_bytes, 16);
    assert_eq!(bump.push(&Layout::from_size_align(16, 1).unwrap()), Some(16));
    assert_eq!(bump.arena.remaining_space(), 0);
}

#[test]
fn bump_refuses_when_padding_does_not_fit() {
    let mut bump = BumpAlloc::build(10);
    assert_eq!(bump.push(&Layout::new::<u8>()), Some(0));
    // 7 bytes of padding and 4 bytes of data make 11 > 9 left
    assert_eq!(bump.push(&Layout::from_size_align(4, 8).unwrap()), None);
    assert_eq!(bump.arena.used_bytes, 1);
}

#[test]
fn stack_pop_undoes_push() {
    let mut stack = StackAlloc::build(64);
    assert_eq!(stack.push(&Layout::new::<u8>()), Some(0));
    let used = stack.arena.used_bytes;
    let tracker = stack.arena.tracker;
    assert_eq!(stack.push(&Layout::new::<u64>()), Some(8));
    assert_eq!(stack.prev_trackers, vec![0, 1]);
    assert_eq!(stack.prev_allocation_sizes, vec![1, 15]);
    stack.pop();
    assert_eq!(stack.arena.used_bytes, used);
    assert_eq!(stack.arena.tracker, tracker);
    assert_eq!(stack.prev_trackers, vec![0]);
    assert_eq!(stack.prev_allocation_sizes, vec![1]);
}

#[test]
fn stack_pop_on_empty_changes_nothing() {
    let mut stack = StackAlloc::build(8);
    stack.pop();
    assert_eq!(stack.arena.used_bytes, 0);
    assert_eq!(stack.arena.tracker, 0);
    assert!(stack.prev_trackers.is_empty());
}

#[test]
fn stack_refused_push_records_nothing() {
    let mut stack = StackAlloc::build(4);
    assert_eq!(stack.push(&Layout::new::<u64>()), None);
    assert!(stack.prev_trackers.is_empty());
    assert!(stack.prev_allocation_sizes.is_empty());
    assert_eq!(stack.arena.used_bytes, 0);
}

#[test]
fn stack_clear_releases_arena_and_keeps_records() {
    let mut stack = StackAlloc::build(16);
    let _ = stack.push(&Layout::new::<u32>());
    stack.clear();
    assert_eq!(stack.arena.layout.size(), 0);
    assert_eq!(stack.arena.layout.align(), 1);
    assert_eq!(stack.arena.used_bytes, 0);
    assert_eq!(stack.prev_trackers, vec![0]);
    assert_eq!(stack.prev_allocation_sizes, vec![4]);
    // nothing is in use, so a pop changes nothing
    stack.pop();
    assert_eq!(stack.prev_trackers, vec![0]);
    assert_eq!(stack.arena.used_bytes, 0);
}

#[test]
fn block_build_is_free() {
    let layout = Layout::from_size_align(8, 8).unwrap();
    let block = Block::build(layout, 24);
    assert_eq!(block, Block { layout, tracker: 24, is_used: false });
}

#[test]
fn pool_build_rounds_arena_up_to_whole_blocks() {
    let pool = PoolAlloc::build(100, 16);
    assert_eq!(pool.arena.layout.size(), 112);
    assert_eq!(pool.blocks.len(), 7);
    for (i, block) in pool.blocks.iter().enumerate() {
        assert_eq!(block.tracker, i * 16);
        assert_eq!(block.layout.size(), 16);
        assert_eq!(block.layout.align(), 16);
        assert!(!block.is_used);
    }
    let exact = PoolAlloc::build(64, 16);
    assert_eq!(exact.arena.layout.size(), 64);
    assert_eq!(exact.blocks.len(), 4);
}

#[test]
fn pool_push_hands_out_first_free_block() {
    let mut pool = PoolAlloc::build(48, 16);
    let small = Layout::new::<u32>();
    assert_eq!(pool.free_blocks(), 3);
    assert_eq!(pool.push(&small), Some(0));
    assert_eq!(pool.push(&small), Some(16));
    assert_eq!(pool.free_blocks(), 1);
    assert_eq!(pool.remove(0), RemoveOutcome::Freed);
    assert_eq!(pool.free_blocks(), 2);
    assert_eq!(pool.push(&small), Some(0));
    assert_eq!(pool.push(&small), Some(32));
    // every block is in use
    assert_eq!(pool.push(&small), None);
    assert_eq!(pool.free_blocks(), 0);
}

#[test]
fn pool_refuses_requests_larger_than_a_block() {
    let mut pool = PoolAlloc::build(64, 16);
    assert_eq!(pool.push(&Layout::new::<[u8; 17]>()), None);
    assert_eq!(pool.free_blocks(), 4);
    assert_eq!(pool.push(&Layout::new::<[u8; 16]>()), Some(0));
}

#[test]
fn pool_remove_outcomes() {
    let mut pool = PoolAlloc::build(32, 16);
    let ptr = pool.push(&Layout::new::<u8>()).unwrap();
    assert_eq!(pool.remove(5), RemoveOutcome::NotFound);
    assert_eq!(pool.remove(16), RemoveOutcome::AlreadyFree);
    assert_eq!(pool.remove(ptr), RemoveOutcome::Freed);
    assert_eq!(pool.remove(ptr), RemoveOutcome::AlreadyFree);
    assert!(pool.blocks.iter().all(|b| !b.is_used));
}

#[test]
fn pool_clear_releases_arena_and_keeps_blocks() {
    let mut pool = PoolAlloc::build(32, 16);
    let _ = pool.push(&Layout::new::<u8>());
    let blocks = pool.blocks.clone();
    pool.clear();
    assert_eq!(pool.blocks, blocks);
    assert_eq!(pool.arena.layout.size(), 0);
    assert_eq!(pool.arena.used_bytes, 0);
    assert!(pool.arena.memory.is_empty());
}
