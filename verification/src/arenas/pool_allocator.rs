//! The pool allocator: the region is cut into blocks of one size, each of which
//! is either free or in use.

use vstd::prelude::*;
use vstd::layout::valid_layout;
use super::arena::{align_padding, arena_unchanged, lemma_align_padding, Arena};
use crate::layout::Layout;

verus! {

/// A pool allocator: one arena cut into blocks of one size.
pub struct PoolAlloc {
    pub arena: Arena,
    pub blocks: Vec<Block>,
}

/// One block of a pool: its layout, the offset where it starts, and whether it
/// is handed out.
#[derive(Clone, Copy, Debug, PartialEq, Eq, Structural)]
pub struct Block {
    pub layout: Layout,
    pub tracker: usize,
    pub is_used: bool,
}

/// What [`PoolAlloc::remove`] found at the offset it was given.
#[derive(Clone, Copy, Debug, PartialEq, Eq, Structural)]
pub enum RemoveOutcome {
    /// A block in use starts there; it is free now.
    Freed,
    /// A free block starts there; it stays free.
    AlreadyFree,
    /// No block starts there; nothing changed.
    NotFound,
}

impl Block {
    /// A free block of `layout` starting at `tracker`.
    pub fn build(layout: Layout, tracker: usize) -> (block: Self)
        ensures
            block == (Block { layout, tracker, is_used: false }),
    {
        Block { layout, tracker, is_used: false }
    }
}

/// The block `b` marked as in use or as free.
pub open spec fn with_usage(b: Block, is_used: bool) -> Block {
    Block { layout: b.layout, tracker: b.tracker, is_used }
}

/// `i` is the index of the first free block of `blocks`.
pub open spec fn is_first_free(blocks: Seq<Block>, i: int) -> bool {
    &&& 0 <= i < blocks.len()
    &&& !blocks[i].is_used
    &&& forall|j: int| 0 <= j < i ==> #[trigger] blocks[j].is_used
}

/// `i` is the index of the first block of `blocks` that starts at `tracker`.
pub open spec fn is_first_at(blocks: Seq<Block>, tracker: usize, i: int) -> bool {
    &&& 0 <= i < blocks.len()
    &&& blocks[i].tracker == tracker
    &&& forall|j: int| 0 <= j < i ==> #[trigger] blocks[j].tracker != tracker
}

/// `post` is `pre` with nothing changed.
pub open spec fn pool_unchanged(pre: PoolAlloc, post: PoolAlloc) -> bool {
    &&& arena_unchanged(pre.arena, post.arena)
    &&& post.blocks@ == pre.blocks@
}

/// What pushing `layout` onto the pool `pre` gives. A request larger than the
/// blocks, or one made when every block is in use, is refused
/// and changes nothing. Otherwise the first free block is marked in use and its
/// offset is returned.
pub open spec fn pool_push_outcome(
    pre: PoolAlloc,
    layout: Layout,
    post: PoolAlloc,
    ptr: Option<usize>,
) -> bool {
    let blocks = pre.blocks@;
    if layout.spec_size() > blocks[0].layout.spec_size() || (forall|j: int|
        0 <= j < blocks.len() ==> #[trigger] blocks[j].is_used) {
        &&& ptr is None
        &&& pool_unchanged(pre, post)
    } else {
        exists|i: int|
            #![trigger blocks[i]]
            {
                &&& is_first_free(blocks, i)
                &&& ptr == Some(blocks[i].tracker)
                &&& post.blocks@ == blocks.update(i, with_usage(blocks[i], true))
                &&& arena_unchanged(pre.arena, post.arena)
            }
    }
}

/// What removing the block at `tracker` from `pre` gives. Where no block starts
/// there nothing changes; otherwise the first block that starts there is marked
/// free, and the outcome says whether it was in use.
pub open spec fn pool_remove_outcome(
    pre: PoolAlloc,
    tracker: usize,
    post: PoolAlloc,
    outcome: RemoveOutcome,
) -> bool {
    let blocks = pre.blocks@;
    if forall|j: int| 0 <= j < blocks.len() ==> #[trigger] blocks[j].tracker != tracker {
        &&& outcome == RemoveOutcome::NotFound
        &&& pool_unchanged(pre, post)
    } else {
        exists|i: int|
            #![trigger blocks[i]]
            {
                &&& is_first_at(blocks, tracker, i)
                &&& outcome == (if blocks[i].is_used {
                    RemoveOutcome::Freed
                } else {
                    RemoveOutcome::AlreadyFree
                })
                &&& post.blocks@ == blocks.update(i, with_usage(blocks[i], false))
                &&& arena_unchanged(pre.arena, post.arena)
            }
    }
}

/// Block `i`, which starts `i` block sizes into the region, ends within the
/// region.
proof fn lemma_block_fits(i: int, n: int, bs: int)
    requires
        0 <= i < n,
        bs > 0,
    ensures
        0 <= i * bs,
        i * bs + bs <= n * bs,
        (i * bs) % bs == 0,
{
    assert(i * bs + bs <= n * bs && 0 <= i * bs) by (nonlinear_arith)
        requires
            0 <= i < n,
            bs > 0,
    ;
    assert((i * bs) % bs == 0) by (nonlinear_arith)
        requires
            0 <= i,
            bs > 0,
    ;
}

/// Distinct blocks start at distinct offsets.
proof fn lemma_offsets_distinct(i: int, j: int, bs: int)
    requires
        bs > 0,
        i * bs == j * bs,
    ensures
        i == j,
{
    assert(i == j) by (nonlinear_arith)
        requires
            bs > 0,
            i * bs == j * bs,
    ;
}

impl PoolAlloc {
    /// The size of the pool's blocks (that of the first block).
    pub open spec fn spec_block_size(&self) -> int {
        self.blocks@[0].layout.spec_size() as int
    }

    /// The blocks cover the region exactly.
    pub open spec fn is_tiled(&self) -> bool {
        self.blocks@.len() * self.spec_block_size() == self.arena.layout.spec_size()
    }

    /// The pool has blocks; block `i` starts `i` block sizes after the region's
    /// start, and all blocks share one layout whose size is its alignment. Until
    /// the arena is cleared the blocks cover the region exactly; once it is
    /// cleared the region is empty and the blocks stay as they were. Nothing is
    /// taken from the arena's tracker.
    pub open spec fn wf(&self) -> bool {
        let n = self.blocks@.len();
        let bs = self.spec_block_size();
        &&& self.arena.wf()
        &&& self.arena.used_bytes == 0
        &&& n > 0
        &&& bs > 0
        &&& self.blocks@[0].layout.spec_align() == bs
        &&& self.is_tiled() || self.arena.layout.spec_size() == 0
        &&& forall|i: int|
            0 <= i < n ==> {
                &&& (#[trigger] self.blocks@[i]).layout == self.blocks@[0].layout
                &&& self.blocks@[i].tracker == self.arena.start + i * bs
            }
    }
}

impl PoolAlloc {
    /// How many bytes must be added to `arena_size` to make it a multiple of
    /// `block_size`.
    pub fn add_to_arena_size(arena_size: usize, block_size: usize) -> (add: usize)
        requires
            block_size > 0,
        ensures
            add == align_padding(arena_size as int, block_size as int),
    {
        proof {
            lemma_align_padding(arena_size as int, block_size as int);
        }
        let modulor = arena_size % block_size;
        if modulor == 0 {
            return 0;
        }
        let add = block_size - modulor;
        add
    }

    /// The blocks that fit in `arena`, all free: `size / block_size` of them,
    /// block `i` starting `i * block_size` bytes after the arena's start, each of
    /// size and alignment `block_size`, one after the other inside the region.
    fn construct_blocks(arena: &Arena, block_size: usize) -> (blocks: Vec<Block>)
        requires
            arena.wf(),
            valid_layout(block_size, block_size),
            block_size <= arena.layout.spec_size(),
        ensures
            blocks@.len() == arena.layout.spec_size() / block_size,
            blocks@.len() > 0,
            forall|i: int|
                0 <= i < blocks@.len() ==> {
                    &&& (#[trigger] blocks@[i]).layout.spec_size() == block_size
                    &&& blocks@[i].layout.spec_align() == block_size
                    &&& blocks@[i].tracker == arena.start + i * block_size
                    &&& blocks@[i].tracker + block_size <= arena.start + arena.layout.spec_size()
                    &&& !blocks@[i].is_used
                },
            forall|i: int, j: int|
                0 <= i < j < blocks@.len() ==> #[trigger] blocks@[i].tracker + block_size
                    <= #[trigger] blocks@[j].tracker,
    {
        proof {
            reveal(vstd::arithmetic::power2::is_pow2);
        }
        let mut blocks: Vec<Block> = Vec::new();
        let first_block_tracker = arena.start;
        let num_blocks: usize = arena.layout.size() / block_size;
        assert(num_blocks * block_size <= arena.layout.spec_size() && num_blocks > 0)
            by (nonlinear_arith)
            requires
                num_blocks == arena.layout.spec_size() / block_size,
                block_size <= arena.layout.spec_size(),
                block_size > 0,
        ;
        for indx in 0..num_blocks
            invariant
                arena.wf(),
                valid_layout(block_size, block_size),
                block_size > 0,
                first_block_tracker == arena.start,
                num_blocks * block_size <= arena.layout.spec_size(),
                blocks@.len() == indx,
                forall|i: int|
                    0 <= i < blocks@.len() ==> {
                        &&& (#[trigger] blocks@[i]).layout.spec_size() == block_size
                        &&& blocks@[i].layout.spec_align() == block_size
                        &&& blocks@[i].tracker == arena.start + i * block_size
                        &&& blocks@[i].tracker + block_size <= arena.start
                            + arena.layout.spec_size()
                        &&& !blocks@[i].is_used
                    },
        {
            let block_align = block_size;
            let layout = Layout::from_size_align(block_size, block_align).unwrap();
            proof {
                lemma_block_fits(indx as int, num_blocks as int, block_size as int);
            }
            let offset = indx * block_size;
            let block_tracker = first_block_tracker + offset;
            let block = Block::build(layout, block_tracker);
            blocks.push(block);
        }
        assert forall|i: int, j: int|
            0 <= i < j < blocks@.len() implies #[trigger] blocks@[i].tracker + block_size
            <= #[trigger] blocks@[j].tracker by {
            assert(i * block_size + block_size <= j * block_size) by (nonlinear_arith)
                requires
                    0 <= i < j,
                    block_size > 0,
            ;
        }
        blocks
    }

    /// A pool over a fresh zeroed arena of `arena_size` bytes, rounded up to a
    /// multiple of `block_size`, cut into free blocks of `block_size` bytes, each
    /// aligned to `block_size`.
    pub fn build(arena_size: usize, block_size: usize) -> (pool: Self)
        requires
            valid_layout(block_size, block_size),
            0 < arena_size,
            arena_size + align_padding(arena_size as int, block_size as int) <= isize::MAX,
        ensures
            pool.wf(),
            pool.arena.layout.spec_size() == arena_size + align_padding(
                arena_size as int,
                block_size as int,
            ),
            pool.arena.memory@ == Seq::new(pool.arena.layout.spec_size() as nat, |i: int| 0u8),
            pool.blocks@.len() * block_size == pool.arena.layout.spec_size(),
            pool.blocks@.len() > 0,
            forall|i: int|
                0 <= i < pool.blocks@.len() ==> {
                    &&& (#[trigger] pool.blocks@[i]).layout.spec_size() == block_size
                    &&& pool.blocks@[i].layout.spec_align() == block_size
                    &&& pool.blocks@[i].tracker == i * block_size
                    &&& !pool.blocks@[i].is_used
                },
    {
        proof {
            reveal(vstd::arithmetic::power2::is_pow2);
            lemma_align_padding(arena_size as int, block_size as int);
        }
        let mut arena_size = arena_size;
        arena_size = arena_size + PoolAlloc::add_to_arena_size(arena_size, block_size);
        assert(block_size <= arena_size) by (nonlinear_arith)
            requires
                arena_size % block_size == 0,
                arena_size > 0,
                block_size > 0,
        ;
        let arena = Arena::build(arena_size);
        let blocks = PoolAlloc::construct_blocks(&arena, block_size);
        proof {
            let len = blocks@.len();
            assert(len * block_size == arena_size) by (nonlinear_arith)
                requires
                    len == arena_size / block_size,
                    arena_size % block_size == 0,
                    block_size > 0,
            ;
            assert forall|i: int| 0 <= i < blocks@.len() implies (#[trigger] blocks@[i]).layout
                == blocks@[0].layout by {
                blocks@[i].layout.lemma_ext_equal(blocks@[0].layout);
            }
        }
        PoolAlloc { arena, blocks }
    }
}

impl PoolAlloc {
    /// Hands out the first free block, now marked in use, and returns its offset.
    /// Returns `None`, changing nothing, where `layout` is larger than the blocks
    /// or where every block is in use.
    pub fn push(&mut self, layout: &Layout) -> (ptr: Option<usize>)
        requires
            old(self).wf(),
        ensures
            final(self).wf(),
            pool_push_outcome(*old(self), *layout, *final(self), ptr),
            ptr matches Some(p) ==> {
                &&& p as int % old(self).spec_block_size() == 0
                &&& old(self).is_tiled() ==> p + old(self).spec_block_size()
                    <= final(self).arena.layout.spec_size()
            },
    {
        if layout.size() > self.blocks[0].layout.size() {
            return None;
        }
        let n = self.blocks.len();
        let mut indx: usize = 0;
        while indx < n
            invariant
                n == self.blocks@.len(),
                self.blocks@ == old(self).blocks@,
                arena_unchanged(old(self).arena, self.arena),
                self.wf(),
                indx <= n,
                0 < n,
                layout.spec_size() <= self.blocks@[0].layout.spec_size(),
                forall|j: int| 0 <= j < indx ==> #[trigger] self.blocks@[j].is_used,
            decreases n - indx,
        {
            if !self.blocks[indx].is_used {
                let ghost pre = self.blocks@;
                let mut block = self.blocks[indx];
                block.is_used = true;
                self.blocks.set(indx, block);
                let r = self.blocks[indx].tracker;
                proof {
                    let i = indx as int;
                    lemma_block_fits(i, n as int, self.spec_block_size());
                    assert(self.blocks@ == pre.update(i, with_usage(pre[i], true)));
                    assert(is_first_free(pre, i) && Some(r) == Some(pre[i].tracker));
                }
                return Some(r);
            }
            indx = indx + 1;
        }
        None
    }

    /// The index of the first block that starts at `tracker`, if any.
    fn found_block(&self, tracker: usize) -> (index: Option<usize>)
        ensures
            index matches Some(i) ==> is_first_at(self.blocks@, tracker, i as int),
            index is None ==> forall|j: int|
                0 <= j < self.blocks@.len() ==> #[trigger] self.blocks@[j].tracker != tracker,
    {
        let n = self.blocks.len();
        let mut indx: usize = 0;
        while indx < n
            invariant
                n == self.blocks@.len(),
                indx <= n,
                forall|j: int| 0 <= j < indx ==> #[trigger] self.blocks@[j].tracker != tracker,
            decreases n - indx,
        {
            if self.blocks[indx].tracker == tracker {
                return Some(indx);
            }
            indx = indx + 1;
        }
        None
    }

    /// Marks the block that starts at `tracker` free again, and says whether it
    /// was in use; where no block starts there nothing changes.
    pub fn remove(&mut self, tracker: usize) -> (outcome: RemoveOutcome)
        requires
            old(self).wf(),
        ensures
            final(self).wf(),
            pool_remove_outcome(*old(self), tracker, *final(self), outcome),
    {
        let index = match self.found_block(tracker) {
            Some(index) => index,
            None => {
                return RemoveOutcome::NotFound;
            },
        };
        let ghost pre = self.blocks@;
        let mut block = self.blocks[index];
        let outcome = if block.is_used {
            RemoveOutcome::Freed
        } else {
            RemoveOutcome::AlreadyFree
        };
        block.is_used = false;
        self.blocks.set(index, block);
        proof {
            assert(self.blocks@ == pre.update(index as int, with_usage(pre[index as int], false)));
        }
        outcome
    }

    /// Releases the arena, which is left with a region of zero bytes; the blocks
    /// are kept as they were.
    pub fn clear(&mut self)
        ensures
            old(self).wf() ==> final(self).wf(),
            final(self).arena.start == 0,
            final(self).arena.tracker == 0,
            final(self).arena.used_bytes == 0,
            final(self).arena.layout.spec_size() == 0,
            final(self).arena.layout.spec_align() == 1,
            final(self).arena.memory@.len() == 0,
            final(self).blocks@ == old(self).blocks@,
    {
        self.arena.clear();
    }
}

/// How many blocks of `blocks` are free.
pub open spec fn free_count(blocks: Seq<Block>) -> nat
    decreases blocks.len(),
{
    if blocks.len() == 0 {
        0
    } else {
        free_count(blocks.drop_last()) + if blocks.last().is_used {
            0nat
        } else {
            1nat
        }
    }
}

/// No block is free exactly when every block is in use, and there are never more
/// free blocks than blocks.
pub proof fn lemma_free_count_bounds(blocks: Seq<Block>)
    ensures
        free_count(blocks) <= blocks.len(),
        free_count(blocks) == 0 <==> forall|j: int|
            0 <= j < blocks.len() ==> #[trigger] blocks[j].is_used,
        free_count(blocks) == blocks.len() <==> forall|j: int|
            0 <= j < blocks.len() ==> !#[trigger] blocks[j].is_used,
    decreases blocks.len(),
{
    if blocks.len() > 0 {
        let init = blocks.drop_last();
        lemma_free_count_bounds(init);
        assert forall|j: int| 0 <= j < init.len() implies #[trigger] init[j] == blocks[j] by {}
        if free_count(blocks) == 0 {
            assert forall|j: int| 0 <= j < blocks.len() implies #[trigger] blocks[j].is_used by {
                if j < init.len() {
                    assert(init[j].is_used);
                }
            }
        }
        if free_count(blocks) == blocks.len() {
            assert forall|j: int| 0 <= j < blocks.len() implies !#[trigger] blocks[j].is_used by {
                if j < init.len() {
                    assert(!init[j].is_used);
                }
            }
        }
        if forall|j: int| 0 <= j < blocks.len() ==> #[trigger] blocks[j].is_used {
            assert forall|j: int| 0 <= j < init.len() implies #[trigger] init[j].is_used by {
                assert(blocks[j].is_used);
            }
        }
        if forall|j: int| 0 <= j < blocks.len() ==> !#[trigger] blocks[j].is_used {
            assert forall|j: int| 0 <= j < init.len() implies !#[trigger] init[j].is_used by {
                assert(!blocks[j].is_used);
            }
        }
    }
}

/// Changing one block's usage changes the free count by at most that block.
proof fn lemma_free_count_update(blocks: Seq<Block>, i: int, b: Block)
    requires
        0 <= i < blocks.len(),
    ensures
        free_count(blocks.update(i, b)) + (if blocks[i].is_used {
            0int
        } else {
            1int
        }) == free_count(blocks) + (if b.is_used {
            0int
        } else {
            1int
        }),
    decreases blocks.len(),
{
    let u = blocks.update(i, b);
    if i == blocks.len() - 1 {
        assert(u.drop_last() =~= blocks.drop_last());
    } else {
        assert(u.drop_last() =~= blocks.drop_last().update(i, b));
        lemma_free_count_update(blocks.drop_last(), i, b);
    }
}

/// Distinct blocks of a pool start at distinct offsets, each a multiple of the
/// block size, and until the arena is cleared each block lies inside the region.
pub proof fn lemma_blocks_disjoint(pool: PoolAlloc, i: int, j: int)
    requires
        pool.wf(),
        0 <= i < pool.blocks@.len(),
        0 <= j < pool.blocks@.len(),
    ensures
        i != j ==> pool.blocks@[i].tracker != pool.blocks@[j].tracker,
        pool.blocks@[i].tracker as int % pool.spec_block_size() == 0,
        pool.is_tiled() ==> pool.blocks@[i].tracker + pool.spec_block_size()
            <= pool.arena.layout.spec_size(),
{
    let bs = pool.spec_block_size();
    let n = pool.blocks@.len() as int;
    lemma_block_fits(i, n, bs);
    if pool.blocks@[i].tracker == pool.blocks@[j].tracker {
        lemma_offsets_distinct(i, j, bs);
    }
}

/// A request no larger than the blocks, made while block `i` is the first free
/// one, gets block `i`: its offset is returned and it is marked in use, and no
/// other block and nothing of the arena changes.
pub proof fn lemma_push_takes_first_free_block(
    pre: PoolAlloc,
    layout: Layout,
    post: PoolAlloc,
    ptr: Option<usize>,
    i: int,
)
    requires
        pool_push_outcome(pre, layout, post, ptr),
        0 <= i < pre.blocks@.len(),
        layout.spec_size() <= pre.blocks@[0].layout.spec_size(),
        !pre.blocks@[i].is_used,
        forall|j: int| 0 <= j < i ==> #[trigger] pre.blocks@[j].is_used,
    ensures
        ptr == Some(pre.blocks@[i].tracker),
        post.blocks@.len() == pre.blocks@.len(),
        post.blocks@[i].is_used,
        post.blocks@[i].tracker == pre.blocks@[i].tracker,
        post.blocks@[i].layout == pre.blocks@[i].layout,
        forall|j: int| 0 <= j < pre.blocks@.len() && j != i ==> post.blocks@[j] == pre.blocks@[j],
        post.arena.start == pre.arena.start,
        post.arena.tracker == pre.arena.tracker,
        post.arena.used_bytes == pre.arena.used_bytes,
        post.arena.layout == pre.arena.layout,
        post.arena.memory@ == pre.arena.memory@,
{
    let blocks = pre.blocks@;
    assert(!blocks[i].is_used);
    let k = choose|k: int|
        #![trigger blocks[k]]
        {
            &&& is_first_free(blocks, k)
            &&& ptr == Some(blocks[k].tracker)
            &&& post.blocks@ == blocks.update(k, with_usage(blocks[k], true))
            &&& arena_unchanged(pre.arena, post.arena)
        };
    if k < i {
        assert(blocks[k].is_used);
    }
    if i < k {
        assert(blocks[i].is_used);
    }
}

/// A request larger than the blocks, or one made while every block is in use,
/// gets nothing and changes nothing.
pub proof fn lemma_push_refused(pre: PoolAlloc, layout: Layout, post: PoolAlloc, ptr: Option<usize>)
    requires
        pool_push_outcome(pre, layout, post, ptr),
        pre.blocks@.len() > 0,
        layout.spec_size() > pre.blocks@[0].layout.spec_size() || forall|j: int|
            0 <= j < pre.blocks@.len() ==> #[trigger] pre.blocks@[j].is_used,
    ensures
        ptr is None,
        post.blocks@ == pre.blocks@,
        post.arena.start == pre.arena.start,
        post.arena.tracker == pre.arena.tracker,
        post.arena.used_bytes == pre.arena.used_bytes,
        post.arena.layout == pre.arena.layout,
        post.arena.memory@ == pre.arena.memory@,
{
}

/// Removing at the offset where block `i` starts frees block `i`, whatever the
/// other blocks' usage, and says whether it was in use; no other block and
/// nothing of the arena changes.
pub proof fn lemma_remove_frees_the_block_there(
    pre: PoolAlloc,
    tracker: usize,
    post: PoolAlloc,
    outcome: RemoveOutcome,
    i: int,
)
    requires
        pre.wf(),
        pool_remove_outcome(pre, tracker, post, outcome),
        0 <= i < pre.blocks@.len(),
        pre.blocks@[i].tracker == tracker,
    ensures
        outcome == (if pre.blocks@[i].is_used {
            RemoveOutcome::Freed
        } else {
            RemoveOutcome::AlreadyFree
        }),
        post.blocks@.len() == pre.blocks@.len(),
        !post.blocks@[i].is_used,
        post.blocks@[i].tracker == tracker,
        post.blocks@[i].layout == pre.blocks@[i].layout,
        forall|j: int| 0 <= j < pre.blocks@.len() && j != i ==> post.blocks@[j] == pre.blocks@[j],
        post.arena.start == pre.arena.start,
        post.arena.tracker == pre.arena.tracker,
        post.arena.used_bytes == pre.arena.used_bytes,
        post.arena.layout == pre.arena.layout,
        post.arena.memory@ == pre.arena.memory@,
{
    let blocks = pre.blocks@;
    assert(blocks[i].tracker == tracker);
    let k = choose|k: int|
        #![trigger blocks[k]]
        {
            &&& is_first_at(blocks, tracker, k)
            &&& outcome == (if blocks[k].is_used {
                RemoveOutcome::Freed
            } else {
                RemoveOutcome::AlreadyFree
            })
            &&& post.blocks@ == blocks.update(k, with_usage(blocks[k], false))
            &&& arena_unchanged(pre.arena, post.arena)
        };
    lemma_blocks_disjoint(pre, i, k);
    assert(k == i);
}

/// Removing at an offset where no block starts changes nothing.
pub proof fn lemma_remove_elsewhere_changes_nothing(
    pre: PoolAlloc,
    tracker: usize,
    post: PoolAlloc,
    outcome: RemoveOutcome,
)
    requires
        pool_remove_outcome(pre, tracker, post, outcome),
        forall|j: int| 0 <= j < pre.blocks@.len() ==> #[trigger] pre.blocks@[j].tracker != tracker,
    ensures
        outcome == RemoveOutcome::NotFound,
        post.blocks@ == pre.blocks@,
        post.arena.start == pre.arena.start,
        post.arena.tracker == pre.arena.tracker,
        post.arena.used_bytes == pre.arena.used_bytes,
        post.arena.layout == pre.arena.layout,
        post.arena.memory@ == pre.arena.memory@,
{
}

/// Removing the block that a push has just handed out frees it again and gives
/// back the pool as it was before the push.
pub proof fn lemma_remove_undoes_push(
    pre: PoolAlloc,
    layout: Layout,
    mid: PoolAlloc,
    ptr: usize,
    post: PoolAlloc,
    outcome: RemoveOutcome,
)
    requires
        pre.wf(),
        pool_push_outcome(pre, layout, mid, Some(ptr)),
        pool_remove_outcome(mid, ptr, post, outcome),
    ensures
        outcome == RemoveOutcome::Freed,
        post.blocks@ == pre.blocks@,
        post.arena.start == pre.arena.start,
        post.arena.tracker == pre.arena.tracker,
        post.arena.used_bytes == pre.arena.used_bytes,
        post.arena.layout == pre.arena.layout,
        post.arena.memory@ == pre.arena.memory@,
{
    let blocks = pre.blocks@;
    let i = choose|i: int|
        #![trigger blocks[i]]
        {
            &&& is_first_free(blocks, i)
            &&& Some(ptr) == Some(blocks[i].tracker)
            &&& mid.blocks@ == blocks.update(i, with_usage(blocks[i], true))
            &&& arena_unchanged(pre.arena, mid.arena)
        };
    let mb = mid.blocks@;
    assert(mb[i].tracker == ptr);
    let j = choose|j: int|
        #![trigger mb[j]]
        {
            &&& is_first_at(mb, ptr, j)
            &&& outcome == (if mb[j].is_used {
                RemoveOutcome::Freed
            } else {
                RemoveOutcome::AlreadyFree
            })
            &&& post.blocks@ == mb.update(j, with_usage(mb[j], false))
            &&& arena_unchanged(mid.arena, post.arena)
        };
    lemma_blocks_disjoint(pre, i, j);
    assert(mb[j].tracker == blocks[j].tracker);
    assert(j == i);
    assert(post.blocks@ =~= blocks);
}

/// A successful push takes one free block; removing a block in use gives one
/// back.
pub proof fn lemma_free_count_changes(
    pre: PoolAlloc,
    layout: Layout,
    pushed: PoolAlloc,
    ptr: Option<usize>,
    tracker: usize,
    removed: PoolAlloc,
    outcome: RemoveOutcome,
)
    requires
        pool_push_outcome(pre, layout, pushed, ptr),
        pool_remove_outcome(pre, tracker, removed, outcome),
    ensures
        ptr is Some ==> free_count(pushed.blocks@) + 1 == free_count(pre.blocks@),
        ptr is None ==> free_count(pushed.blocks@) == free_count(pre.blocks@),
        outcome == RemoveOutcome::Freed ==> free_count(removed.blocks@) == free_count(pre.blocks@)
            + 1,
        outcome != RemoveOutcome::Freed ==> free_count(removed.blocks@) == free_count(
            pre.blocks@,
        ),
{
    let blocks = pre.blocks@;
    if ptr is Some {
        let i = choose|i: int|
            #![trigger blocks[i]]
            {
                &&& is_first_free(blocks, i)
                &&& ptr == Some(blocks[i].tracker)
                &&& pushed.blocks@ == blocks.update(i, with_usage(blocks[i], true))
                &&& arena_unchanged(pre.arena, pushed.arena)
            };
        lemma_free_count_update(blocks, i, with_usage(blocks[i], true));
    }
    if outcome != RemoveOutcome::NotFound {
        let j = choose|j: int|
            #![trigger blocks[j]]
            {
                &&& is_first_at(blocks, tracker, j)
                &&& outcome == (if blocks[j].is_used {
                    RemoveOutcome::Freed
                } else {
                    RemoveOutcome::AlreadyFree
                })
                &&& removed.blocks@ == blocks.update(j, with_usage(blocks[j], false))
                &&& arena_unchanged(pre.arena, removed.arena)
            };
        lemma_free_count_update(blocks, j, with_usage(blocks[j], false));
        if outcome == RemoveOutcome::AlreadyFree {
            assert(removed.blocks@ =~= blocks);
        }
    }
}

impl PoolAlloc {
    /// How many blocks are free.
    pub fn free_blocks(&self) -> (count: usize)
        ensures
            count == free_count(self.blocks@),
    {
        let mut count: usize = 0;
        let n = self.blocks.len();
        let mut indx: usize = 0;
        while indx < n
            invariant
                n == self.blocks@.len(),
                indx <= n,
                count == free_count(self.blocks@.subrange(0, indx as int)),
                count <= indx,
            decreases n - indx,
        {
            proof {
                assert(self.blocks@.subrange(0, indx + 1).drop_last() =~= self.blocks@.subrange(
                    0,
                    indx as int,
                ));
            }
            if !self.blocks[indx].is_used {
                count = count + 1;
            }
            indx = indx + 1;
        }
        assert(self.blocks@.subrange(0, n as int) =~= self.blocks@);
        count
    }
}

} // verus!
