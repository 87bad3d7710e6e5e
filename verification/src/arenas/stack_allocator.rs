//! The stack allocator: a bump allocator that also remembers, for every
//! allocation, where the tracker stood and how many bytes it took, so that the
//! last allocation can be popped.

use vstd::prelude::*;
use super::arena::{
    arena_unchanged, lemma_align_padding, lemma_push_succeeds_exactly_when_it_fits, push_outcome,
    Arena,
};
use crate::layout::Layout;

verus! {

/// A stack allocator over one arena.
pub struct StackAlloc {
    pub arena: Arena,
    pub prev_allocation_sizes: Vec<usize>,
    pub prev_trackers: Vec<usize>,
}

/// `post` is `pre` with nothing changed.
pub open spec fn stack_unchanged(pre: StackAlloc, post: StackAlloc) -> bool {
    &&& arena_unchanged(pre.arena, post.arena)
    &&& post.prev_allocation_sizes@ == pre.prev_allocation_sizes@
    &&& post.prev_trackers@ == pre.prev_trackers@
}

/// What pushing `layout` onto `pre` gives: the arena moves as a bump allocator's
/// does, and a successful push also records the tracker it started from and the
/// bytes it took.
pub open spec fn stack_push_outcome(
    pre: StackAlloc,
    layout: Layout,
    post: StackAlloc,
    ptr: Option<usize>,
) -> bool {
    &&& push_outcome(pre.arena, layout, post.arena, ptr)
    &&& ptr is Some ==> {
        &&& post.prev_trackers@ == pre.prev_trackers@.push(pre.arena.tracker)
        &&& post.prev_allocation_sizes@ == pre.prev_allocation_sizes@.push(
            (post.arena.used_bytes - pre.arena.used_bytes) as usize,
        )
    }
    &&& ptr is None ==> stack_unchanged(pre, post)
}

/// What popping `pre` gives: with nothing allocated nothing changes; otherwise the
/// tracker goes back to where the last allocation started, its bytes are no
/// longer used, and its record is dropped.
pub open spec fn stack_pop_outcome(pre: StackAlloc, post: StackAlloc) -> bool {
    if pre.arena.used_bytes == 0 {
        stack_unchanged(pre, post)
    } else {
        &&& post.arena.tracker == pre.prev_trackers@.last()
        &&& post.arena.used_bytes == pre.arena.used_bytes - pre.prev_allocation_sizes@.last()
        &&& post.arena.start == pre.arena.start
        &&& post.arena.layout == pre.arena.layout
        &&& post.arena.memory@ == pre.arena.memory@
        &&& post.prev_trackers@ == pre.prev_trackers@.drop_last()
        &&& post.prev_allocation_sizes@ == pre.prev_allocation_sizes@.drop_last()
    }
}

/// A pop with bytes in use moves the tracker back by the size of the last
/// recorded allocation, to where that allocation started, and gives those bytes
/// back; it drops the last record and nothing else. A pop with no bytes in use
/// changes nothing.
pub proof fn lemma_pop_gives_back_the_last_allocation(pre: StackAlloc, post: StackAlloc)
    requires
        pre.wf(),
        stack_pop_outcome(pre, post),
    ensures
        pre.arena.used_bytes != 0 ==> {
            let n = pre.prev_trackers@.len() as int;
            &&& n > 0
            &&& post.arena.tracker == pre.prev_trackers@[n - 1]
            &&& post.arena.tracker + pre.prev_allocation_sizes@[n - 1] == pre.arena.tracker
            &&& post.arena.used_bytes + pre.prev_allocation_sizes@[n - 1]
                == pre.arena.used_bytes
            &&& post.prev_trackers@ == pre.prev_trackers@.subrange(0, n - 1)
            &&& post.prev_allocation_sizes@ == pre.prev_allocation_sizes@.subrange(0, n - 1)
        },
        pre.arena.used_bytes == 0 ==> {
            &&& post.arena.tracker == pre.arena.tracker
            &&& post.arena.used_bytes == pre.arena.used_bytes
            &&& post.prev_trackers@ == pre.prev_trackers@
            &&& post.prev_allocation_sizes@ == pre.prev_allocation_sizes@
        },
        post.arena.start == pre.arena.start,
        post.arena.layout == pre.arena.layout,
        post.arena.memory@ == pre.arena.memory@,
{
    if pre.arena.used_bytes != 0 {
        let n = pre.prev_trackers@.len() as int;
        assert(pre.prev_trackers@[n - 1] + pre.prev_allocation_sizes@[n - 1]
            == pre.arena.tracker);
    }
}

/// A push onto a stack allocator succeeds exactly when the used bytes, the padding
/// that aligns the tracker and the layout's size together fit in the region. It
/// then returns the aligned tracker, uses the padding and the size, and records
/// the tracker it started from and the bytes it took; a refused push changes
/// nothing, records included.
pub proof fn lemma_stack_push_succeeds_exactly_when_it_fits(
    pre: StackAlloc,
    layout: Layout,
    post: StackAlloc,
    ptr: Option<usize>,
    pad: int,
)
    requires
        layout.valid(),
        stack_push_outcome(pre, layout, post, ptr),
        0 <= pad < layout.spec_align(),
        (pre.arena.tracker + pad) % (layout.spec_align() as int) == 0,
    ensures
        ptr is Some <==> pre.arena.used_bytes + pad + layout.spec_size()
            <= pre.arena.layout.spec_size(),
        ptr is Some ==> {
            &&& ptr == Some((pre.arena.tracker + pad) as usize)
            &&& post.arena.tracker == pre.arena.tracker + pad + layout.spec_size()
            &&& post.arena.used_bytes == pre.arena.used_bytes + pad + layout.spec_size()
            &&& post.prev_trackers@ == pre.prev_trackers@.push(pre.arena.tracker)
            &&& post.prev_allocation_sizes@ == pre.prev_allocation_sizes@.push(
                (pad + layout.spec_size()) as usize,
            )
        },
        ptr is None ==> {
            &&& post.arena.tracker == pre.arena.tracker
            &&& post.arena.used_bytes == pre.arena.used_bytes
            &&& post.prev_trackers@ == pre.prev_trackers@
            &&& post.prev_allocation_sizes@ == pre.prev_allocation_sizes@
        },
        post.arena.start == pre.arena.start,
        post.arena.layout == pre.arena.layout,
        post.arena.memory@ == pre.arena.memory@,
{
    lemma_push_succeeds_exactly_when_it_fits(pre.arena, layout, post.arena, ptr, pad);
}

/// Popping right after a successful push gives back the allocator as it was before
/// the push, wherever the push left some bytes in use.
pub proof fn lemma_pop_undoes_push(
    s0: StackAlloc,
    layout: Layout,
    s1: StackAlloc,
    ptr: usize,
    s2: StackAlloc,
)
    requires
        layout.valid(),
        stack_push_outcome(s0, layout, s1, Some(ptr)),
        s1.arena.used_bytes != 0,
        stack_pop_outcome(s1, s2),
    ensures
        s2.arena.start == s0.arena.start,
        s2.arena.tracker == s0.arena.tracker,
        s2.arena.used_bytes == s0.arena.used_bytes,
        s2.arena.layout == s0.arena.layout,
        s2.arena.memory@ == s0.arena.memory@,
        s2.prev_trackers@ == s0.prev_trackers@,
        s2.prev_allocation_sizes@ == s0.prev_allocation_sizes@,
{
    layout.lemma_valid();
    lemma_align_padding(s0.arena.tracker as int, layout.spec_align() as int);
    assert(s2.prev_trackers@ =~= s0.prev_trackers@);
    assert(s2.prev_allocation_sizes@ =~= s0.prev_allocation_sizes@);
}

/// The sum of `sizes`.
pub open spec fn total(sizes: Seq<usize>) -> int
    decreases sizes.len(),
{
    if sizes.len() == 0 {
        0
    } else {
        total(sizes.drop_last()) + sizes.last()
    }
}

/// Record `k` starts where the first `k` recorded allocations end.
proof fn lemma_tracker_is_prefix_total(s: StackAlloc, k: int)
    requires
        s.wf(),
        s.records_chain(),
        0 <= k <= s.prev_trackers@.len(),
    ensures
        (if k < s.prev_trackers@.len() {
            s.prev_trackers@[k] as int
        } else {
            s.arena.tracker as int
        }) == s.arena.start + total(s.prev_allocation_sizes@.take(k)),
    decreases k,
{
    let sizes = s.prev_allocation_sizes@;
    if k > 0 {
        lemma_tracker_is_prefix_total(s, k - 1);
        assert(sizes.take(k).drop_last() =~= sizes.take(k - 1));
        assert(s.prev_trackers@[k - 1] + sizes[k - 1] == (if k < s.prev_trackers@.len() {
            s.prev_trackers@[k] as int
        } else {
            s.arena.tracker as int
        }));
    }
}

/// While the records chain through the region, the bytes in use are exactly the
/// bytes of the recorded allocations.
pub proof fn lemma_used_bytes_are_recorded(s: StackAlloc)
    requires
        s.wf(),
        s.records_chain(),
    ensures
        s.arena.used_bytes == total(s.prev_allocation_sizes@),
{
    lemma_tracker_is_prefix_total(s, s.prev_trackers@.len() as int);
    assert(s.prev_allocation_sizes@.take(s.prev_trackers@.len() as int)
        =~= s.prev_allocation_sizes@);
}

/// With some bytes in use there is a record to pop.
pub proof fn lemma_used_bytes_have_a_record(s: StackAlloc)
    requires
        s.wf(),
    ensures
        s.arena.used_bytes != 0 ==> s.prev_trackers@.len() > 0 && s.prev_allocation_sizes@.len()
            > 0,
{
}

impl StackAlloc {
    /// The records form a chain through the region: the first allocation started
    /// at the region's start, each one started where the one before it ended, and
    /// the tracker stands where the last one ended.
    pub open spec fn records_chain(&self) -> bool {
        let n = self.prev_trackers@.len();
        &&& n == 0 ==> self.arena.tracker == self.arena.start
        &&& n > 0 ==> self.prev_trackers@[0] == self.arena.start
        &&& forall|i: int|
            0 <= i < n ==> #[trigger] self.prev_trackers@[i] + self.prev_allocation_sizes@[i] == (
            if i + 1 < n {
                self.prev_trackers@[i + 1] as int
            } else {
                self.arena.tracker as int
            })
    }

    /// There is a size recorded for every recorded tracker, and the records chain
    /// through the region, unless the arena has been cleared to a region of zero
    /// bytes (clearing keeps the records).
    pub open spec fn wf(&self) -> bool {
        &&& self.arena.wf()
        &&& self.prev_allocation_sizes@.len() == self.prev_trackers@.len()
        &&& self.records_chain() || self.arena.layout.spec_size() == 0
    }

    /// A stack allocator over a fresh arena of `size` zeroed bytes.
    pub fn build(size: usize) -> (alloc: Self)
        requires
            size <= isize::MAX,
        ensures
            alloc.wf(),
            alloc.arena.used_bytes == 0,
            alloc.arena.tracker == 0,
            alloc.arena.layout.spec_size() == size,
            alloc.arena.layout.spec_align() == 1,
            alloc.arena.memory@ == Seq::new(size as nat, |i: int| 0u8),
            alloc.prev_allocation_sizes@.len() == 0,
            alloc.prev_trackers@.len() == 0,
    {
        StackAlloc {
            arena: Arena::build(size),
            prev_allocation_sizes: Vec::new(),
            prev_trackers: Vec::new(),
        }
    }

    /// Allocates `layout` at the tracker, after the padding that aligns it, and
    /// records where the tracker stood and how many bytes the allocation took.
    /// Returns the offset where the data starts, or `None`, changing nothing,
    /// where the padded request does not fit in the remaining space.
    pub fn push(&mut self, layout: &Layout) -> (ptr: Option<usize>)
        requires
            old(self).wf(),
        ensures
            final(self).wf(),
            stack_push_outcome(*old(self), *layout, *final(self), ptr),
            ptr matches Some(p) ==> {
                &&& p as int % layout.spec_align() as int == 0
                &&& old(self).arena.tracker <= p
                &&& p + layout.spec_size() == final(self).arena.tracker
                &&& final(self).arena.tracker <= final(self).arena.layout.spec_size()
            },
    {
        let bytes_to_push = self.arena.bytes_to_push(layout);
        let align = layout.align();
        proof {
            reveal(vstd::arithmetic::power2::is_pow2);
            lemma_align_padding(self.arena.tracker as int, align as int);
        }
        if self.arena.layout.size() - self.arena.used_bytes < bytes_to_push {
            return None;
        }
        let prev_tracker = self.arena.tracker;
        self.prev_trackers.push(prev_tracker);
        self.arena.advance(bytes_to_push);
        self.prev_allocation_sizes.push(bytes_to_push);
        Some(prev_tracker + (bytes_to_push - layout.size()))
    }

    /// Pops the last allocation: the tracker goes back to where that allocation
    /// started and its bytes are no longer used. With nothing allocated
    /// (`used_bytes == 0`) nothing changes.
    pub fn pop(&mut self)
        requires
            old(self).wf(),
        ensures
            final(self).wf(),
            stack_pop_outcome(*old(self), *final(self)),
    {
        if self.arena.used_bytes == 0 {
            return ;
        }
        let n = self.prev_trackers.len();
        let prev_tracker = self.prev_trackers[n - 1];
        let prev_allocation_size = self.prev_allocation_sizes[n - 1];
        self.backward_tracker(prev_tracker);
        self.reduce_used_bytes(prev_allocation_size);
        assert(self.prev_trackers@ =~= old(self).prev_trackers@.drop_last());
        assert(self.prev_allocation_sizes@ =~= old(self).prev_allocation_sizes@.drop_last());
    }

    /// Releases the arena, which is left with a region of zero bytes; the records
    /// of earlier allocations are kept.
    pub fn clear(&mut self)
        ensures
            old(self).wf() ==> final(self).wf(),
            final(self).arena.start == 0,
            final(self).arena.tracker == 0,
            final(self).arena.used_bytes == 0,
            final(self).arena.layout.spec_size() == 0,
            final(self).arena.layout.spec_align() == 1,
            final(self).arena.memory@.len() == 0,
            final(self).prev_allocation_sizes@ == old(self).prev_allocation_sizes@,
            final(self).prev_trackers@ == old(self).prev_trackers@,
    {
        self.arena.clear();
    }

    /// Moves the tracker back to `prev_tracker` and drops the last recorded
    /// tracker, if there is one.
    fn backward_tracker(&mut self, prev_tracker: usize)
        ensures
            final(self).arena.tracker == prev_tracker,
            final(self).arena.used_bytes == old(self).arena.used_bytes,
            final(self).arena.start == old(self).arena.start,
            final(self).arena.layout == old(self).arena.layout,
            final(self).arena.memory@ == old(self).arena.memory@,
            final(self).prev_trackers@ == (if old(self).prev_trackers@.len() > 0 {
                old(self).prev_trackers@.drop_last()
            } else {
                old(self).prev_trackers@
            }),
            final(self).prev_allocation_sizes@ == old(self).prev_allocation_sizes@,
    {
        self.arena.tracker = prev_tracker;
        self.prev_trackers.pop();
    }

    /// Takes `prev_allocation_size` off the used bytes, stopping at zero, and drops
    /// the last recorded size, if there is one.
    fn reduce_used_bytes(&mut self, prev_allocation_size: usize)
        ensures
            final(self).arena.used_bytes == (if old(self).arena.used_bytes >= prev_allocation_size {
                old(self).arena.used_bytes - prev_allocation_size
            } else {
                0
            }),
            final(self).arena.tracker == old(self).arena.tracker,
            final(self).arena.start == old(self).arena.start,
            final(self).arena.layout == old(self).arena.layout,
            final(self).arena.memory@ == old(self).arena.memory@,
            final(self).prev_allocation_sizes@ == (if old(self).prev_allocation_sizes@.len() > 0 {
                old(self).prev_allocation_sizes@.drop_last()
            } else {
                old(self).prev_allocation_sizes@
            }),
            final(self).prev_trackers@ == old(self).prev_trackers@,
    {
        self.arena.used_bytes = self.arena.used_bytes.saturating_sub(prev_allocation_size);
        self.prev_allocation_sizes.pop();
    }
}

} // verus!
