//! The bump allocator: allocations only ever go forward, and the whole region
//! is released at once.

use vstd::prelude::*;
use super::arena::{lemma_align_padding, push_outcome, Arena};
use crate::layout::Layout;

verus! {

/// A bump (linear) allocator over one arena.
pub struct BumpAlloc {
    pub arena: Arena,
}

impl BumpAlloc {
    /// A bump allocator over a fresh arena of `length` zeroed bytes.
    pub fn build(length: usize) -> (alloc: Self)
        requires
            length <= isize::MAX,
        ensures
            alloc.arena.wf(),
            alloc.arena.used_bytes == 0,
            alloc.arena.tracker == 0,
            alloc.arena.layout.spec_size() == length,
            alloc.arena.layout.spec_align() == 1,
            alloc.arena.memory@ == Seq::new(length as nat, |i: int| 0u8),
    {
        BumpAlloc { arena: Arena::build(length) }
    }

    /// Allocates `layout` at the tracker, after the padding that aligns it.
    /// Returns the offset where the data starts, or `None`, leaving the arena as
    /// it was, where the padded request does not fit in the remaining space.
    pub fn push(&mut self, layout: &Layout) -> (ptr: Option<usize>)
        requires
            old(self).arena.wf(),
        ensures
            final(self).arena.wf(),
            push_outcome(old(self).arena, *layout, final(self).arena, ptr),
            ptr matches Some(p) ==> {
                &&& p as int % layout.spec_align() as int == 0
                &&& old(self).arena.tracker <= p
                &&& p + layout.spec_size() == final(self).arena.tracker
                &&& final(self).arena.tracker <= final(self).arena.layout.spec_size()
            },
    {
        let bytes_to_push = self.arena.bytes_to_push(layout);
        let align = layout.align();
        proof {
            reveal(vstd::arithmetic::power2::is_pow2);
            lemma_align_padding(self.arena.tracker as int, align as int);
        }
        if self.arena.layout.size() - self.arena.used_bytes < bytes_to_push {
            return None;
        }
        let prev_tracker = self.arena.tracker;
        self.arena.advance(bytes_to_push);
        Some(prev_tracker + (bytes_to_push - layout.size()))
    }

    /// Releases the arena; it is left empty, with a region of zero bytes.
    pub fn clear(&mut self)
        ensures
            final(self).arena.wf(),
            final(self).arena.start == 0,
            final(self).arena.tracker == 0,
            final(self).arena.used_bytes == 0,
            final(self).arena.layout.spec_size() == 0,
            final(self).arena.layout.spec_align() == 1,
            final(self).arena.memory@.len() == 0,
    {
        self.arena.clear();
    }
}

} // verus!
