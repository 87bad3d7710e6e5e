//! The region that every allocator of this crate carves its allocations from.

use vstd::prelude::*;
use vstd::arithmetic::power2::is_pow2;
use crate::layout::Layout;

verus! {

/// How many bytes `addr` must move forward to become a multiple of `align`.
pub open spec fn align_padding(addr: int, align: int) -> int {
    (align - addr % align) % align
}

/// The padding moves `addr` to the nearest multiple of `align` at or after it.
pub proof fn lemma_align_padding(addr: int, align: int)
    requires
        addr >= 0,
        align > 0,
    ensures
        0 <= align_padding(addr, align) < align,
        (addr + align_padding(addr, align)) % align == 0,
        addr % align == 0 ==> align_padding(addr, align) == 0,
        addr % align != 0 ==> align_padding(addr, align) == align - addr % align,
{
    let r = addr % align;
    assert(0 <= r < align) by (nonlinear_arith)
        requires
            align > 0,
            r == addr % align,
    ;
    if r == 0 {
        assert(align % align == 0) by (nonlinear_arith)
            requires
                align > 0,
        ;
    } else {
        assert((align - r) % align == align - r) by (nonlinear_arith)
            requires
                0 < r < align,
        ;
        assert((addr + (align - r)) % align == 0) by (nonlinear_arith)
            requires
                align > 0,
                r == addr % align,
        ;
    }
}

/// A zero-initialised region of `layout.size()` bytes, with a tracker that marks
/// where the next allocation begins. Offsets into the region start at `start`.
pub struct Arena {
    pub start: usize,
    pub tracker: usize,
    pub used_bytes: usize,
    pub layout: Layout,
    pub memory: Vec<u8>,
}

/// The arena `post` is `pre` with nothing changed.
pub open spec fn arena_unchanged(pre: Arena, post: Arena) -> bool {
    &&& post.start == pre.start
    &&& post.tracker == pre.tracker
    &&& post.used_bytes == pre.used_bytes
    &&& post.layout == pre.layout
    &&& post.memory@ == pre.memory@
}

/// What pushing `layout` onto the arena `pre` gives: the arena `post` and the
/// returned offset `ptr`. The push succeeds exactly when the padded request fits in
/// the unused part of the region; it then returns the aligned offset where the
/// data starts and moves the tracker past it. Otherwise nothing changes.
pub open spec fn push_outcome(pre: Arena, layout: Layout, post: Arena, ptr: Option<usize>) -> bool {
    let bytes = pre.spec_bytes_to_push(layout);
    if pre.used_bytes + bytes <= pre.layout.spec_size() {
        &&& ptr == Some(
            (pre.tracker + align_padding(pre.tracker as int, layout.spec_align() as int)) as usize,
        )
        &&& post.tracker == pre.tracker + bytes
        &&& post.used_bytes == pre.used_bytes + bytes
        &&& post.start == pre.start
        &&& post.layout == pre.layout
        &&& post.memory@ == pre.memory@
    } else {
        &&& ptr is None
        &&& arena_unchanged(pre, post)
    }
}

/// Two pushes in a row that both succeed hand out regions that do not overlap:
/// the second starts at or after the end of the first, and both lie inside the
/// arena's region.
pub proof fn lemma_pushes_do_not_overlap(
    a0: Arena,
    l1: Layout,
    a1: Arena,
    p1: usize,
    l2: Layout,
    a2: Arena,
    p2: usize,
)
    requires
        a0.wf(),
        l1.valid(),
        l2.valid(),
        push_outcome(a0, l1, a1, Some(p1)),
        push_outcome(a1, l2, a2, Some(p2)),
    ensures
        a0.start <= p1,
        p1 + l1.spec_size() <= p2,
        p2 + l2.spec_size() <= a0.start + a0.layout.spec_size(),
{
    l1.lemma_valid();
    l2.lemma_valid();
    lemma_align_padding(a0.tracker as int, l1.spec_align() as int);
    lemma_align_padding(a1.tracker as int, l2.spec_align() as int);
}

/// Only one amount below `align` moves `addr` to a multiple of `align`.
pub proof fn lemma_aligning_padding_unique(addr: int, align: int, p: int, q: int)
    requires
        addr >= 0,
        align > 0,
        0 <= p < align,
        0 <= q < align,
        (addr + p) % align == 0,
        (addr + q) % align == 0,
    ensures
        p == q,
{
    let x = addr + p;
    let y = addr + q;
    assert(x == align * (x / align)) by (nonlinear_arith)
        requires
            align > 0,
            x % align == 0,
    ;
    assert(y == align * (y / align)) by (nonlinear_arith)
        requires
            align > 0,
            y % align == 0,
    ;
    let d = x / align - y / align;
    assert(p - q == align * d) by (nonlinear_arith)
        requires
            x == align * (x / align),
            y == align * (y / align),
            d == x / align - y / align,
            x == addr + p,
            y == addr + q,
    ;
    assert(d == 0) by (nonlinear_arith)
        requires
            p - q == align * d,
            -align < p - q < align,
            align > 0,
    ;
}

/// The bytes that a push of `layout` takes are the layout's size plus a padding
/// below the alignment that makes the tracker a multiple of the alignment (there
/// is only one such padding, by `lemma_aligning_padding_unique`), whatever the
/// state of the arena.
pub proof fn lemma_bytes_to_push_pads_to_alignment(arena: Arena, layout: Layout, bytes: int)
    requires
        layout.valid(),
        bytes == arena.spec_bytes_to_push(layout),
    ensures
        layout.spec_size() <= bytes < layout.spec_size() + layout.spec_align(),
        (arena.tracker + (bytes - layout.spec_size())) % (layout.spec_align() as int) == 0,
{
    layout.lemma_valid();
    lemma_align_padding(arena.tracker as int, layout.spec_align() as int);
}

/// A push onto an arena succeeds exactly when the used bytes, the padding that
/// aligns the tracker and the layout's size together fit in the region. It then
/// returns the aligned tracker and uses the padding and the size; a refused push
/// changes nothing. The region and its contents never change.
pub proof fn lemma_push_succeeds_exactly_when_it_fits(
    pre: Arena,
    layout: Layout,
    post: Arena,
    ptr: Option<usize>,
    pad: int,
)
    requires
        layout.valid(),
        push_outcome(pre, layout, post, ptr),
        0 <= pad < layout.spec_align(),
        (pre.tracker + pad) % (layout.spec_align() as int) == 0,
    ensures
        ptr is Some <==> pre.used_bytes + pad + layout.spec_size() <= pre.layout.spec_size(),
        ptr is Some ==> {
            &&& ptr == Some((pre.tracker + pad) as usize)
            &&& post.tracker == pre.tracker + pad + layout.spec_size()
            &&& post.used_bytes == pre.used_bytes + pad + layout.spec_size()
        },
        ptr is None ==> post.tracker == pre.tracker && post.used_bytes == pre.used_bytes,
        post.start == pre.start,
        post.layout == pre.layout,
        post.memory@ == pre.memory@,
{
    layout.lemma_valid();
    lemma_align_padding(pre.tracker as int, layout.spec_align() as int);
    lemma_aligning_padding_unique(
        pre.tracker as int,
        layout.spec_align() as int,
        pad,
        align_padding(pre.tracker as int, layout.spec_align() as int),
    );
}

impl Arena {
    /// The arena's bookkeeping agrees with its region: the tracker lies
    /// `used_bytes` past the start and never beyond the region's end.
    pub open spec fn wf(&self) -> bool {
        &&& self.start == 0
        &&& self.tracker == self.start + self.used_bytes
        &&& self.used_bytes <= self.layout.spec_size()
        &&& self.layout.spec_align() == 1
        &&& self.memory@.len() == self.layout.spec_size()
    }

    /// The bytes that an allocation of `layout` takes at the tracker: the padding
    /// that aligns the tracker, then the layout's size.
    pub open spec fn spec_bytes_to_push(&self, layout: Layout) -> int {
        align_padding(self.tracker as int, layout.spec_align() as int) + layout.spec_size()
    }

    /// A fresh arena of `size` zeroed bytes, with nothing allocated.
    pub fn build(size: usize) -> (arena: Self)
        requires
            size <= isize::MAX,
        ensures
            arena.wf(),
            arena.start == 0,
            arena.tracker == 0,
            arena.used_bytes == 0,
            arena.layout.spec_size() == size,
            arena.layout.spec_align() == 1,
            arena.memory@ == Seq::new(size as nat, |i: int| 0u8),
    {
        proof {
            reveal(is_pow2);
        }
        let layout = Layout::from_size_align(size, 1).unwrap();
        let memory = vec![0u8; size];
        assert(memory@ =~= Seq::new(size as nat, |i: int| 0u8));
        Arena { start: 0, tracker: 0, used_bytes: 0, layout, memory }
    }

    /// The bytes that pushing `layout` would take: the padding that aligns the
    /// tracker to `layout.align()`, plus `layout.size()`.
    pub fn bytes_to_push(&self, layout: &Layout) -> (bytes: usize)
        ensures
            bytes == self.spec_bytes_to_push(*layout),
    {
        let requested_bytes = layout.size();
        let align = layout.align();
        proof {
            reveal(is_pow2);
            lemma_align_padding(self.tracker as int, align as int);
            vstd::arithmetic::div_mod::lemma_mod_decreases(isize::MAX as nat, align as nat);
            if align > isize::MAX {
                vstd::arithmetic::div_mod::lemma_small_mod(isize::MAX as nat, align as nat);
            }
        }
        let rem = self.tracker % align;
        let padding = if rem == 0 {
            0
        } else {
            align - rem
        };
        assert(padding == align_padding(self.tracker as int, align as int));
        padding + requested_bytes
    }

    /// Reserves `bytes` at the tracker, which must fit in the region.
    pub(crate) fn advance(&mut self, bytes: usize)
        requires
            old(self).wf(),
            old(self).used_bytes + bytes <= old(self).layout.spec_size(),
        ensures
            final(self).wf(),
            final(self).tracker == old(self).tracker + bytes,
            final(self).used_bytes == old(self).used_bytes + bytes,
            final(self).start == old(self).start,
            final(self).layout == old(self).layout,
            final(self).memory@ == old(self).memory@,
    {
        self.tracker = self.tracker + bytes;
        self.used_bytes = self.used_bytes + bytes;
    }

    /// Copies `bytes` into the region, starting at `offset`.
    pub fn write(&mut self, offset: usize, bytes: &[u8])
        requires
            offset + bytes@.len() <= old(self).memory@.len(),
        ensures
            final(self).memory@ == old(self).memory@.subrange(0, offset as int) + bytes@
                + old(self).memory@.subrange(offset + bytes@.len(), old(self).memory@.len() as int),
            final(self).start == old(self).start,
            final(self).tracker == old(self).tracker,
            final(self).used_bytes == old(self).used_bytes,
            final(self).layout == old(self).layout,
    {
        let n = bytes.len();
        let mlen = self.memory.len();
        for i in 0..n
            invariant
                n == bytes@.len(),
                mlen == old(self).memory@.len(),
                offset + n <= mlen,
                self.memory@.len() == old(self).memory@.len(),
                self.start == old(self).start,
                self.tracker == old(self).tracker,
                self.used_bytes == old(self).used_bytes,
                self.layout == old(self).layout,
                forall|k: int|
                    0 <= k < self.memory@.len() ==> #[trigger] self.memory@[k] == if offset <= k
                        < offset + i {
                        bytes@[k - offset]
                    } else {
                        old(self).memory@[k]
                    },
        {
            self.memory.set(offset + i, bytes[i]);
        }
        assert(self.memory@ =~= old(self).memory@.subrange(0, offset as int) + bytes@
            + old(self).memory@.subrange(offset + bytes@.len(), old(self).memory@.len() as int));
    }

    /// The `len` bytes of the region that start at `offset`.
    pub fn read(&self, offset: usize, len: usize) -> (bytes: Vec<u8>)
        requires
            offset + len <= self.memory@.len(),
        ensures
            bytes@ == self.memory@.subrange(offset as int, offset + len),
    {
        let mut bytes: Vec<u8> = Vec::new();
        let mlen = self.memory.len();
        for i in 0..len
            invariant
                mlen == self.memory@.len(),
                offset + len <= mlen,
                bytes@ == self.memory@.subrange(offset as int, offset + i),
        {
            bytes.push(self.memory[offset + i]);
            assert(bytes@ =~= self.memory@.subrange(offset as int, offset + i + 1));
        }
        bytes
    }

    /// The bytes of the region that are not allocated yet.
    pub fn remaining_space(&self) -> (r: usize)
        ensures
            self.used_bytes <= self.layout.spec_size() ==> r == self.layout.spec_size()
                - self.used_bytes,
            self.used_bytes > self.layout.spec_size() ==> r == 0,
    {
        self.layout.size().saturating_sub(self.used_bytes)
    }

    /// Releases the region: the arena is left empty, with a region of zero bytes.
    pub fn clear(&mut self)
        ensures
            final(self).wf(),
            final(self).start == 0,
            final(self).tracker == 0,
            final(self).used_bytes == 0,
            final(self).layout.spec_size() == 0,
            final(self).layout.spec_align() == 1,
            final(self).memory@.len() == 0,
    {
        self.memory = Vec::new();
        let empty = Arena::build(0);
        self.start = empty.start;
        self.tracker = empty.tracker;
        self.used_bytes = empty.used_bytes;
        self.layout = empty.layout;
    }
}

} // verus!
