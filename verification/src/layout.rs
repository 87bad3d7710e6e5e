//! The size and alignment requirement of a request for memory.

use vstd::prelude::*;
use vstd::arithmetic::div_mod::lemma_mod_decreases;
use vstd::arithmetic::power2::is_pow2;
use vstd::layout::{align_of, layout_for_type_is_valid, size_of, valid_layout};

verus! {

/// Returned by [`Layout::from_size_align`] when the pair is not a valid layout.
#[derive(Clone, Copy, Debug, PartialEq, Eq, Structural)]
pub struct LayoutError;

/// A size in bytes together with an alignment, which is a power of two; the size,
/// rounded up to a multiple of the alignment, does not exceed `isize::MAX`.
#[derive(Clone, Copy, Debug, PartialEq, Eq, Structural)]
pub struct Layout {
    size: usize,
    align: usize,
}

/// Whether `n` is a power of two.
pub fn is_power_of_two(n: usize) -> (b: bool)
    ensures
        b == is_pow2(n as int),
{
    if n == 0 {
        proof {
            reveal(is_pow2);
        }
        return false;
    }
    let mut m: usize = n;
    while m > 1 && m % 2 == 0
        invariant
            m > 0,
            is_pow2(n as int) == is_pow2(m as int),
        decreases m,
    {
        proof {
            reveal(is_pow2);
        }
        m = m / 2;
    }
    proof {
        reveal(is_pow2);
    }
    m == 1
}

impl Layout {
    #[verifier::type_invariant]
    pub closed spec fn valid(self) -> bool {
        valid_layout(self.size, self.align)
    }

    pub closed spec fn spec_size(&self) -> usize {
        self.size
    }

    pub closed spec fn spec_align(&self) -> usize {
        self.align
    }

    /// What the invariant of a layout gives: a power-of-two alignment, at least one,
    /// and a size that, rounded up to it, stays within `isize::MAX`.
    pub proof fn lemma_valid(self)
        requires
            self.valid(),
        ensures
            valid_layout(self.spec_size(), self.spec_align()),
            self.spec_align() > 0,
    {
        reveal(is_pow2);
    }

    /// Two layouts with the same size and alignment are the same layout.
    pub proof fn lemma_ext_equal(self, other: Layout)
        requires
            self.spec_size() == other.spec_size(),
            self.spec_align() == other.spec_align(),
        ensures
            self == other,
    {
    }

    /// The layout of `size` bytes aligned to `align`, or an error where the pair is
    /// not a valid layout.
    pub fn from_size_align(size: usize, align: usize) -> (r: Result<Layout, LayoutError>)
        ensures
            r is Ok <==> valid_layout(size, align),
            r matches Ok(l) ==> l.spec_size() == size && l.spec_align() == align,
    {
        if !is_power_of_two(align) {
            return Err(LayoutError);
        }
        let max: usize = isize::MAX as usize;
        proof {
            reveal(is_pow2);
            lemma_mod_decreases(max as nat, align as nat);
        }
        if size > max - max % align {
            return Err(LayoutError);
        }
        Ok(Layout { size, align })
    }

    /// The layout of a value of type `T`.
    pub fn new<T>() -> (l: Layout)
        ensures
            l.spec_size() == size_of::<T>(),
            l.spec_align() == align_of::<T>(),
    {
        layout_for_type_is_valid::<T>();
        Layout { size: std::mem::size_of::<T>(), align: std::mem::align_of::<T>() }
    }

    /// The size in bytes.
    #[verifier::when_used_as_spec(spec_size)]
    pub fn size(&self) -> (r: usize)
        ensures
            r == self.spec_size(),
            valid_layout(self.spec_size(), self.spec_align()),
    {
        proof {
            use_type_invariant(self);
        }
        self.size
    }

    /// The alignment, a power of two.
    #[verifier::when_used_as_spec(spec_align)]
    pub fn align(&self) -> (r: usize)
        ensures
            r == self.spec_align(),
            valid_layout(self.spec_size(), self.spec_align()),
    {
        proof {
            use_type_invariant(self);
        }
        self.align
    }
}

} // verus!
