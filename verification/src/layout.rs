//! Storage descriptors: the size and the alignment that a value asks of the arena.

use vstd::prelude::*;

verus! {

/// Whether `n` is one of 1, 2, 4, 8, ...
pub open spec fn is_power_of_two(n: nat) -> bool
    decreases n,
{
    if n <= 1 {
        n == 1
    } else {
        n % 2 == 0 && is_power_of_two(n / 2)
    }
}

/// The pairs that describe storage: the alignment is a power of two, and the
/// size, rounded up to a multiple of the alignment, does not pass `isize::MAX`.
pub open spec fn valid_layout(size: nat, align: nat) -> bool {
    is_power_of_two(align) && size + align - 1 <= isize::MAX
}

/// Decides [`is_power_of_two`] by halving.
pub fn power_of_two(n: usize) -> (yes: bool)
    ensures
        yes == is_power_of_two(n as nat),
{
    let mut m: usize = n;
    while m > 1 && m % 2 == 0
        invariant
            is_power_of_two(m as nat) == is_power_of_two(n as nat),
        decreases m,
    {
        m = m / 2;
    }
    m == 1
}

/// A size and an alignment, in bytes.
#[derive(Clone, Copy, Debug)]
pub struct Layout {
    pub size: usize,
    pub align: usize,
}

impl Layout {
    /// Whether the pair describes storage (see [`valid_layout`]).
    pub open spec fn valid(self) -> bool {
        valid_layout(self.size as nat, self.align as nat)
    }

    /// The descriptor of `size` bytes aligned to `align`, or `None` where the
    /// pair describes no storage.
    pub fn from_size_align(size: usize, align: usize) -> (made: Option<Layout>)
        ensures
            made.is_some() == valid_layout(size as nat, align as nat),
            made.is_some() ==> made.unwrap() == (Layout { size, align }),
    {
        if !power_of_two(align) {
            return None;
        }
        let most: usize = isize::MAX as usize;
        if align - 1 > most || size > most - (align - 1) {
            return None;
        }
        Some(Layout { size, align })
    }

    /// The number of bytes.
    pub fn size(&self) -> (n: usize)
        ensures
            n == self.size,
    {
        self.size
    }

    /// The alignment, in bytes.
    pub fn align(&self) -> (n: usize)
        ensures
            n == self.align,
    {
        self.align
    }
}

/// A valid alignment is at least one, and neither it nor the size passes
/// `isize::MAX + 1`.
pub proof fn lemma_valid_layout_bounds(size: nat, align: nat)
    requires
        valid_layout(size, align),
    ensures
        1 <= align <= isize::MAX + 1,
        size <= isize::MAX,
{
}

} // verus!
