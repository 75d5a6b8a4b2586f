//! The arena: the one place where values become handles.

use vstd::prelude::*;
use crate::allocatable::Allocatable;
use crate::heap::Heap;
use crate::layout::Layout;
use crate::ledger::{overwrite, zeros, Ledger};
use crate::mutator::HeapMutator;

verus! {

/// The number of records that an arena made by [`Memory::new`] sets room
/// aside for.
pub const DEFAULT_HEAP_INIT_SIZE: usize = 1024;

/// An arena: it owns one table of blocks, stores values in it and hands out
/// the handles that reach them. Whoever holds the arena mutably has the table
/// to itself.
#[derive(Debug)]
pub struct Memory {
    heap: Heap,
}

impl View for Memory {
    type V = Ledger;

    closed spec fn view(&self) -> Ledger {
        self.heap@
    }
}

impl Memory {
    /// An empty arena with room for [`DEFAULT_HEAP_INIT_SIZE`] records.
    pub fn new() -> (memory: Memory)
        ensures
            memory@ == Ledger::empty(),
            memory@.wf(),
    {
        Memory::with_size(DEFAULT_HEAP_INIT_SIZE)
    }

    /// An empty arena with room for `initial_size` records. The number is a
    /// hint: it bounds nothing.
    pub fn with_size(initial_size: usize) -> (memory: Memory)
        ensures
            memory@ == Ledger::empty(),
            memory@.wf(),
    {
        Memory { heap: Heap::new(initial_size) }
    }

    /// The arena's table, to itself for as long as the borrow lasts.
    pub fn get_heap(&mut self) -> (heap: &mut Heap)
        ensures
            heap@ == old(self)@,
            final(self)@ == final(heap)@,
    {
        &mut self.heap
    }

    /// The arena's table, to read.
    pub fn heap(&self) -> (heap: &Heap)
        ensures
            heap@ == self@,
    {
        &self.heap
    }

    /// Whether the address space has room for one more value of `T`.
    pub fn has_room<T: Allocatable>(&self) -> (yes: bool)
        ensures
            yes == self@.can_alloc(T::layout_spec()),
    {
        self.heap.place(Layout::new::<T>()).is_some()
    }

    /// Stores `value` in a block of its own and returns the one handle to
    /// it. The block is reserved with the layout of `T`, zeroed, and then
    /// holds the value's image.
    pub fn allocate<T: Allocatable>(&mut self, value: T) -> (handle: HeapMutator<T>)
        requires
            old(self)@.wf(),
            old(self)@.can_alloc(T::layout_spec()),
        ensures
            final(self)@.wf(),
            final(self)@ == old(self)@.allocated(T::layout_spec(), value.image(), 1),
            handle.address() == old(self)@.place(T::layout_spec()),
            !old(self)@.contains(handle.address()),
            handle.live_in(final(self)@),
            handle.value_in(final(self)@) == value,
            final(self)@.block(handle.address()).bytes == value.image(),
            final(self)@.ref_count(handle.address()) == 1,
            final(self)@.count() == old(self)@.count() + 1,
            final(self)@.total_size() == old(self)@.total_size() + T::layout_spec().size,
    {
        let layout: Layout = Layout::new::<T>();
        let ghost before = self@;
        let ghost blank = zeros(layout.size as nat);
        let addr: usize = self.heap.alloc_zeroed(layout);
        let bytes: Vec<u8> = value.to_bytes();
        assert(bytes@.len() == layout.size) by {
            T::lemma_image(value);
        }
        assert(self@.contains(addr) && self@.block(addr).layout == layout && self@.ref_count(addr)
            == 0 && (addr as nat) % (layout.align as nat) == 0) by {
            before.lemma_allocated(layout, blank, 0);
        }
        self.heap.store(addr, &bytes);
        assert(self@ == before.allocated(layout, bytes@, 0)) by {
            before.lemma_allocated_stored(layout, blank, 0, bytes@);
            assert(overwrite(blank, bytes@) =~= bytes@);
        }
        assert(self@.contains(addr) && self@.block(addr).layout == layout && self@.block(
            addr,
        ).bytes == bytes@ && self@.ref_count(addr) == 0) by {
            before.lemma_allocated(layout, bytes@, 0);
        }
        let handle: HeapMutator<T> = HeapMutator::new_unchecked(addr, &mut self.heap);
        assert(self@ == before.allocated(layout, bytes@, 1)) by {
            before.lemma_allocated_with_refs(layout, bytes@, 0, 1);
        }
        assert(self@.block(addr).bytes == bytes@ && self@.ref_count(addr) == 1 && self@.count()
            == before.count() + 1 && self@.total_size() == before.total_size() + layout.size) by {
            before.lemma_allocated(layout, bytes@, 1);
        }
        assert(handle.value_in(self@) == value) by {
            T::lemma_image(value);
            assert(bytes@.subrange(0, layout.size as int) =~= bytes@);
        }
        handle
    }

    /// Frees the handle's block and gives the handle up, as
    /// [`HeapMutator::dealloc`] does.
    pub fn dealloc<T: Allocatable>(&mut self, mutator: HeapMutator<T>)
        requires
            old(self)@.wf(),
        ensures
            final(self)@.wf(),
            final(self)@ == mutator.after_drop(old(self)@),
            mutator.frees(old(self)@) && old(self)@.contains(mutator.address())
                ==> old(self)@.gave_back(final(self)@, mutator.address()),
            !mutator.frees(old(self)@) ==> old(self)@.same_sizes(final(self)@),
    {
        let _ = mutator.dealloc(&mut self.heap);
    }

    /// A copy of every live byte, block after block in table order.
    pub fn bytes(&self) -> (all: Vec<u8>)
        requires
            self@.wf(),
        ensures
            all@ == self@.dump(),
            all@.len() == self@.total_size(),
    {
        self.heap.bytes()
    }

    /// The number of live bytes.
    pub fn size(&self) -> (n: usize)
        requires
            self@.wf(),
        ensures
            n == self@.total_size(),
    {
        self.heap.size()
    }

    /// The number of live blocks.
    pub fn count(&self) -> (n: usize)
        ensures
            n == self@.count(),
    {
        self.heap.count()
    }
}

impl Default for Memory {
    fn default() -> (memory: Memory)
        ensures
            memory@ == Ledger::empty(),
            memory@.wf(),
    {
        Memory::new()
    }
}

} // verus!
