//! Handles: typed, reference-counted access to one block of the table.

use core::marker::PhantomData;
use vstd::prelude::*;
use crate::allocatable::Allocatable;
use crate::heap::Heap;
use crate::layout::Layout;
use crate::ledger::{block_ok, overwrite, zeros, Block, Ledger};

verus! {

/// A handle to one block of a [`Heap`], read as a value of `T`. Handles that
/// were cloned from one another share the block; the block is released when
/// the last of them is freed or dropped. A handle is live until it has freed
/// its block, and freed from then on.
#[derive(Debug)]
pub struct HeapMutator<T: Allocatable> {
    /// The address of the block.
    addr: usize,
    /// Whether this handle has released the block.
    deallocated: bool,
    marker: PhantomData<T>,
}

/// The layout of the block that a cast from `T` to `U` reserves: as large as
/// the larger of the two types, aligned as `U` asks.
pub open spec fn cast_layout<T: Allocatable, U: Allocatable>() -> Layout {
    Layout {
        size: if T::layout_spec().size >= U::layout_spec().size {
            T::layout_spec().size
        } else {
            U::layout_spec().size
        },
        align: U::layout_spec().align,
    }
}

/// The bytes that a cast to `U` carries over from a block that holds `held`:
/// as many as a value of `U` has, or all of them where there are fewer.
pub open spec fn carried<U: Allocatable>(held: Seq<u8>) -> Seq<u8> {
    if U::layout_spec().size <= held.len() {
        held.subrange(0, U::layout_spec().size as int)
    } else {
        held
    }
}

impl<T: Allocatable> HeapMutator<T> {
    /// The address of the handle's block.
    pub closed spec fn address(&self) -> usize {
        self.addr
    }

    /// Whether the handle has freed its block.
    pub closed spec fn is_freed(&self) -> bool {
        self.deallocated
    }

    /// Whether the handle is live in the table: it has not freed its block,
    /// the block is there and counts at least this handle, and it is large
    /// enough for a value of `T`.
    pub open spec fn live_in(&self, heap: Ledger) -> bool {
        &&& !self.is_freed()
        &&& heap.contains(self.address())
        &&& heap.ref_count(self.address()) >= 1
        &&& T::layout_spec().size <= heap.block(self.address()).layout.size
    }

    /// The value that the handle's block is read as.
    pub open spec fn value_in(&self, heap: Ledger) -> T {
        T::from_image(
            heap.block(self.address()).bytes.subrange(0, T::layout_spec().size as int),
        )
    }

    /// Whether freeing the handle releases the block: the handle has not
    /// freed it before, and no other handle shares it.
    pub open spec fn frees(&self, heap: Ledger) -> bool {
        !self.is_freed() && heap.ref_count(self.address()) < 2
    }

    /// The table after the handle was asked to free its block.
    pub open spec fn after_free(&self, heap: Ledger) -> Ledger {
        if self.frees(heap) {
            heap.released(self.address())
        } else {
            heap
        }
    }

    /// The table after the handle was dropped: the block is released where
    /// the handle was the last to share it, and counts one handle less
    /// otherwise; a handle that has freed its block leaves nothing behind.
    pub open spec fn after_drop(&self, heap: Ledger) -> Ledger {
        if self.is_freed() {
            heap
        } else {
            heap.dropped(self.address())
        }
    }

    /// The table after the handle was cast to `U`: a block of the cast's
    /// layout is reserved, zeroed and filled with the bytes carried over,
    /// the handle is dropped, and the new block counts one handle.
    pub open spec fn after_cast<U: Allocatable>(&self, heap: Ledger) -> Ledger {
        let layout = cast_layout::<T, U>();
        let bytes = overwrite(
            zeros(layout.size as nat),
            carried::<U>(heap.block(self.address()).bytes),
        );
        self.after_drop(heap.allocated(layout, bytes, 0)).shared(heap.place(layout) as usize)
    }

    /// A handle to the block at `addr`, which no handle shares yet. The
    /// caller answers for the block: it is live, large enough for a value of
    /// `T`, and aligned as `T` asks.
    pub fn new_unchecked(addr: usize, heap: &mut Heap) -> (handle: Self)
        requires
            old(heap)@.wf(),
            old(heap)@.contains(addr),
            old(heap)@.ref_count(addr) == 0,
            T::layout_spec().size <= old(heap)@.block(addr).layout.size,
            (addr as nat) % (T::layout_spec().align as nat) == 0,
        ensures
            final(heap)@.wf(),
            final(heap)@ == old(heap)@.shared(addr),
            handle.address() == addr,
            handle.live_in(final(heap)@),
            old(heap)@.same_sizes(final(heap)@),
    {
        proof {
            heap@.lemma_with_refs(addr, 1);
        }
        heap.share(addr);
        HeapMutator { addr, deallocated: false, marker: PhantomData }
    }

    /// The address of the handle's block.
    pub fn addr(&self) -> (addr: usize)
        ensures
            addr == self.address(),
    {
        self.addr
    }

    /// The value that the handle's block holds.
    pub fn get(&self, heap: &Heap) -> (value: T)
        requires
            heap@.wf(),
            self.live_in(heap@),
        ensures
            value == self.value_in(heap@),
    {
        let layout: Layout = T::layout();
        proof {
            heap@.lemma_found(self.addr);
            assert(block_ok(heap@.blocks[heap@.index_of(self.addr)], heap@.cursor));
        }
        let bytes: Vec<u8> = heap.load(self.addr, layout.size);
        T::from_bytes(&bytes)
    }

    /// Exclusive access to the value: where no other handle shares the
    /// block, `f` is run on the value, what it returns is stored in its
    /// place and handed back. Where the block is shared, nothing is run or
    /// changed and the result is `None`.
    pub fn get_mut<F: FnOnce(T) -> T>(&mut self, heap: &mut Heap, f: F) -> (stored: Option<T>)
        requires
            old(heap)@.wf(),
            old(self).live_in(old(heap)@),
            old(heap)@.ref_count(old(self).address()) == 1 ==> f.requires(
                (old(self).value_in(old(heap)@),),
            ),
        ensures
            final(heap)@.wf(),
            *final(self) == *old(self),
            final(self).live_in(final(heap)@),
            stored.is_some() == (old(heap)@.ref_count(old(self).address()) == 1),
            stored.is_none() ==> final(heap)@ == old(heap)@,
            stored.is_some() ==> f.ensures((old(self).value_in(old(heap)@),), stored.unwrap())
                && final(heap)@ == old(heap)@.stored(old(self).address(), stored.unwrap().image())
                && final(self).value_in(final(heap)@) == stored.unwrap(),
            old(heap)@.same_sizes(final(heap)@),
    {
        if heap.ref_count(self.addr) != 1 {
            return None;
        }
        let value: T = f(self.get(heap));
        let bytes: Vec<u8> = value.to_bytes();
        proof {
            T::lemma_image(value);
            heap@.lemma_stored(self.addr, bytes@);
        }
        heap.store(self.addr, &bytes);
        Some(value)
    }

    /// A copy of the value that the handle's block holds.
    pub fn get_owned(&self, heap: &Heap) -> (value: T)
        requires
            heap@.wf(),
            self.live_in(heap@),
        ensures
            value == self.value_in(heap@),
    {
        self.get(heap)
    }

    /// Stores `value` in the handle's block, whether or not other handles
    /// share it: they all read the new value from then on.
    pub fn write(&mut self, heap: &mut Heap, value: T)
        requires
            old(heap)@.wf(),
            old(self).live_in(old(heap)@),
        ensures
            final(heap)@.wf(),
            final(heap)@ == old(heap)@.stored(old(self).address(), value.image()),
            *final(self) == *old(self),
            final(self).live_in(final(heap)@),
            final(self).value_in(final(heap)@) == value,
            final(heap)@.block(old(self).address()).bytes == overwrite(
                old(heap)@.block(old(self).address()).bytes,
                value.image(),
            ),
            old(heap)@.same_sizes(final(heap)@),
    {
        let bytes: Vec<u8> = value.to_bytes();
        proof {
            T::lemma_image(value);
            heap@.lemma_stored(self.addr, bytes@);
        }
        heap.store(self.addr, &bytes);
    }

    /// Whether freeing this handle would release the block: no other handle
    /// shares it.
    pub fn can_dealloc(&self, heap: &Heap) -> (yes: bool)
        requires
            heap@.wf(),
        ensures
            yes == (heap@.ref_count(self.address()) < 2),
    {
        self.ref_count(heap) < 2
    }

    /// The number of handles that share the block, this one included.
    pub fn ref_count(&self, heap: &Heap) -> (n: usize)
        requires
            heap@.wf(),
        ensures
            n == heap@.ref_count(self.address()),
            self.live_in(heap@) ==> n >= 1,
    {
        heap.ref_count(self.addr)
    }

    /// One more handle to the same block.
    pub fn clone(&self, heap: &mut Heap) -> (twin: Self)
        requires
            old(heap)@.wf(),
            self.live_in(old(heap)@),
            old(heap)@.ref_count(self.address()) < usize::MAX,
        ensures
            final(heap)@.wf(),
            final(heap)@ == old(heap)@.shared(self.address()),
            final(heap)@.ref_count(self.address()) == old(heap)@.ref_count(self.address()) + 1,
            twin.address() == self.address(),
            twin.live_in(final(heap)@),
            self.live_in(final(heap)@),
            old(heap)@.same_sizes(final(heap)@),
    {
        proof {
            heap@.lemma_with_refs(self.addr, heap@.ref_count(self.addr) + 1);
        }
        heap.share(self.addr);
        HeapMutator { addr: self.addr, deallocated: false, marker: PhantomData }
    }

    /// Frees the block without giving up the handle: the block is released
    /// where the handle has not freed it before and no other handle shares
    /// it, and the handle is freed from then on. Otherwise nothing changes.
    /// The result says whether the block was released.
    pub fn dealloc_internal(&mut self, heap: &mut Heap) -> (done: bool)
        requires
            old(heap)@.wf(),
        ensures
            final(heap)@.wf(),
            done == old(self).frees(old(heap)@),
            final(heap)@ == old(self).after_free(old(heap)@),
            final(self).address() == old(self).address(),
            final(self).is_freed() == (old(self).is_freed() || done),
            done && old(heap)@.contains(old(self).address()) ==> old(heap)@.gave_back(
                final(heap)@,
                old(self).address(),
            ),
            !done ==> final(heap)@ == old(heap)@,
    {
        if self.deallocated {
            return false;
        }
        if !self.can_dealloc(heap) {
            return false;
        }
        let layout: Layout = T::layout();
        heap.dealloc(self.addr, layout);
        self.deallocated = true;
        true
    }

    /// Gives the handle up. The block is released where this was the last
    /// handle to share it; otherwise it counts one handle less. A handle
    /// that has freed its block leaves nothing to do.
    pub fn drop(self, heap: &mut Heap)
        requires
            old(heap)@.wf(),
        ensures
            final(heap)@.wf(),
            final(heap)@ == self.after_drop(old(heap)@),
            self.frees(old(heap)@) && old(heap)@.contains(self.address())
                ==> old(heap)@.gave_back(final(heap)@, self.address()),
            !self.frees(old(heap)@) ==> old(heap)@.same_sizes(final(heap)@),
            !self.is_freed() && old(heap)@.ref_count(self.address()) >= 2
                ==> final(heap)@.ref_count(self.address())
                == old(heap)@.ref_count(self.address()) - 1,
    {
        let mut handle = self;
        let was_freed: bool = handle.deallocated;
        let done: bool = handle.dealloc_internal(heap);
        if !done && !was_freed {
            proof {
                heap@.lemma_with_refs(handle.addr, (heap@.ref_count(handle.addr) - 1) as nat);
            }
            heap.unshare(handle.addr);
        }
    }

    /// Frees the block and gives the handle up. The result says whether the
    /// block was released: it was not where other handles still share it, or
    /// where the handle had freed it before.
    pub fn dealloc(self, heap: &mut Heap) -> (done: bool)
        requires
            old(heap)@.wf(),
        ensures
            final(heap)@.wf(),
            done == self.frees(old(heap)@),
            final(heap)@ == self.after_drop(old(heap)@),
            done && old(heap)@.contains(self.address()) ==> old(heap)@.gave_back(
                final(heap)@,
                self.address(),
            ),
            !done ==> old(heap)@.same_sizes(final(heap)@),
            !self.is_freed() && old(heap)@.ref_count(self.address()) >= 2
                ==> final(heap)@.ref_count(self.address())
                == old(heap)@.ref_count(self.address()) - 1,
    {
        let done: bool = self.frees_now(heap);
        self.drop(heap);
        done
    }

    /// Frees through a table that is kept behind a lock. `table` is what
    /// taking the lock gave: the table, or nothing where the lock could not
    /// be had. With the table this is [`HeapMutator::dealloc`]. Without it
    /// nothing can be released: the handle is given up, its block stays
    /// where it is, and the result is `false`.
    pub fn dealloc_guarded(self, table: Option<&mut Heap>) -> (done: bool)
        requires
            table matches Some(heap) ==> heap@.wf(),
        ensures
            table is None ==> !done,
            table matches Some(heap) ==> {
                &&& final(heap)@.wf()
                &&& done == self.frees(heap@)
                &&& final(heap)@ == self.after_drop(heap@)
            },
    {
        match table {
            Some(heap) => self.dealloc(heap),
            None => false,
        }
    }

    /// Whether freeing the handle now would release the block.
    fn frees_now(&self, heap: &Heap) -> (yes: bool)
        requires
            heap@.wf(),
        ensures
            yes == self.frees(heap@),
    {
        !self.deallocated && self.can_dealloc(heap)
    }

    /// The same handle, read as a value of `U`. No byte moves and no count
    /// changes; nothing is asked of how `U` fits the block.
    pub fn cast_unchecked<U: Allocatable>(self) -> (cast: HeapMutator<U>)
        ensures
            cast.address() == self.address(),
            !cast.is_freed(),
    {
        HeapMutator { addr: self.addr, deallocated: false, marker: PhantomData }
    }
}

impl<T: Allocatable> HeapMutator<T> {
    /// What dropping a handle does to the table: it stays sound, the
    /// handle's block is released or counts one handle less, and every other
    /// block is as it was.
    pub proof fn lemma_after_drop(&self, heap: Ledger)
        requires
            heap.wf(),
        ensures
            self.after_drop(heap).wf(),
            self.is_freed() ==> self.after_drop(heap) == heap,
            !self.is_freed() && heap.ref_count(self.address()) < 2 ==> !self.after_drop(
                heap,
            ).contains(self.address()),
            !self.is_freed() && heap.ref_count(self.address()) >= 2 ==> self.after_drop(
                heap,
            ).block(self.address()) == (Block {
                refs: (heap.ref_count(self.address()) - 1) as nat,
                ..heap.block(self.address())
            }) && self.after_drop(heap).contains(self.address()),
            forall|a: usize|
                a != self.address() ==> (#[trigger] self.after_drop(heap).contains(a))
                    == heap.contains(a),
            forall|a: usize|
                a != self.address() && heap.contains(a) ==> (#[trigger] self.after_drop(
                    heap,
                ).block(a)) == heap.block(a),
    {
        if !self.is_freed() {
            if heap.ref_count(self.address()) < 2 {
                heap.lemma_released(self.address());
            } else {
                heap.lemma_with_refs(
                    self.address(),
                    (heap.ref_count(self.address()) - 1) as nat,
                );
            }
        }
    }

    /// What a cast does to the table: the new block lies at a fresh address,
    /// holds the bytes carried over, zeros after them, and counts one handle;
    /// the old block is released where the handle was the last to share it,
    /// and counts one handle less otherwise; every other block is as it was.
    pub proof fn lemma_after_cast<U: Allocatable>(&self, heap: Ledger)
        requires
            heap.wf(),
            self.live_in(heap),
            cast_layout::<T, U>().valid(),
            heap.can_alloc(cast_layout::<T, U>()),
        ensures
            ({
                let layout = cast_layout::<T, U>();
                let at = heap.place(layout) as usize;
                let held = heap.block(self.address());
                let next = self.after_cast::<U>(heap);
                &&& next.wf()
                &&& at == heap.place(layout)
                &&& at != self.address()
                &&& (at as nat) % (U::layout_spec().align as nat) == 0
                &&& next.contains(at)
                &&& next.block(at) == (Block {
                    addr: at,
                    layout,
                    bytes: overwrite(zeros(layout.size as nat), carried::<U>(held.bytes)),
                    refs: 1,
                })
                &&& heap.ref_count(self.address()) == 1 ==> {
                    &&& !next.contains(self.address())
                    &&& next.count() == heap.count()
                    &&& next.total_size() + held.layout.size == heap.total_size() + layout.size
                }
                &&& heap.ref_count(self.address()) >= 2 ==> {
                    &&& next.contains(self.address())
                    &&& next.block(self.address()) == (Block {
                        refs: (held.refs - 1) as nat,
                        ..held
                    })
                    &&& next.count() == heap.count() + 1
                    &&& next.total_size() == heap.total_size() + layout.size
                }
                &&& forall|a: usize|
                    a != at && a != self.address() ==> (#[trigger] next.contains(a))
                        == heap.contains(a)
                &&& forall|a: usize|
                    a != at && a != self.address() && heap.contains(a) ==> (#[trigger] next.block(
                        a,
                    )) == heap.block(a)
            }),
    {
        let layout = cast_layout::<T, U>();
        let at = heap.place(layout) as usize;
        let held = heap.block(self.address());
        let bytes = overwrite(zeros(layout.size as nat), carried::<U>(held.bytes));
        heap.lemma_found(self.address());
        assert(block_ok(heap.blocks[heap.index_of(self.address())], heap.cursor));
        assert(bytes.len() == layout.size);
        let first = heap.allocated(layout, bytes, 0);
        heap.lemma_allocated(layout, bytes, 0);
        assert(first.contains(self.address()) && first.block(self.address()) == held);
        let second = self.after_drop(first);
        if first.ref_count(self.address()) < 2 {
            first.lemma_released(self.address());
            assert(second.block(at) == first.block(at));
        } else {
            first.lemma_with_refs(self.address(), (held.refs - 1) as nat);
            assert(second.block(at) == first.block(at));
        }
        assert(second.contains(at));
        assert(second.ref_count(at) == 0);
        second.lemma_with_refs(at, 1);
    }

    /// Moves the value to a new block that is read as a value of `U`, and
    /// gives this handle up. The new block is as large as the larger of the
    /// two types and aligned as `U` asks; it takes over the old block's
    /// bytes, as many as a value of `U` has, and holds zeros after them. The
    /// old block is released where this handle was the last to share it.
    /// Whether the bytes of a `T` make sense as a `U` is the caller's
    /// business.
    pub fn cast<U: Allocatable>(self, heap: &mut Heap) -> (cast: HeapMutator<U>)
        requires
            old(heap)@.wf(),
            self.live_in(old(heap)@),
            cast_layout::<T, U>().valid(),
            old(heap)@.can_alloc(cast_layout::<T, U>()),
        ensures
            final(heap)@.wf(),
            final(heap)@ == self.after_cast::<U>(old(heap)@),
            cast.address() == old(heap)@.place(cast_layout::<T, U>()),
            cast.live_in(final(heap)@),
            final(heap)@.block(cast.address()).bytes == overwrite(
                zeros(cast_layout::<T, U>().size as nat),
                carried::<U>(old(heap)@.block(self.address()).bytes),
            ),
            cast.value_in(final(heap)@) == U::from_image(
                carried::<U>(old(heap)@.block(self.address()).bytes) + zeros(
                    (U::layout_spec().size - carried::<U>(
                        old(heap)@.block(self.address()).bytes,
                    ).len()) as nat,
                ),
            ),
            old(heap)@.block(self.address()).bytes.len() == U::layout_spec().size ==> {
                &&& final(heap)@.block(cast.address()).bytes == old(heap)@.block(
                    self.address(),
                ).bytes
                &&& cast.value_in(final(heap)@) == U::from_image(
                    old(heap)@.block(self.address()).bytes,
                )
            },
            old(heap)@.ref_count(self.address()) == 1 ==> {
                &&& !final(heap)@.contains(self.address())
                &&& final(heap)@.count() == old(heap)@.count()
                &&& final(heap)@.total_size() + old(heap)@.block(self.address()).layout.size
                    == old(heap)@.total_size() + cast_layout::<T, U>().size
            },
            old(heap)@.ref_count(self.address()) >= 2 ==> {
                &&& final(heap)@.ref_count(self.address()) == old(heap)@.ref_count(
                    self.address(),
                ) - 1
                &&& final(heap)@.count() == old(heap)@.count() + 1
                &&& final(heap)@.total_size() == old(heap)@.total_size() + cast_layout::<
                    T,
                    U,
                >().size
            },
    {
        let layout_t: Layout = T::layout();
        let layout_u: Layout = U::layout();
        let size: usize = if layout_t.size >= layout_u.size {
            layout_t.size
        } else {
            layout_u.size
        };
        let layout: Layout = Layout::from_size_align(size, layout_u.align).unwrap();
        let ghost before = heap@;
        let ghost held = before.block(self.addr);
        let ghost blank = zeros(layout.size as nat);
        let ghost moved = carried::<U>(held.bytes);
        let ghost put = overwrite(blank, moved);
        assert(held.bytes.len() == held.layout.size) by {
            before.lemma_found(self.addr);
            assert(block_ok(before.blocks[before.index_of(self.addr)], before.cursor));
        }
        let at: usize = heap.alloc_zeroed(layout);
        let ghost first = heap@;
        assert(first.contains(self.addr) && first.block(self.addr) == held && first.contains(at)
            && first.block(at).layout == layout) by {
            before.lemma_allocated(layout, blank, 0);
        }
        let old_size: usize = heap.layout_of(self.addr).unwrap().size;
        let n: usize = if layout_u.size <= old_size {
            layout_u.size
        } else {
            old_size
        };
        let bytes: Vec<u8> = heap.load(self.addr, n);
        assert(bytes@ == moved) by {
            assert(bytes@ =~= moved);
        }
        heap.store(at, &bytes);
        let ghost second = heap@;
        assert(second == before.allocated(layout, put, 0)) by {
            before.lemma_allocated_stored(layout, blank, 0, moved);
        }
        assert(second.contains(at) && second.ref_count(at) == 0 && second.block(at).layout
            == layout && at != self.addr && (at as nat) % (layout.align as nat) == 0) by {
            before.lemma_allocated(layout, put, 0);
        }
        self.drop(heap);
        let ghost third = heap@;
        assert(third.contains(at) && third.block(at) == second.block(at)) by {
            self.lemma_after_drop(second);
        }
        let cast: HeapMutator<U> = HeapMutator::new_unchecked(at, heap);
        assert(heap@.block(at).bytes == put && (before.ref_count(self.address()) == 1 ==> {
            &&& !heap@.contains(self.address())
            &&& heap@.count() == before.count()
            &&& heap@.total_size() + held.layout.size == before.total_size() + layout.size
        }) && (before.ref_count(self.address()) >= 2 ==> {
            &&& heap@.ref_count(self.address()) == before.ref_count(self.address()) - 1
            &&& heap@.count() == before.count() + 1
            &&& heap@.total_size() == before.total_size() + layout.size
        })) by {
            self.lemma_after_cast::<U>(before);
        }
        assert(held.bytes.len() == U::layout_spec().size ==> put == held.bytes
            && put.subrange(0, U::layout_spec().size as int) == held.bytes) by {
            if held.bytes.len() == U::layout_spec().size {
                assert(put =~= held.bytes);
                assert(put.subrange(0, U::layout_spec().size as int) =~= held.bytes);
            }
        }
        assert(cast.value_in(heap@) == U::from_image(
            moved + zeros((U::layout_spec().size - moved.len()) as nat),
        )) by {
            assert(put.subrange(0, U::layout_spec().size as int) =~= moved + zeros(
                (U::layout_spec().size - moved.len()) as nat,
            ));
        }
        cast
    }
}

} // verus!
