//! What holds of the arena whatever is stored in it: blocks are released
//! once, counts follow the handles, and sizes add up.

use vstd::prelude::*;
use crate::allocatable::Allocatable;
use crate::layout::Layout;
use crate::ledger::{Block, Ledger};
use crate::mutator::HeapMutator;

verus! {

/// The table after `n` more handles came to share the block at `addr`.
pub open spec fn cloned_times(heap: Ledger, addr: usize, n: nat) -> Ledger
    decreases n,
{
    if n == 0 {
        heap
    } else {
        cloned_times(heap, addr, (n - 1) as nat).shared(addr)
    }
}

/// The table after `k` live handles to the block at `addr` were dropped, one
/// after the other.
pub open spec fn dropped_times(heap: Ledger, addr: usize, k: nat) -> Ledger
    decreases k,
{
    if k == 0 {
        heap
    } else {
        dropped_times(heap, addr, (k - 1) as nat).dropped(addr)
    }
}

/// How many of the first `k` drops of handles to `addr` released the block.
pub open spec fn releases(heap: Ledger, addr: usize, k: nat) -> nat
    decreases k,
{
    if k == 0 {
        0
    } else {
        let before = dropped_times(heap, addr, (k - 1) as nat);
        releases(heap, addr, (k - 1) as nat) + if before.contains(addr) && before.ref_count(addr)
            < 2 {
            1nat
        } else {
            0nat
        }
    }
}

/// The sum of the sizes of `items`.
pub open spec fn sizes_of(items: Seq<(Layout, Seq<u8>)>) -> nat
    decreases items.len(),
{
    if items.len() == 0 {
        0
    } else {
        sizes_of(items.drop_last()) + items.last().0.size as nat
    }
}

/// The table after one block was reserved for each of `items`, in turn, each
/// with its layout and bytes and one handle.
pub open spec fn allocated_all(heap: Ledger, items: Seq<(Layout, Seq<u8>)>) -> Ledger
    decreases items.len(),
{
    if items.len() == 0 {
        heap
    } else {
        allocated_all(heap, items.drop_last()).allocated(items.last().0, items.last().1, 1)
    }
}

/// Whether `items` can be stored one after the other: each has a valid
/// layout and as many bytes as it says, and finds room when its turn comes.
pub open spec fn storable(heap: Ledger, items: Seq<(Layout, Seq<u8>)>) -> bool
    decreases items.len(),
{
    if items.len() == 0 {
        true
    } else {
        &&& storable(heap, items.drop_last())
        &&& items.last().0.valid()
        &&& items.last().1.len() == items.last().0.size
        &&& allocated_all(heap, items.drop_last()).can_alloc(items.last().0)
    }
}

/// No double free: a handle releases its block at most once. After a free
/// that released the block, the block is gone, and neither a second free nor
/// the drop of the handle changes the table. `freed` is the handle as the
/// first free leaves it.
pub proof fn lemma_no_double_free<T: Allocatable>(
    handle: HeapMutator<T>,
    freed: HeapMutator<T>,
    heap: Ledger,
)
    requires
        heap.wf(),
        freed.address() == handle.address(),
        freed.is_freed() == (handle.is_freed() || handle.frees(heap)),
    ensures
        handle.after_free(heap).wf(),
        !(handle.frees(heap) && freed.frees(handle.after_free(heap))),
        handle.frees(heap) ==> {
            &&& !handle.after_free(heap).contains(handle.address())
            &&& freed.after_free(handle.after_free(heap)) == handle.after_free(heap)
            &&& freed.after_drop(handle.after_free(heap)) == handle.after_free(heap)
        },
        handle.is_freed() ==> handle.after_free(heap) == heap && handle.after_drop(heap) == heap,
{
    heap.lemma_released(handle.address());
}

/// Reference counts follow the handles: after `n` clones the block counts `n`
/// handles more, and after `k` of these handles were dropped it counts `k`
/// less. Nothing else about the block changes, and it is still there.
pub proof fn lemma_ref_count(heap: Ledger, addr: usize, n: nat, k: nat)
    requires
        heap.wf(),
        heap.contains(addr),
        heap.ref_count(addr) >= 1,
        k <= n,
    ensures
        cloned_times(heap, addr, n).wf(),
        cloned_times(heap, addr, n).contains(addr),
        cloned_times(heap, addr, n).ref_count(addr) == heap.ref_count(addr) + n,
        cloned_times(heap, addr, n).block(addr) == (Block {
            refs: heap.ref_count(addr) + n,
            ..heap.block(addr)
        }),
        dropped_times(cloned_times(heap, addr, n), addr, k).wf(),
        dropped_times(cloned_times(heap, addr, n), addr, k).contains(addr),
        dropped_times(cloned_times(heap, addr, n), addr, k).ref_count(addr) == heap.ref_count(addr)
            + n - k,
        dropped_times(cloned_times(heap, addr, n), addr, k).block(addr) == (Block {
            refs: (heap.ref_count(addr) + n - k) as nat,
            ..heap.block(addr)
        }),
    decreases n + k,
{
    if k > 0 {
        lemma_ref_count(heap, addr, n, (k - 1) as nat);
        let before = dropped_times(cloned_times(heap, addr, n), addr, (k - 1) as nat);
        before.lemma_with_refs(addr, (before.ref_count(addr) - 1) as nat);
    } else if n > 0 {
        lemma_ref_count(heap, addr, (n - 1) as nat, 0);
        let before = cloned_times(heap, addr, (n - 1) as nat);
        before.lemma_with_refs(addr, before.ref_count(addr) + 1);
    }
}

/// A block is torn down once: of the drops of the handles that share a
/// block, the last one releases it and no other does, however many there
/// are. Before the last drop the block is there; from the last drop on it is
/// gone, and further drops find nothing to release.
pub proof fn lemma_released_once(heap: Ledger, addr: usize, k: nat)
    requires
        heap.wf(),
        heap.contains(addr),
        heap.ref_count(addr) >= 1,
    ensures
        dropped_times(heap, addr, k).wf(),
        k < heap.ref_count(addr) ==> {
            &&& releases(heap, addr, k) == 0
            &&& dropped_times(heap, addr, k).contains(addr)
            &&& dropped_times(heap, addr, k).ref_count(addr) == heap.ref_count(addr) - k
        },
        k >= heap.ref_count(addr) ==> {
            &&& releases(heap, addr, k) == 1
            &&& !dropped_times(heap, addr, k).contains(addr)
        },
    decreases k,
{
    if k > 0 {
        lemma_released_once(heap, addr, (k - 1) as nat);
        let before = dropped_times(heap, addr, (k - 1) as nat);
        if before.contains(addr) {
            if before.ref_count(addr) < 2 {
                before.lemma_released(addr);
            } else {
                before.lemma_with_refs(addr, (before.ref_count(addr) - 1) as nat);
            }
        } else {
            before.lemma_released(addr);
        }
    }
}

/// Sizes add up: after blocks were reserved for `items`, the table holds
/// that many blocks more, and as many bytes more as their sizes sum to.
pub proof fn lemma_sizes_add_up(heap: Ledger, items: Seq<(Layout, Seq<u8>)>)
    requires
        heap.wf(),
        storable(heap, items),
    ensures
        allocated_all(heap, items).wf(),
        allocated_all(heap, items).count() == heap.count() + items.len(),
        allocated_all(heap, items).total_size() == heap.total_size() + sizes_of(items),
    decreases items.len(),
{
    if items.len() > 0 {
        lemma_sizes_add_up(heap, items.drop_last());
        allocated_all(heap, items.drop_last()).lemma_allocated(
            items.last().0,
            items.last().1,
            1,
        );
    }
}

/// Releasing gives back what reserving took: a table that released a live
/// block holds one block less, and as many bytes less as the block's size;
/// releasing the block that was reserved last restores both numbers.
pub proof fn lemma_release_gives_back(heap: Ledger, addr: usize, layout: Layout, bytes: Seq<u8>)
    requires
        heap.wf(),
        layout.valid(),
        bytes.len() == layout.size,
        heap.can_alloc(layout),
    ensures
        heap.contains(addr) ==> heap.released(addr).count() == heap.count() - 1
            && heap.released(addr).total_size() == heap.total_size() - heap.block(
            addr,
        ).layout.size,
        heap.allocated(layout, bytes, 1).released(heap.place(layout) as usize).count()
            == heap.count(),
        heap.allocated(layout, bytes, 1).released(heap.place(layout) as usize).total_size()
            == heap.total_size(),
{
    heap.lemma_released(addr);
    heap.lemma_allocated(layout, bytes, 1);
    heap.allocated(layout, bytes, 1).lemma_released(heap.place(layout) as usize);
}

} // verus!
