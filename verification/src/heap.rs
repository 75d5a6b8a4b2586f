//! The allocation table: reserves and releases blocks, and keeps the ledger
//! of those that are live.

use vstd::prelude::*;
use crate::layout::{lemma_valid_layout_bounds, Layout};
use crate::ledger::{
    block_ok, dump_of, lemma_dump_len, lemma_total_prefix, overwrite, total_of, zeros, Block,
    Ledger, BASE_ADDRESS,
};

verus! {

/// One entry of the table: a block's address and descriptor, its bytes, and
/// the number of handles that share it.
#[derive(Debug)]
struct Record {
    addr: usize,
    layout: Layout,
    bytes: Vec<u8>,
    refs: usize,
}

impl View for Record {
    type V = Block;

    closed spec fn view(&self) -> Block {
        Block { addr: self.addr, layout: self.layout, bytes: self.bytes@, refs: self.refs as nat }
    }
}

/// The table of live blocks. Addresses are handed out in rising order and
/// never twice, so an address names one block for as long as the table lives.
#[derive(Debug)]
pub struct Heap {
    /// The live blocks, in the order in which they were reserved.
    ptrs: Vec<Record>,
    /// The lowest address that was not handed out yet.
    next: usize,
}

impl View for Heap {
    type V = Ledger;

    closed spec fn view(&self) -> Ledger {
        Ledger {
            blocks: Seq::new(self.ptrs@.len(), |i: int| self.ptrs@[i]@),
            cursor: self.next as nat,
        }
    }
}

impl Heap {
    /// An empty table, with room set aside for `initial_size` records. The
    /// number is a hint: it bounds nothing.
    pub fn new(initial_size: usize) -> (heap: Heap)
        ensures
            heap@ == Ledger::empty(),
            heap@.wf(),
    {
        let mut ptrs: Vec<Record> = Vec::new();
        let _ = ptrs.try_reserve(initial_size);
        let heap = Heap { ptrs, next: BASE_ADDRESS };
        proof {
            assert(heap@.blocks =~= Seq::<Block>::empty());
        }
        heap
    }

    /// The place in the table of the block at `addr`, or the table's length
    /// where no block lies there.
    fn find(&self, addr: usize) -> (i: usize)
        ensures
            i <= self.ptrs@.len(),
            i < self.ptrs@.len() ==> self.ptrs@[i as int].addr == addr && self@.contains(addr),
            i == self.ptrs@.len() ==> !self@.contains(addr),
            self@.wf() && i < self.ptrs@.len() ==> self@.index_of(addr) == i,
    {
        let mut i: usize = 0;
        while i < self.ptrs.len() && self.ptrs[i].addr != addr
            invariant
                i <= self.ptrs@.len(),
                forall|k: int| 0 <= k < i ==> (#[trigger] self.ptrs@[k]).addr != addr,
            decreases self.ptrs@.len() - i,
        {
            i = i + 1;
        }
        proof {
            if i < self.ptrs@.len() {
                assert(self@.blocks[i as int].addr == addr);
                if self@.wf() {
                    self@.lemma_unique(i as int);
                }
            } else {
                if self@.contains(addr) {
                    let k = self@.index_of(addr);
                    assert(self.ptrs@[k].addr == addr);
                }
            }
        }
        i
    }

    /// The address that a block of the layout would get, or `None` where the
    /// address space has no room for it.
    pub fn place(&self, layout: Layout) -> (at: Option<usize>)
        requires
            layout.valid(),
        ensures
            at.is_some() == self@.can_alloc(layout),
            at.is_some() ==> at.unwrap() == self@.place(layout),
    {
        proof {
            lemma_valid_layout_bounds(layout.size as nat, layout.align as nat);
        }
        let rem: usize = self.next % layout.align;
        let pad: usize = if rem == 0 {
            0
        } else {
            layout.align - rem
        };
        let room: usize = if layout.size == 0 {
            1
        } else {
            layout.size
        };
        match self.next.checked_add(pad) {
            None => None,
            Some(addr) => match addr.checked_add(room) {
                None => None,
                Some(_) => Some(addr),
            },
        }
    }

    /// Reserves a block of the layout and returns its address. Nothing is
    /// promised of what the block holds: use [`Heap::alloc_zeroed`] for a
    /// block of zeros.
    pub fn allocate(&mut self, layout: Layout) -> (addr: usize)
        requires
            old(self)@.wf(),
            layout.valid(),
            old(self)@.can_alloc(layout),
        ensures
            final(self)@.wf(),
            addr == old(self)@.place(layout),
            final(self)@ == old(self)@.allocated(layout, final(self)@.blocks.last().bytes, 0),
            final(self)@.blocks.last().bytes.len() == layout.size,
            !old(self)@.contains(addr),
            final(self)@.count() == old(self)@.count() + 1,
            final(self)@.total_size() == old(self)@.total_size() + layout.size,
    {
        let addr: usize = self.place(layout).unwrap();
        let room: usize = if layout.size == 0 {
            1
        } else {
            layout.size
        };
        let bytes: Vec<u8> = vec![0u8; layout.size];
        let ghost before = self@;
        let ghost held = bytes@;
        self.ptrs.push(Record { addr, layout, bytes, refs: 0 });
        self.next = addr + room;
        proof {
            assert(self@.blocks =~= before.blocks.push(
                Block { addr, layout, bytes: held, refs: 0 },
            ));
            before.lemma_allocated(layout, held, 0);
        }
        addr
    }

    /// Reserves a block of the layout that holds zeros, and returns its
    /// address.
    pub fn alloc_zeroed(&mut self, layout: Layout) -> (addr: usize)
        requires
            old(self)@.wf(),
            layout.valid(),
            old(self)@.can_alloc(layout),
        ensures
            final(self)@.wf(),
            addr == old(self)@.place(layout),
            final(self)@ == old(self)@.allocated(layout, zeros(layout.size as nat), 0),
            !old(self)@.contains(addr),
            final(self)@.count() == old(self)@.count() + 1,
            final(self)@.total_size() == old(self)@.total_size() + layout.size,
    {
        let addr: usize = self.allocate(layout);
        let last: usize = self.ptrs.len() - 1;
        let ghost before = self@;
        let mut k: usize = 0;
        while k < layout.size
            invariant
                last + 1 == self.ptrs@.len(),
                k <= layout.size,
                self.ptrs@[last as int].bytes@.len() == layout.size,
                forall|j: int| 0 <= j < k ==> self.ptrs@[last as int].bytes@[j] == 0,
                self@.cursor == before.cursor,
                self@.blocks.len() == before.blocks.len(),
                self@.blocks.drop_last() == before.blocks.drop_last(),
                self@.blocks.last().addr == before.blocks.last().addr,
                self@.blocks.last().layout == before.blocks.last().layout,
                self@.blocks.last().refs == before.blocks.last().refs,
            decreases layout.size - k,
        {
            let ghost at_start = self@;
            self.ptrs[last].bytes[k] = 0u8;
            proof {
                assert(self@.blocks.drop_last() =~= at_start.blocks.drop_last());
            }
            k = k + 1;
        }
        proof {
            let fresh = Block { addr, layout, bytes: zeros(layout.size as nat), refs: 0 };
            assert(self@.blocks.last().bytes =~= fresh.bytes);
            assert(before.blocks.drop_last() =~= old(self)@.blocks);
            assert(self@.blocks.last() == fresh);
            assert(self@.blocks =~= self@.blocks.drop_last().push(self@.blocks.last()));
            old(self)@.lemma_allocated(layout, fresh.bytes, 0);
        }
        addr
    }

    /// Releases the block at `addr` and strikes it from the table; does
    /// nothing where no block lies there. The table finds the block by its
    /// address alone: the descriptor is what the caller reserved it with.
    pub fn dealloc(&mut self, addr: usize, layout: Layout)
        requires
            old(self)@.wf(),
        ensures
            final(self)@.wf(),
            final(self)@ == old(self)@.released(addr),
            !final(self)@.contains(addr),
            old(self)@.contains(addr) ==> old(self)@.gave_back(final(self)@, addr),
    {
        let _ = layout;
        let i: usize = self.find(addr);
        if i < self.ptrs.len() {
            let ghost before = self@;
            let _ = self.ptrs.remove(i);
            proof {
                assert(self@.blocks =~= before.blocks.remove(i as int));
            }
        }
        proof {
            old(self)@.lemma_released(addr);
        }
    }

    /// A copy of every live byte, block after block in table order.
    pub fn bytes(&self) -> (all: Vec<u8>)
        requires
            self@.wf(),
        ensures
            all@ == self@.dump(),
            all@.len() == self@.total_size(),
    {
        proof {
            assert forall|i: int| 0 <= i < self@.blocks.len() implies (
            #[trigger] self@.blocks[i]).bytes.len() == self@.blocks[i].layout.size by {
                assert(block_ok(self@.blocks[i], self@.cursor));
            }
            lemma_dump_len(self@.blocks);
        }
        let mut all: Vec<u8> = Vec::new();
        let _ = all.try_reserve(self.size());
        let mut i: usize = 0;
        while i < self.ptrs.len()
            invariant
                i <= self.ptrs@.len(),
                all@ == dump_of(self@.blocks.subrange(0, i as int)),
            decreases self.ptrs@.len() - i,
        {
            proof {
                let upto = self@.blocks.subrange(0, i as int + 1);
                assert(upto.drop_last() =~= self@.blocks.subrange(0, i as int));
                assert(upto.last().bytes == self.ptrs@[i as int].bytes@);
            }
            all.extend_from_slice(self.ptrs[i].bytes.as_slice());
            i = i + 1;
        }
        proof {
            assert(self@.blocks.subrange(0, i as int) =~= self@.blocks);
        }
        all
    }

    /// The number of live bytes: the sum of the sizes of the live blocks.
    pub fn size(&self) -> (n: usize)
        requires
            self@.wf(),
        ensures
            n == self@.total_size(),
    {
        let mut n: usize = 0;
        let mut i: usize = 0;
        while i < self.ptrs.len()
            invariant
                i <= self.ptrs@.len(),
                n == total_of(self@.blocks.subrange(0, i as int)),
                self@.wf(),
            decreases self.ptrs@.len() - i,
        {
            proof {
                let upto = self@.blocks.subrange(0, i as int + 1);
                assert(upto.drop_last() =~= self@.blocks.subrange(0, i as int));
                assert(upto.last().layout == self.ptrs@[i as int].layout);
                lemma_total_prefix(self@.blocks, i as int + 1);
            }
            n = n + self.ptrs[i].layout.size;
            i = i + 1;
        }
        proof {
            assert(self@.blocks.subrange(0, i as int) =~= self@.blocks);
        }
        n
    }

    /// The number of live blocks.
    pub fn count(&self) -> (n: usize)
        ensures
            n == self@.count(),
    {
        self.ptrs.len()
    }

    /// Whether a block lies at `addr`.
    pub fn contains(&self, addr: usize) -> (yes: bool)
        ensures
            yes == self@.contains(addr),
    {
        self.find(addr) < self.ptrs.len()
    }

    /// The descriptor that the block at `addr` was reserved with, or `None`
    /// where no block lies there.
    pub fn layout_of(&self, addr: usize) -> (found: Option<Layout>)
        requires
            self@.wf(),
        ensures
            found.is_some() == self@.contains(addr),
            found.is_some() ==> found.unwrap() == self@.block(addr).layout,
    {
        let i: usize = self.find(addr);
        if i < self.ptrs.len() {
            Some(self.ptrs[i].layout)
        } else {
            None
        }
    }

    /// The number of handles that share the block at `addr`; zero where no
    /// block lies there.
    pub fn ref_count(&self, addr: usize) -> (n: usize)
        requires
            self@.wf(),
        ensures
            n == self@.ref_count(addr),
    {
        let i: usize = self.find(addr);
        if i < self.ptrs.len() {
            self.ptrs[i].refs
        } else {
            0
        }
    }

    /// A copy of the first `len` bytes of the block at `addr`.
    pub fn load(&self, addr: usize, len: usize) -> (bytes: Vec<u8>)
        requires
            self@.wf(),
            self@.contains(addr),
            len <= self@.block(addr).layout.size,
        ensures
            bytes@ == self@.block(addr).bytes.subrange(0, len as int),
    {
        let i: usize = self.find(addr);
        proof {
            assert(block_ok(self@.blocks[i as int], self@.cursor));
        }
        let mut bytes: Vec<u8> = Vec::new();
        let mut k: usize = 0;
        while k < len
            invariant
                k <= len,
                i < self.ptrs@.len(),
                len <= self.ptrs@[i as int].bytes@.len(),
                bytes@ == self.ptrs@[i as int].bytes@.subrange(0, k as int),
            decreases len - k,
        {
            bytes.push(self.ptrs[i].bytes[k]);
            proof {
                assert(bytes@ =~= self.ptrs@[i as int].bytes@.subrange(0, k as int + 1));
            }
            k = k + 1;
        }
        bytes
    }

    /// Writes `bytes` over the first bytes of the block at `addr`.
    pub fn store(&mut self, addr: usize, bytes: &Vec<u8>)
        requires
            old(self)@.wf(),
            old(self)@.contains(addr),
            bytes@.len() <= old(self)@.block(addr).layout.size,
        ensures
            final(self)@.wf(),
            final(self)@ == old(self)@.stored(addr, bytes@),
            old(self)@.same_sizes(final(self)@),
    {
        let i: usize = self.find(addr);
        let ghost before = self@;
        let ghost held = self.ptrs@[i as int].bytes@;
        proof {
            assert(block_ok(self@.blocks[i as int], self@.cursor));
        }
        let mut k: usize = 0;
        while k < bytes.len()
            invariant
                k <= bytes@.len(),
                i < self.ptrs@.len(),
                self.ptrs@.len() == before.blocks.len(),
                bytes@.len() <= held.len(),
                self.ptrs@[i as int].bytes@ == overwrite(held, bytes@.subrange(0, k as int)),
                self.ptrs@[i as int].addr == before.blocks[i as int].addr,
                self.ptrs@[i as int].layout == before.blocks[i as int].layout,
                self.ptrs@[i as int].refs == before.blocks[i as int].refs,
                forall|j: int|
                    0 <= j < self.ptrs@.len() && j != i ==> (#[trigger] self.ptrs@[j])@
                        == before.blocks[j],
                self.next == before.cursor,
            decreases bytes@.len() - k,
        {
            self.ptrs[i].bytes[k] = bytes[k];
            proof {
                assert(self.ptrs@[i as int].bytes@ =~= overwrite(
                    held,
                    bytes@.subrange(0, k as int + 1),
                ));
            }
            k = k + 1;
        }
        proof {
            assert(bytes@.subrange(0, k as int) =~= bytes@);
            let b = before.blocks[i as int];
            let put = Block { bytes: overwrite(b.bytes, bytes@), ..b };
            assert(self@.blocks =~= before.blocks.update(i as int, put));
            before.lemma_replaced(addr, put);
        }
    }

    /// Counts one more handle on the block at `addr`.
    pub(crate) fn share(&mut self, addr: usize)
        requires
            old(self)@.wf(),
            old(self)@.contains(addr),
            old(self)@.ref_count(addr) < usize::MAX,
        ensures
            final(self)@.wf(),
            final(self)@ == old(self)@.shared(addr),
    {
        let i: usize = self.find(addr);
        let ghost before = self@;
        self.ptrs[i].refs = self.ptrs[i].refs + 1;
        proof {
            let b = before.blocks[i as int];
            let put = Block { refs: b.refs + 1, ..b };
            assert(self@.blocks =~= before.blocks.update(i as int, put));
            before.lemma_replaced(addr, put);
        }
    }

    /// Counts one handle less on the block at `addr`.
    pub(crate) fn unshare(&mut self, addr: usize)
        requires
            old(self)@.wf(),
            old(self)@.contains(addr),
            old(self)@.ref_count(addr) >= 1,
        ensures
            final(self)@.wf(),
            final(self)@ == old(self)@.unshared(addr),
    {
        let i: usize = self.find(addr);
        let ghost before = self@;
        self.ptrs[i].refs = self.ptrs[i].refs - 1;
        proof {
            let b = before.blocks[i as int];
            let put = Block { refs: (b.refs - 1) as nat, ..b };
            assert(self@.blocks =~= before.blocks.update(i as int, put));
            before.lemma_replaced(addr, put);
        }
    }
}

} // verus!
