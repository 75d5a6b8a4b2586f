//! The allocation table as a mathematical value: the live blocks in table
//! order, what each holds, and how many handles share it.

use vstd::prelude::*;
use crate::layout::Layout;

verus! {

/// No block lies below this address.
pub const BASE_ADDRESS: usize = 0x1000;

/// One live block: where it lies, its descriptor, the bytes that it holds and
/// the number of handles that share it.
pub struct Block {
    pub addr: usize,
    pub layout: Layout,
    pub bytes: Seq<u8>,
    pub refs: nat,
}

/// The table: its blocks in the order in which they were reserved, and the
/// cursor, below which every address that was ever handed out lies.
pub struct Ledger {
    pub blocks: Seq<Block>,
    pub cursor: nat,
}

/// The first multiple of `align` that is not below `from`.
pub open spec fn align_up(from: nat, align: nat) -> nat {
    if from % align == 0 {
        from
    } else {
        (from + (align - from % align)) as nat
    }
}

/// The number of addresses that a block keeps to itself: its size, and one
/// address where it is empty, so that no two blocks share an address.
pub open spec fn extent(layout: Layout) -> nat {
    if layout.size == 0 {
        1
    } else {
        layout.size as nat
    }
}

/// The sum of the sizes of `blocks`.
pub open spec fn total_of(blocks: Seq<Block>) -> nat
    decreases blocks.len(),
{
    if blocks.len() == 0 {
        0
    } else {
        total_of(blocks.drop_last()) + blocks.last().layout.size as nat
    }
}

/// The bytes of `blocks`, one block after the other.
pub open spec fn dump_of(blocks: Seq<Block>) -> Seq<u8>
    decreases blocks.len(),
{
    if blocks.len() == 0 {
        Seq::<u8>::empty()
    } else {
        dump_of(blocks.drop_last()) + blocks.last().bytes
    }
}

/// `n` zero bytes.
pub open spec fn zeros(n: nat) -> Seq<u8> {
    Seq::new(n, |i: int| 0u8)
}

/// `old` with its first bytes replaced by `bytes`.
pub open spec fn overwrite(old: Seq<u8>, bytes: Seq<u8>) -> Seq<u8> {
    bytes + old.subrange(bytes.len() as int, old.len() as int)
}

/// What holds of every block of a sound table with the given cursor.
pub open spec fn block_ok(b: Block, cursor: nat) -> bool {
    &&& b.layout.valid()
    &&& b.bytes.len() == b.layout.size
    &&& BASE_ADDRESS <= b.addr
    &&& (b.addr as nat) % (b.layout.align as nat) == 0
    &&& b.addr + extent(b.layout) <= cursor
}

impl Ledger {
    /// The table with no block.
    pub open spec fn empty() -> Ledger {
        Ledger { blocks: Seq::<Block>::empty(), cursor: BASE_ADDRESS as nat }
    }

    /// The table's invariant: blocks are sound, lie in rising order without
    /// overlap below the cursor, and the cursor is an address.
    pub open spec fn wf(self) -> bool {
        &&& BASE_ADDRESS <= self.cursor <= usize::MAX
        &&& self.total_size() <= self.cursor
        &&& forall|i: int|
            0 <= i < self.blocks.len() ==> block_ok(#[trigger] self.blocks[i], self.cursor)
        &&& forall|i: int, j: int|
            0 <= i < j < self.blocks.len() ==> (#[trigger] self.blocks[i]).addr + extent(
                self.blocks[i].layout,
            ) <= (#[trigger] self.blocks[j]).addr
    }

    /// Whether a block lies at `addr`.
    pub open spec fn contains(self, addr: usize) -> bool {
        exists|i: int| 0 <= i < self.blocks.len() && (#[trigger] self.blocks[i]).addr == addr
    }

    /// The place in the table of the block at `addr`.
    pub open spec fn index_of(self, addr: usize) -> int {
        choose|i: int| 0 <= i < self.blocks.len() && (#[trigger] self.blocks[i]).addr == addr
    }

    /// The block at `addr`.
    pub open spec fn block(self, addr: usize) -> Block {
        self.blocks[self.index_of(addr)]
    }

    /// The number of handles that share the block at `addr`; none where no
    /// block lies there.
    pub open spec fn ref_count(self, addr: usize) -> nat {
        if self.contains(addr) {
            self.block(addr).refs
        } else {
            0
        }
    }

    /// The number of live blocks.
    pub open spec fn count(self) -> nat {
        self.blocks.len()
    }

    /// The number of live bytes.
    pub open spec fn total_size(self) -> nat {
        total_of(self.blocks)
    }

    /// The live bytes, in table order.
    pub open spec fn dump(self) -> Seq<u8> {
        dump_of(self.blocks)
    }

    /// Whether `after` holds as many blocks and bytes as this table.
    pub open spec fn same_sizes(self, after: Ledger) -> bool {
        after.count() == self.count() && after.total_size() == self.total_size()
    }

    /// Whether `after` has given back the block that lies at `addr` in this
    /// table: the block is gone, and with it one block and its size in bytes.
    pub open spec fn gave_back(self, after: Ledger, addr: usize) -> bool {
        &&& !after.contains(addr)
        &&& after.count() + 1 == self.count()
        &&& after.total_size() + self.block(addr).layout.size == self.total_size()
    }

    /// The address that the next block of the given layout gets.
    pub open spec fn place(self, layout: Layout) -> nat {
        align_up(self.cursor, layout.align as nat)
    }

    /// Whether the address space has room for one more block of the layout.
    pub open spec fn can_alloc(self, layout: Layout) -> bool {
        self.place(layout) + extent(layout) <= usize::MAX
    }

    /// The table after a block of the layout was reserved, holding `bytes`
    /// and shared by `refs` handles.
    pub open spec fn allocated(self, layout: Layout, bytes: Seq<u8>, refs: nat) -> Ledger {
        Ledger {
            blocks: self.blocks.push(
                Block { addr: self.place(layout) as usize, layout, bytes, refs },
            ),
            cursor: self.place(layout) + extent(layout),
        }
    }

    /// The table after the block at `addr` was released; the same table where
    /// no block lies there.
    pub open spec fn released(self, addr: usize) -> Ledger {
        if self.contains(addr) {
            Ledger { blocks: self.blocks.remove(self.index_of(addr)), cursor: self.cursor }
        } else {
            self
        }
    }

    /// The table after `bytes` were written over the first bytes of the
    /// block at `addr`.
    pub open spec fn stored(self, addr: usize, bytes: Seq<u8>) -> Ledger {
        let i = self.index_of(addr);
        let b = self.blocks[i];
        Ledger {
            blocks: self.blocks.update(i, Block { bytes: overwrite(b.bytes, bytes), ..b }),
            cursor: self.cursor,
        }
    }

    /// The table in which `refs` handles share the block at `addr`.
    pub open spec fn with_refs(self, addr: usize, refs: nat) -> Ledger {
        let i = self.index_of(addr);
        let b = self.blocks[i];
        Ledger { blocks: self.blocks.update(i, Block { refs, ..b }), cursor: self.cursor }
    }

    /// The table after one more handle came to share the block at `addr`.
    pub open spec fn shared(self, addr: usize) -> Ledger {
        self.with_refs(addr, self.ref_count(addr) + 1)
    }

    /// The table after one handle of the block at `addr` was given up.
    pub open spec fn unshared(self, addr: usize) -> Ledger {
        self.with_refs(addr, (self.ref_count(addr) - 1) as nat)
    }

    /// The table after a live handle to the block at `addr` was dropped: the
    /// block is released where at most that handle shared it, and counts one
    /// handle less otherwise.
    pub open spec fn dropped(self, addr: usize) -> Ledger {
        if self.ref_count(addr) < 2 {
            self.released(addr)
        } else {
            self.unshared(addr)
        }
    }
}

/// Rounding up yields a multiple of the alignment, less than one alignment
/// above the start.
pub proof fn lemma_align_up(from: nat, align: nat)
    requires
        align > 0,
    ensures
        align_up(from, align) % align == 0,
        from <= align_up(from, align) < from + align,
{
    let r = from % align;
    if r != 0 {
        let q = from / align;
        assert(from == align * q + r) by {
            vstd::arithmetic::div_mod::lemma_fundamental_div_mod(from as int, align as int);
        }
        assert(from + (align - r) == align * (q + 1)) by (nonlinear_arith)
            requires
                from == align * q + r,
        ;
        assert((align * (q + 1)) % align == 0) by {
            vstd::arithmetic::div_mod::lemma_mod_multiples_basic((q + 1) as int, align as int);
            assert(align * (q + 1) == (q + 1) * align) by (nonlinear_arith);
        }
    }
}

/// The sum after one more block.
pub proof fn lemma_total_push(blocks: Seq<Block>, b: Block)
    ensures
        total_of(blocks.push(b)) == total_of(blocks) + b.layout.size,
{
    assert(blocks.push(b).drop_last() =~= blocks);
}

/// The dump after one more block.
pub proof fn lemma_dump_push(blocks: Seq<Block>, b: Block)
    ensures
        dump_of(blocks.push(b)) == dump_of(blocks) + b.bytes,
{
    assert(blocks.push(b).drop_last() =~= blocks);
}

/// The sum without the block at place `i`.
pub proof fn lemma_total_remove(blocks: Seq<Block>, i: int)
    requires
        0 <= i < blocks.len(),
    ensures
        total_of(blocks.remove(i)) + blocks[i].layout.size == total_of(blocks),
    decreases blocks.len(),
{
    if i == blocks.len() - 1 {
        assert(blocks.remove(i) =~= blocks.drop_last());
    } else {
        lemma_total_remove(blocks.drop_last(), i);
        assert(blocks.remove(i).drop_last() =~= blocks.drop_last().remove(i));
        assert(blocks.remove(i).last() == blocks.last());
    }
}

/// The sum when the block at place `i` gives way to one of the same size.
pub proof fn lemma_total_update(blocks: Seq<Block>, i: int, b: Block)
    requires
        0 <= i < blocks.len(),
        b.layout.size == blocks[i].layout.size,
    ensures
        total_of(blocks.update(i, b)) == total_of(blocks),
    decreases blocks.len(),
{
    if i == blocks.len() - 1 {
        assert(blocks.update(i, b).drop_last() =~= blocks.drop_last());
    } else {
        lemma_total_update(blocks.drop_last(), i, b);
        assert(blocks.update(i, b).drop_last() =~= blocks.drop_last().update(i, b));
    }
}

/// The first blocks of a table hold no more bytes than all of them.
pub proof fn lemma_total_prefix(blocks: Seq<Block>, n: int)
    requires
        0 <= n <= blocks.len(),
    ensures
        total_of(blocks.subrange(0, n)) <= total_of(blocks),
    decreases blocks.len(),
{
    if n == blocks.len() {
        assert(blocks.subrange(0, n) =~= blocks);
    } else {
        lemma_total_prefix(blocks.drop_last(), n);
        assert(blocks.drop_last().subrange(0, n) =~= blocks.subrange(0, n));
    }
}

/// The dump has as many bytes as the sizes sum to, where every block is as
/// long as its descriptor says.
pub proof fn lemma_dump_len(blocks: Seq<Block>)
    requires
        forall|i: int|
            0 <= i < blocks.len() ==> (#[trigger] blocks[i]).bytes.len()
                == blocks[i].layout.size,
    ensures
        dump_of(blocks).len() == total_of(blocks),
    decreases blocks.len(),
{
    if blocks.len() > 0 {
        lemma_dump_len(blocks.drop_last());
    }
}

impl Ledger {
    /// In a sound table a block is found at its own address, and nowhere
    /// else.
    pub proof fn lemma_unique(self, i: int)
        requires
            self.wf(),
            0 <= i < self.blocks.len(),
        ensures
            self.contains(self.blocks[i].addr),
            self.index_of(self.blocks[i].addr) == i,
            self.block(self.blocks[i].addr) == self.blocks[i],
    {
        let addr = self.blocks[i].addr;
        let j = self.index_of(addr);
        assert(0 <= j < self.blocks.len() && self.blocks[j].addr == addr);
        if j < i {
            assert(self.blocks[j].addr + extent(self.blocks[j].layout) <= self.blocks[i].addr);
        } else if i < j {
            assert(self.blocks[i].addr + extent(self.blocks[i].layout) <= self.blocks[j].addr);
        }
    }

    /// Where a block lies at `addr`, it stands at `index_of(addr)`.
    pub proof fn lemma_found(self, addr: usize)
        requires
            self.contains(addr),
        ensures
            0 <= self.index_of(addr) < self.blocks.len(),
            self.blocks[self.index_of(addr)].addr == addr,
            self.block(addr).addr == addr,
    {
    }

    /// Reserving a block keeps the table sound, adds the block at an address
    /// that no live block has, and leaves every other block as it was.
    pub proof fn lemma_allocated(self, layout: Layout, bytes: Seq<u8>, refs: nat)
        requires
            self.wf(),
            layout.valid(),
            self.can_alloc(layout),
            bytes.len() == layout.size,
        ensures
            self.allocated(layout, bytes, refs).wf(),
            BASE_ADDRESS <= self.place(layout) <= usize::MAX,
            self.place(layout) % (layout.align as nat) == 0,
            !self.contains(self.place(layout) as usize),
            self.allocated(layout, bytes, refs).contains(self.place(layout) as usize),
            self.allocated(layout, bytes, refs).block(self.place(layout) as usize) == (Block {
                addr: self.place(layout) as usize,
                layout,
                bytes,
                refs,
            }),
            forall|a: usize| #[trigger]
                self.contains(a) ==> self.allocated(layout, bytes, refs).contains(a)
                    && self.allocated(layout, bytes, refs).block(a) == self.block(a),
            forall|a: usize|
                a != self.place(layout) && #[trigger] self.allocated(layout, bytes, refs).contains(
                    a,
                )
                    ==> self.contains(a),
            self.allocated(layout, bytes, refs).count() == self.count() + 1,
            self.allocated(layout, bytes, refs).total_size() == self.total_size() + layout.size,
            self.allocated(layout, bytes, refs).dump() == self.dump() + bytes,
    {
        let next = self.allocated(layout, bytes, refs);
        let addr = self.place(layout);
        let n = self.blocks.len() as int;
        crate::layout::lemma_valid_layout_bounds(layout.size as nat, layout.align as nat);
        lemma_align_up(self.cursor, layout.align as nat);
        lemma_total_push(self.blocks, next.blocks[n]);
        lemma_dump_push(self.blocks, next.blocks[n]);
        assert forall|i: int| 0 <= i < next.blocks.len() implies block_ok(
            #[trigger] next.blocks[i],
            next.cursor,
        ) by {
            if i < n {
                assert(block_ok(self.blocks[i], self.cursor));
            }
        }
        assert forall|i: int, j: int| 0 <= i < j < next.blocks.len() implies (
        #[trigger] next.blocks[i]).addr + extent(next.blocks[i].layout) <= (
        #[trigger] next.blocks[j]).addr by {
            assert(block_ok(self.blocks[i], self.cursor));
        }
        assert(next.wf());
        if self.contains(addr as usize) {
            let k = self.index_of(addr as usize);
            assert(block_ok(self.blocks[k], self.cursor));
        }
        next.lemma_unique(n);
        assert forall|a: usize| #[trigger] self.contains(a) implies next.contains(a) && next.block(
            a,
        ) == self.block(a) by {
            let k = self.index_of(a);
            assert(next.blocks[k] == self.blocks[k]);
            next.lemma_unique(k);
        }
        assert forall|a: usize| a != addr && #[trigger] next.contains(a) implies self.contains(
            a,
        ) by {
            let k = next.index_of(a);
            assert(k < n);
            assert(self.blocks[k].addr == a);
        }
    }

    /// Releasing a block keeps the table sound, takes that block away and
    /// leaves every other block as it was.
    pub proof fn lemma_released(self, addr: usize)
        requires
            self.wf(),
        ensures
            self.released(addr).wf(),
            !self.released(addr).contains(addr),
            forall|a: usize|
                a != addr ==> (#[trigger] self.released(addr).contains(a)) == self.contains(a),
            forall|a: usize|
                a != addr && self.contains(a) ==> (#[trigger] self.released(addr).block(a))
                    == self.block(a),
            self.contains(addr) ==> self.released(addr).count() + 1 == self.count(),
            self.contains(addr) ==> self.released(addr).total_size() + self.block(
                addr,
            ).layout.size == self.total_size(),
            !self.contains(addr) ==> self.released(addr) == self,
    {
        if self.contains(addr) {
            let i = self.index_of(addr);
            let next = self.released(addr);
            lemma_total_remove(self.blocks, i);
            assert forall|k: int| 0 <= k < next.blocks.len() implies block_ok(
                #[trigger] next.blocks[k],
                next.cursor,
            ) by {
                if k < i {
                    assert(block_ok(self.blocks[k], self.cursor));
                } else {
                    assert(block_ok(self.blocks[k + 1], self.cursor));
                }
            }
            assert forall|k: int, j: int| 0 <= k < j < next.blocks.len() implies (
            #[trigger] next.blocks[k]).addr + extent(next.blocks[k].layout) <= (
            #[trigger] next.blocks[j]).addr by {
                let k0 = if k < i { k } else { k + 1 };
                let j0 = if j < i { j } else { j + 1 };
                assert(self.blocks[k0].addr + extent(self.blocks[k0].layout)
                    <= self.blocks[j0].addr);
            }
            assert(next.wf());
            if next.contains(addr) {
                let k = next.index_of(addr);
                let k0 = if k < i { k } else { k + 1 };
                self.lemma_unique(k0);
            }
            assert forall|a: usize| a != addr implies (#[trigger] next.contains(a))
                == self.contains(a) by {
                if self.contains(a) {
                    let k0 = self.index_of(a);
                    let k = if k0 < i { k0 } else { k0 - 1 };
                    assert(next.blocks[k].addr == a);
                }
                if next.contains(a) {
                    let k = next.index_of(a);
                    let k0 = if k < i { k } else { k + 1 };
                    assert(self.blocks[k0].addr == a);
                }
            }
            assert forall|a: usize| a != addr && self.contains(a) implies (
            #[trigger] next.block(a)) == self.block(a) by {
                let k0 = self.index_of(a);
                let k = if k0 < i { k0 } else { k0 - 1 };
                assert(next.blocks[k] == self.blocks[k0]);
                next.lemma_unique(k);
            }
        }
    }

    /// Replacing what a block holds or how many share it, but neither its
    /// address nor its descriptor, keeps the table sound and every other
    /// block as it was.
    pub proof fn lemma_replaced(self, addr: usize, b: Block)
        requires
            self.wf(),
            self.contains(addr),
            b.addr == addr,
            b.layout == self.block(addr).layout,
            b.bytes.len() == self.block(addr).bytes.len(),
        ensures
            ({
                let next = Ledger {
                    blocks: self.blocks.update(self.index_of(addr), b),
                    cursor: self.cursor,
                };
                &&& next.wf()
                &&& next.block(addr) == b
                &&& next.count() == self.count()
                &&& next.total_size() == self.total_size()
                &&& forall|a: usize| (#[trigger] next.contains(a)) == self.contains(a)
                &&& forall|a: usize|
                    a != addr && self.contains(a) ==> (#[trigger] next.block(a)) == self.block(a)
                &&& next.index_of(addr) == self.index_of(addr)
            }),
    {
        let i = self.index_of(addr);
        let next = Ledger { blocks: self.blocks.update(i, b), cursor: self.cursor };
        lemma_total_update(self.blocks, i, b);
        assert(block_ok(self.blocks[i], self.cursor));
        assert forall|k: int| 0 <= k < next.blocks.len() implies block_ok(
            #[trigger] next.blocks[k],
            next.cursor,
        ) by {
            assert(block_ok(self.blocks[k], self.cursor));
        }
        assert forall|k: int, j: int| 0 <= k < j < next.blocks.len() implies (
        #[trigger] next.blocks[k]).addr + extent(next.blocks[k].layout) <= (
        #[trigger] next.blocks[j]).addr by {
            assert(self.blocks[k].addr + extent(self.blocks[k].layout) <= self.blocks[j].addr);
        }
        assert(next.wf());
        assert forall|a: usize| (#[trigger] next.contains(a)) == self.contains(a) by {
            if self.contains(a) {
                let k = self.index_of(a);
                assert(next.blocks[k].addr == a);
            }
            if next.contains(a) {
                let k = next.index_of(a);
                assert(self.blocks[k].addr == a);
            }
        }
        next.lemma_unique(i);
        assert forall|a: usize| a != addr && self.contains(a) implies (#[trigger] next.block(a))
            == self.block(a) by {
            let k = self.index_of(a);
            assert(next.blocks[k] == self.blocks[k]);
            next.lemma_unique(k);
        }
    }
}

impl Ledger {
    /// Writing into a block keeps the table sound; the block keeps its
    /// address, descriptor and count, and every other block is as it was.
    pub proof fn lemma_stored(self, addr: usize, bytes: Seq<u8>)
        requires
            self.wf(),
            self.contains(addr),
            bytes.len() <= self.block(addr).layout.size,
        ensures
            self.stored(addr, bytes).wf(),
            self.stored(addr, bytes).block(addr) == (Block {
                bytes: overwrite(self.block(addr).bytes, bytes),
                ..self.block(addr)
            }),
            self.stored(addr, bytes).block(addr).bytes.subrange(0, bytes.len() as int) == bytes,
            self.stored(addr, bytes).count() == self.count(),
            self.stored(addr, bytes).total_size() == self.total_size(),
            forall|a: usize| (#[trigger] self.stored(addr, bytes).contains(a)) == self.contains(a),
            forall|a: usize|
                (#[trigger] self.stored(addr, bytes).ref_count(a)) == self.ref_count(a),
            forall|a: usize|
                a != addr && self.contains(a) ==> (#[trigger] self.stored(addr, bytes).block(a))
                    == self.block(a),
    {
        let b = self.block(addr);
        let put = Block { bytes: overwrite(b.bytes, bytes), ..b };
        assert(block_ok(self.blocks[self.index_of(addr)], self.cursor));
        self.lemma_replaced(addr, put);
        assert(put.bytes.subrange(0, bytes.len() as int) =~= bytes);
        let next = self.stored(addr, bytes);
        assert forall|a: usize| (#[trigger] next.ref_count(a)) == self.ref_count(a) by {
            if self.contains(a) && a != addr {
                assert(next.block(a) == self.block(a));
            }
        }
    }

    /// Changing how many handles share a block keeps the table sound; the
    /// block keeps its address, descriptor and bytes, and every other block
    /// is as it was.
    pub proof fn lemma_with_refs(self, addr: usize, refs: nat)
        requires
            self.wf(),
            self.contains(addr),
        ensures
            self.with_refs(addr, refs).wf(),
            self.with_refs(addr, refs).block(addr) == (Block { refs, ..self.block(addr) }),
            self.with_refs(addr, refs).ref_count(addr) == refs,
            self.with_refs(addr, refs).count() == self.count(),
            self.with_refs(addr, refs).total_size() == self.total_size(),
            forall|a: usize|
                (#[trigger] self.with_refs(addr, refs).contains(a)) == self.contains(a),
            forall|a: usize|
                a != addr ==> (#[trigger] self.with_refs(addr, refs).ref_count(a))
                    == self.ref_count(a),
            forall|a: usize|
                a != addr && self.contains(a) ==> (#[trigger] self.with_refs(addr, refs).block(a))
                    == self.block(a),
    {
        let b = self.block(addr);
        let put = Block { refs, ..b };
        self.lemma_replaced(addr, put);
        let next = self.with_refs(addr, refs);
        assert forall|a: usize| a != addr implies (#[trigger] next.ref_count(a))
            == self.ref_count(a) by {
            if self.contains(a) {
                assert(next.block(a) == self.block(a));
            }
        }
    }

    /// Writing into the block that was reserved last is reserving it with
    /// what was written.
    pub proof fn lemma_allocated_stored(
        self,
        layout: Layout,
        bytes: Seq<u8>,
        refs: nat,
        put: Seq<u8>,
    )
        requires
            self.wf(),
            layout.valid(),
            self.can_alloc(layout),
            bytes.len() == layout.size,
            put.len() <= layout.size,
        ensures
            self.allocated(layout, bytes, refs).stored(self.place(layout) as usize, put)
                == self.allocated(layout, overwrite(bytes, put), refs),
    {
        let first = self.allocated(layout, bytes, refs);
        let n = self.blocks.len() as int;
        self.lemma_allocated(layout, bytes, refs);
        first.lemma_unique(n);
        assert(first.stored(self.place(layout) as usize, put).blocks =~= self.allocated(
            layout,
            overwrite(bytes, put),
            refs,
        ).blocks);
    }

    /// Counting handles on the block that was reserved last is reserving it
    /// with that count.
    pub proof fn lemma_allocated_with_refs(
        self,
        layout: Layout,
        bytes: Seq<u8>,
        refs: nat,
        now: nat,
    )
        requires
            self.wf(),
            layout.valid(),
            self.can_alloc(layout),
            bytes.len() == layout.size,
        ensures
            self.allocated(layout, bytes, refs).with_refs(self.place(layout) as usize, now)
                == self.allocated(layout, bytes, now),
    {
        let first = self.allocated(layout, bytes, refs);
        let n = self.blocks.len() as int;
        self.lemma_allocated(layout, bytes, refs);
        first.lemma_unique(n);
        assert(first.with_refs(self.place(layout) as usize, now).blocks =~= self.allocated(
            layout,
            bytes,
            now,
        ).blocks);
    }
}

} // verus!
