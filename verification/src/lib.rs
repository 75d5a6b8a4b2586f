//! A user-space memory arena.
//!
//! A [`Memory`] owns one table of blocks, the [`Heap`]. Storing a value
//! reserves a block, writes the value's byte image into it and hands out a
//! [`HeapMutator`]: a typed handle that can be cloned, read, written, cast
//! and freed. The block is released when the last handle that shares it is
//! freed or dropped, and at no other time.
//!
//! The table is plain data. Whoever holds it mutably has it to itself, so
//! every operation on a handle takes the table it belongs to; a program that
//! shares an arena between threads keeps it behind a lock of its own.
//!
//! Contracts speak of the table as a [`ledger::Ledger`]: the live blocks in
//! table order, with their addresses, descriptors, bytes and counts. What
//! holds of every arena is collected in [`laws`].

pub mod allocatable;
pub mod codec;
pub mod heap;
pub mod laws;
pub mod layout;
pub mod ledger;
pub mod memory;
pub mod mutator;

pub use allocatable::Allocatable;
pub use heap::Heap;
pub use layout::Layout;
pub use memory::{Memory, DEFAULT_HEAP_INIT_SIZE};
pub use mutator::HeapMutator;
