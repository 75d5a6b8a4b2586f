use halloc::ledger::BASE_ADDRESS;
use halloc::{HeapMutator, Memory, DEFAULT_HEAP_INIT_SIZE};

#[test]
fn integer_is_stored_rewritten_and_dropped() {
    let mut memory = Memory::new();
    let mut a = memory.allocate(42i64);
    assert_eq!(a.get(memory.heap()), 42);
    a.write(memory.get_heap(), 7);
    assert_eq!(a.get(memory.heap()), 7);
    a.drop(memory.get_heap());
    assert_eq!(memory.count(), 0);
    assert_eq!(memory.size(), 0);
}

#[test]
fn boolean_is_shared_then_freed() {
    let mut memory = Memory::new();
    let b = memory.allocate(true);
    let c = b.clone(memory.get_heap());
    assert_eq!(b.ref_count(memory.heap()), 2);
    assert_eq!(c.ref_count(memory.heap()), 2);
    c.drop(memory.get_heap());
    assert_eq!(b.ref_count(memory.heap()), 1);
    assert!(b.can_dealloc(memory.heap()));
    assert!(b.dealloc(memory.get_heap()));
    assert_eq!(memory.count(), 0);
    assert_eq!(memory.size(), 0);
    assert_eq!(memory.bytes(), Vec::<u8>::new());
}

#[test]
fn default_hint_is_1024() {
    assert_eq!(DEFAULT_HEAP_INIT_SIZE, 1024);
}

#[test]
fn new_arena_is_empty() {
    let memory = Memory::new();
    assert_eq!(memory.count(), 0);
    assert_eq!(memory.size(), 0);
    assert!(memory.bytes().is_empty());
}

#[test]
fn default_arena_is_empty() {
    let memory = Memory::default();
    assert_eq!(memory.count(), 0);
    assert_eq!(memory.size(), 0);
}

#[test]
fn hint_bounds_nothing() {
    let mut memory = Memory::with_size(1);
    let a = memory.allocate(1i32);
    let b = memory.allocate(2i32);
    let c = memory.allocate(3i32);
    assert_eq!(memory.count(), 3);
    assert_eq!(memory.size(), 12);
    assert_eq!(a.get(memory.heap()), 1);
    assert_eq!(b.get(memory.heap()), 2);
    assert_eq!(c.get(memory.heap()), 3);
}

#[test]
fn zero_hint_is_accepted() {
    let mut memory = Memory::with_size(0);
    let a = memory.allocate(9u8);
    assert_eq!(a.get(memory.heap()), 9);
    assert_eq!(memory.count(), 1);
}

#[test]
fn huge_hint_is_accepted() {
    let mut memory = Memory::with_size(usize::MAX);
    let a = memory.allocate(9u8);
    assert_eq!(a.get(memory.heap()), 9);
}

#[test]
fn value_is_written_and_read() {
    let mut memory = Memory::with_size(1);
    let mut mutator = memory.allocate(true);
    assert_eq!(mutator.get(memory.heap()), true);
    mutator.write(memory.get_heap(), false);
    assert_eq!(mutator.get(memory.heap()), false);
}

#[test]
fn arena_dealloc_reclaims() {
    let mut memory = Memory::with_size(1);
    let mutator = memory.allocate(true);
    assert_eq!(memory.bytes(), vec![1]);
    memory.dealloc(mutator);
    assert_eq!(memory.bytes(), Vec::<u8>::new());
    assert_eq!(memory.count(), 0);
}

#[test]
fn arena_dealloc_of_shared_handle_is_deferred() {
    let mut memory = Memory::new();
    let a = memory.allocate(3u16);
    let b = a.clone(memory.get_heap());
    memory.dealloc(a);
    assert_eq!(memory.count(), 1);
    assert_eq!(b.ref_count(memory.heap()), 1);
    assert_eq!(b.get(memory.heap()), 3);
    memory.dealloc(b);
    assert_eq!(memory.count(), 0);
}

#[test]
fn bytes_are_little_endian_images() {
    let mut memory = Memory::with_size(1);
    let _mutator = memory.allocate(42i32);
    assert_eq!(memory.bytes(), vec![42, 0, 0, 0]);
}

#[test]
fn size_and_count_of_one_value() {
    let mut memory = Memory::with_size(1);
    let _mutator = memory.allocate(42i32);
    assert_eq!(memory.size(), 4);
    assert_eq!(memory.count(), 1);
}

#[test]
fn bytes_follow_table_order() {
    let mut memory = Memory::new();
    let a = memory.allocate(0x0102u16);
    let _b = memory.allocate(true);
    let _c = memory.allocate(-1i32);
    assert_eq!(memory.bytes(), vec![2, 1, 1, 255, 255, 255, 255]);
    memory.dealloc(a);
    assert_eq!(memory.bytes(), vec![1, 255, 255, 255, 255]);
}

#[test]
fn sizes_add_up_and_are_given_back() {
    let mut memory = Memory::new();
    let a = memory.allocate(1u8);
    let b = memory.allocate(2u16);
    let c = memory.allocate(3u32);
    let d = memory.allocate(4u64);
    let e = memory.allocate(5u128);
    assert_eq!(memory.size(), 1 + 2 + 4 + 8 + 16);
    assert_eq!(memory.count(), 5);
    assert!(c.dealloc(memory.get_heap()));
    assert_eq!(memory.size(), 1 + 2 + 8 + 16);
    assert_eq!(memory.count(), 4);
    assert!(e.dealloc(memory.get_heap()));
    assert!(a.dealloc(memory.get_heap()));
    assert_eq!(memory.size(), 2 + 8);
    assert_eq!(memory.count(), 2);
    assert_eq!(b.get(memory.heap()), 2);
    assert_eq!(d.get(memory.heap()), 4);
}

#[test]
fn addresses_rise_and_are_aligned() {
    let mut memory = Memory::new();
    let a = memory.allocate(1u8);
    let b = memory.allocate(2u64);
    let c = memory.allocate(3u16);
    let d = memory.allocate(4u128);
    assert_eq!(a.addr(), BASE_ADDRESS);
    assert_eq!(b.addr(), BASE_ADDRESS + 8);
    assert_eq!(c.addr(), BASE_ADDRESS + 16);
    assert_eq!(d.addr(), BASE_ADDRESS + 32);
}

#[test]
fn addresses_are_never_handed_out_twice() {
    let mut memory = Memory::new();
    let a = memory.allocate(1u32);
    let first = a.addr();
    assert!(a.dealloc(memory.get_heap()));
    let b = memory.allocate(2u32);
    assert_eq!(first, BASE_ADDRESS);
    assert_eq!(b.addr(), BASE_ADDRESS + 4);
    assert!(!memory.heap().contains(first));
}

#[test]
fn arena_has_room_for_every_registered_type() {
    let memory = Memory::new();
    assert!(memory.has_room::<bool>());
    assert!(memory.has_room::<u8>());
    assert!(memory.has_room::<i128>());
}

#[test]
fn handles_of_different_values_are_independent() {
    let mut memory = Memory::new();
    let mut a = memory.allocate(10i16);
    let b = memory.allocate(20i16);
    a.write(memory.get_heap(), -5);
    assert_eq!(a.get(memory.heap()), -5);
    assert_eq!(b.get(memory.heap()), 20);
    assert_eq!(a.ref_count(memory.heap()), 1);
    assert_eq!(b.ref_count(memory.heap()), 1);
}

#[test]
fn demo_allocations() {
    let mut memory = Memory::new();
    let dropped = memory.allocate(1i64);
    dropped.drop(memory.get_heap());
    let _a = memory.allocate(69i32);
    let b: HeapMutator<i64> = memory.allocate(i64::MAX - 1);
    let _c = memory.allocate(i64::MAX - 2);
    let _d = memory.allocate(i64::MAX - 3);
    let _e = memory.allocate(i64::MAX - 4);
    let _f = memory.allocate(i64::MAX - 5);
    let g = memory.allocate(i64::MAX - 6);
    assert_eq!(memory.count(), 7);
    assert_eq!(memory.size(), 4 + 6 * 8);
    assert_eq!(b.get(memory.heap()), i64::MAX - 1);
    assert_eq!(g.get(memory.heap()), i64::MAX - 6);
}
