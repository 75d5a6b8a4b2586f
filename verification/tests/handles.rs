use halloc::{Heap, HeapMutator, Layout, Memory};

#[test]
fn free_releases_only_once() {
    let mut memory = Memory::new();
    let mut a = memory.allocate(11u32);
    let _other = memory.allocate(12u32);
    assert!(a.dealloc_internal(memory.get_heap()));
    assert_eq!(memory.count(), 1);
    assert!(!a.dealloc_internal(memory.get_heap()));
    assert_eq!(memory.count(), 1);
    a.drop(memory.get_heap());
    assert_eq!(memory.count(), 1);
    assert_eq!(memory.size(), 4);
}

#[test]
fn dealloc_after_free_is_refused() {
    let mut memory = Memory::new();
    let mut a = memory.allocate(11u32);
    assert!(a.dealloc_internal(memory.get_heap()));
    assert!(!a.dealloc(memory.get_heap()));
    assert_eq!(memory.count(), 0);
}

#[test]
fn ref_count_follows_clones_and_drops() {
    let mut memory = Memory::new();
    let a = memory.allocate(5u64);
    assert_eq!(a.ref_count(memory.heap()), 1);
    let mut clones: Vec<HeapMutator<u64>> = Vec::new();
    for n in 0..6 {
        clones.push(a.clone(memory.get_heap()));
        assert_eq!(a.ref_count(memory.heap()), n + 2);
    }
    for clone in &clones {
        assert_eq!(clone.ref_count(memory.heap()), 7);
    }
    for k in 0..4 {
        let clone = clones.pop().unwrap();
        clone.drop(memory.get_heap());
        assert_eq!(a.ref_count(memory.heap()), 6 - k);
    }
    assert_eq!(a.ref_count(memory.heap()), 3);
    assert_eq!(memory.count(), 1);
}

#[test]
fn can_dealloc_needs_sole_ownership() {
    let mut memory = Memory::with_size(1);
    let m1 = memory.allocate(true);
    let m2 = m1.clone(memory.get_heap());
    assert_eq!(m1.can_dealloc(memory.heap()), false);
    m2.drop(memory.get_heap());
    assert_eq!(m1.can_dealloc(memory.heap()), true);
    assert_eq!(m1.dealloc(memory.get_heap()), true);
}

#[test]
fn ref_count_of_two_handles() {
    let mut memory = Memory::with_size(1);
    let m1 = memory.allocate(true);
    let m2 = m1.clone(memory.get_heap());
    assert_eq!(m1.ref_count(memory.heap()), 2);
    assert_eq!(m2.ref_count(memory.heap()), 2);
    m2.drop(memory.get_heap());
    assert_eq!(m1.ref_count(memory.heap()), 1);
}

#[test]
fn dealloc_of_shared_handle_is_deferred() {
    let mut memory = Memory::new();
    let a = memory.allocate(77u8);
    let b = a.clone(memory.get_heap());
    assert!(!a.dealloc(memory.get_heap()));
    assert_eq!(memory.count(), 1);
    assert_eq!(memory.size(), 1);
    assert_eq!(b.get(memory.heap()), 77);
    assert_eq!(b.ref_count(memory.heap()), 1);
    assert!(b.dealloc(memory.get_heap()));
    assert_eq!(memory.count(), 0);
}

#[test]
fn block_is_released_by_the_last_drop_only() {
    let mut memory = Memory::new();
    let a = memory.allocate(1i8);
    let b = a.clone(memory.get_heap());
    let c = b.clone(memory.get_heap());
    let mut released = 0;
    for handle in [b, a, c] {
        let before = memory.count();
        handle.drop(memory.get_heap());
        released += before - memory.count();
    }
    assert_eq!(released, 1);
    assert_eq!(memory.count(), 0);
}

#[test]
fn exclusive_access_is_refused_while_shared() {
    let mut memory = Memory::new();
    let mut a = memory.allocate(5u32);
    let b = a.clone(memory.get_heap());
    assert_eq!(a.get_mut(memory.get_heap(), |v| v + 1), None);
    assert_eq!(a.get(memory.heap()), 5);
    assert_eq!(b.get(memory.heap()), 5);
    assert_eq!(a.ref_count(memory.heap()), 2);
    assert_eq!(memory.bytes(), vec![5, 0, 0, 0]);
    b.drop(memory.get_heap());
    assert_eq!(a.get_mut(memory.get_heap(), |v| v + 1), Some(6));
    assert_eq!(a.get(memory.heap()), 6);
    assert_eq!(memory.bytes(), vec![6, 0, 0, 0]);
}

#[test]
fn write_is_seen_by_every_clone() {
    let mut memory = Memory::new();
    let mut a = memory.allocate(1i64);
    let b = a.clone(memory.get_heap());
    a.write(memory.get_heap(), -2);
    assert_eq!(b.get(memory.heap()), -2);
    assert_eq!(b.get_owned(memory.heap()), -2);
}

#[test]
fn cast_between_equal_layouts_keeps_every_byte() {
    let mut memory = Memory::with_size(1);
    let a = memory.allocate(-2i64);
    let before = memory.bytes();
    let old = a.addr();
    let b: HeapMutator<u64> = a.cast::<u64>(memory.get_heap());
    assert_eq!(memory.bytes(), before);
    assert_eq!(memory.size(), 8);
    assert_eq!(memory.count(), 1);
    assert_eq!(b.get(memory.heap()), u64::MAX - 1);
    assert_eq!(b.ref_count(memory.heap()), 1);
    assert!(!memory.heap().contains(old));
    assert!(memory.heap().contains(b.addr()));
}

#[test]
fn cast_to_smaller_type_keeps_the_larger_size() {
    let mut memory = Memory::new();
    let a = memory.allocate(0x1122_3344_5566_7788u64);
    let b: HeapMutator<u16> = a.cast::<u16>(memory.get_heap());
    assert_eq!(b.get(memory.heap()), 0x7788);
    assert_eq!(memory.size(), 8);
    assert_eq!(memory.bytes(), vec![0x88, 0x77, 0, 0, 0, 0, 0, 0]);
    assert_eq!(memory.heap().layout_of(b.addr()).unwrap().align(), 2);
}

#[test]
fn cast_to_larger_type_pads_with_zeros() {
    let mut memory = Memory::new();
    let a = memory.allocate(0xabu8);
    let b: HeapMutator<u32> = a.cast::<u32>(memory.get_heap());
    assert_eq!(b.get(memory.heap()), 0xab);
    assert_eq!(memory.size(), 4);
    assert_eq!(memory.count(), 1);
    assert_eq!(b.addr() % 4, 0);
}

#[test]
fn cast_of_shared_handle_leaves_the_old_block() {
    let mut memory = Memory::new();
    let a = memory.allocate(9i32);
    let keep = a.clone(memory.get_heap());
    let b: HeapMutator<u32> = a.cast::<u32>(memory.get_heap());
    assert_eq!(memory.count(), 2);
    assert_eq!(memory.size(), 8);
    assert_eq!(keep.ref_count(memory.heap()), 1);
    assert_eq!(keep.get(memory.heap()), 9);
    assert_eq!(b.get(memory.heap()), 9);
    assert_eq!(b.ref_count(memory.heap()), 1);
}

#[test]
fn cast_unchecked_moves_nothing() {
    let mut memory = Memory::new();
    let a = memory.allocate(-1i32);
    let addr = a.addr();
    let b: HeapMutator<u32> = a.cast_unchecked::<u32>();
    assert_eq!(b.addr(), addr);
    assert_eq!(b.get(memory.heap()), u32::MAX);
    assert_eq!(b.ref_count(memory.heap()), 1);
    assert_eq!(memory.count(), 1);
    assert_eq!(memory.size(), 4);
    assert!(b.dealloc(memory.get_heap()));
    assert_eq!(memory.count(), 0);
}

#[test]
fn guarded_free_without_the_table_leaks() {
    let mut memory = Memory::new();
    let a = memory.allocate(1u8);
    let b = memory.allocate(2u8);
    assert!(!a.dealloc_guarded(None));
    assert_eq!(memory.count(), 2);
    assert!(b.dealloc_guarded(Some(memory.get_heap())));
    assert_eq!(memory.count(), 1);
    assert_eq!(memory.bytes(), vec![1]);
}

#[test]
fn handle_on_a_raw_block() {
    let mut heap = Heap::new(1);
    let layout = Layout::new::<u16>();
    let addr = heap.alloc_zeroed(layout);
    assert_eq!(heap.ref_count(addr), 0);
    let mut handle: HeapMutator<u16> = HeapMutator::new_unchecked(addr, &mut heap);
    assert_eq!(handle.addr(), addr);
    assert_eq!(handle.ref_count(&heap), 1);
    assert_eq!(handle.get(&heap), 0);
    handle.write(&mut heap, 0xbeef);
    assert_eq!(heap.bytes(), vec![0xef, 0xbe]);
    assert!(handle.dealloc(&mut heap));
    assert_eq!(heap.count(), 0);
}
