use halloc::ledger::BASE_ADDRESS;
use halloc::{Heap, Layout};

#[test]
fn zeroed_block_reads_as_false_then_true() {
    let mut heap = Heap::new(1);
    let layout = Layout::new::<bool>();
    let addr = heap.alloc_zeroed(layout);
    assert_eq!(heap.load(addr, 1), vec![0]);
    heap.store(addr, &vec![1]);
    assert_eq!(heap.load(addr, 1), vec![1]);
}

#[test]
fn plain_block_has_the_size_asked_for() {
    let mut heap = Heap::new(1);
    let layout = Layout::new::<u64>();
    let addr = heap.allocate(layout);
    assert_eq!(heap.load(addr, 8).len(), 8);
    assert_eq!(heap.size(), 8);
    assert_eq!(heap.layout_of(addr).unwrap().size(), 8);
    assert_eq!(heap.layout_of(addr).unwrap().align(), 8);
}

#[test]
fn dealloc_strikes_the_record() {
    let mut heap = Heap::new(1);
    let layout = Layout::new::<u8>();
    let addr = heap.allocate(layout);
    assert!(heap.contains(addr));
    heap.dealloc(addr, layout);
    assert!(!heap.contains(addr));
    assert_eq!(heap.count(), 0);
    assert_eq!(heap.size(), 0);
}

#[test]
fn dealloc_of_unknown_address_changes_nothing() {
    let mut heap = Heap::new(1);
    let layout = Layout::new::<u32>();
    let addr = heap.allocate(layout);
    heap.dealloc(addr + 1, layout);
    heap.dealloc(0, layout);
    assert_eq!(heap.count(), 1);
    assert_eq!(heap.size(), 4);
    assert!(heap.contains(addr));
}

#[test]
fn dealloc_twice_releases_once() {
    let mut heap = Heap::new(2);
    let layout = Layout::new::<u32>();
    let a = heap.allocate(layout);
    let _b = heap.allocate(layout);
    heap.dealloc(a, layout);
    heap.dealloc(a, layout);
    assert_eq!(heap.count(), 1);
    assert_eq!(heap.size(), 4);
}

#[test]
fn bytes_of_one_integer() {
    let mut heap = Heap::new(1);
    let layout = Layout::new::<i32>();
    let addr = heap.alloc_zeroed(layout);
    heap.store(addr, &vec![42, 0, 0, 0]);
    assert_eq!(heap.bytes(), vec![42, 0, 0, 0]);
}

#[test]
fn ten_integers_are_forty_bytes() {
    let mut heap = Heap::new(10);
    let layout = Layout::new::<i32>();
    for _ in 0..10 {
        heap.allocate(layout);
    }
    assert_eq!(heap.size(), 40);
}

#[test]
fn three_blocks_are_counted() {
    let mut heap = Heap::new(3);
    let layout = Layout::new::<i32>();
    let _ptr1 = heap.allocate(layout);
    let _ptr2 = heap.allocate(layout);
    let _ptr3 = heap.allocate(layout);
    assert_eq!(heap.count(), 3);
}

#[test]
fn new_table_is_empty() {
    let heap = Heap::new(16);
    assert_eq!(heap.count(), 0);
    assert_eq!(heap.size(), 0);
    assert!(heap.bytes().is_empty());
    assert!(!heap.contains(BASE_ADDRESS));
    assert!(heap.layout_of(BASE_ADDRESS).is_none());
    assert_eq!(heap.ref_count(BASE_ADDRESS), 0);
}

#[test]
fn place_says_where_the_next_block_goes() {
    let mut heap = Heap::new(1);
    assert_eq!(heap.place(Layout::new::<u64>()), Some(BASE_ADDRESS));
    let a = heap.allocate(Layout::new::<u8>());
    assert_eq!(a, BASE_ADDRESS);
    assert_eq!(heap.place(Layout::new::<u8>()), Some(BASE_ADDRESS + 1));
    assert_eq!(heap.place(Layout::new::<u32>()), Some(BASE_ADDRESS + 4));
    assert_eq!(heap.place(Layout::new::<u128>()), Some(BASE_ADDRESS + 16));
    let b = heap.allocate(Layout::new::<u32>());
    assert_eq!(b, BASE_ADDRESS + 4);
    assert_eq!(heap.place(Layout::new::<u8>()), Some(BASE_ADDRESS + 8));
}

#[test]
fn empty_block_keeps_an_address_to_itself() {
    let mut heap = Heap::new(1);
    let empty = Layout::from_size_align(0, 1).unwrap();
    let a = heap.allocate(empty);
    let b = heap.allocate(empty);
    assert_eq!(a, BASE_ADDRESS);
    assert_eq!(b, BASE_ADDRESS + 1);
    assert_eq!(heap.count(), 2);
    assert_eq!(heap.size(), 0);
    heap.dealloc(a, empty);
    assert!(!heap.contains(a));
    assert!(heap.contains(b));
}

#[test]
fn store_writes_over_the_first_bytes_only() {
    let mut heap = Heap::new(1);
    let addr = heap.alloc_zeroed(Layout::new::<u32>());
    heap.store(addr, &vec![1, 2, 3, 4]);
    heap.store(addr, &vec![9, 8]);
    assert_eq!(heap.load(addr, 4), vec![9, 8, 3, 4]);
    assert_eq!(heap.load(addr, 3), vec![9, 8, 3]);
    assert_eq!(heap.load(addr, 0), Vec::<u8>::new());
    assert_eq!(heap.size(), 4);
}

#[test]
fn store_leaves_other_blocks_alone() {
    let mut heap = Heap::new(2);
    let a = heap.alloc_zeroed(Layout::new::<u16>());
    let b = heap.alloc_zeroed(Layout::new::<u16>());
    heap.store(b, &vec![7, 7]);
    assert_eq!(heap.load(a, 2), vec![0, 0]);
    assert_eq!(heap.bytes(), vec![0, 0, 7, 7]);
}
