use allocator::alloc_ref::{AllocRef, BucketAlloc, BUCKET_TY_FLAG, CNT_ONE};
use allocator::linked_list::LinkedList;
use allocator::memory::Memory;
use allocator::page_ref::{PageKind, PageRef, CHUNK_ALLOC_FLAG};

#[test]
fn bucket_setup_marks_index_and_type() {
    let mut mem = Memory::new();
    let mut a = AllocRef::new_start(0x10000);
    a.setup_bucket(&mut mem, 5);
    assert_eq!(mem.read(0x10000), 5 | BUCKET_TY_FLAG);
    assert!(a.is_bucket(&mem));
    let b = a.read_bucket();
    assert_eq!(b.read_bucket_idx(&mem), 5);
    assert_eq!(b.read_remaining_elem_cnt(&mem), 0);
}

#[test]
fn bucket_counter_steps() {
    let mut mem = Memory::new();
    let b = BucketAlloc(0x20000);
    b.setup(&mut mem, 3);
    let up = b.increase_remaining_elem_cnt(&mut mem);
    assert_eq!(up.elem_cnt(), 1);
    assert!(!up.is_free());
    assert_eq!(mem.read(0x20000), 3 | BUCKET_TY_FLAG | CNT_ONE);
    b.update_remaining_elem_cnt(&mut mem, 42);
    assert_eq!(b.read_remaining_elem_cnt(&mem), 42);
    assert_eq!(b.read_bucket_idx(&mem), 3);
    let down = b.decrement_remaining_elem_cnt(&mut mem, 1);
    assert_eq!(down.elem_cnt(), 41);
    let w = std::mem::size_of::<usize>();
    assert_eq!(b.into_start(), 0x20000 + 2 * w);
}

#[test]
fn plain_allocation_word_is_not_a_bucket() {
    let mut mem = Memory::new();
    mem.write(0x30000, 4096);
    assert!(!AllocRef::new_start(0x30000).is_bucket(&mem));
}

#[test]
fn page_kind_round_trip() {
    let mut mem = Memory::new();
    let mut p = PageRef::from_unaligned_ptr(0x12345, 0x1000);
    assert_eq!(p.0, 0x12000);
    p.setup(&mut mem, PageKind::ChunkPage { alloc_offset: 0x40 });
    assert_eq!(mem.read(0x12000), 0x40 | CHUNK_ALLOC_FLAG);
    match p.kind(&mem) {
        PageKind::ChunkPage { alloc_offset } => assert_eq!(alloc_offset, 0x40),
        PageKind::AllocPage { .. } => panic!("expected a chunk page"),
    }
    let mut q = PageRef::from_page_ptr(0x13000);
    q.setup(&mut mem, PageKind::AllocPage { size: 0x3000 });
    let k = q.kind(&mem);
    assert_eq!(k.size(), 0x3000);
    assert_eq!(k.into_raw(), 0x3000);
    assert_eq!(PageKind::ChunkPage { alloc_offset: 8 }.offset(), 8);
}

#[test]
fn list_pops_in_reverse_push_order() {
    let mut mem = Memory::new();
    let mut l = LinkedList::new();
    assert!(l.is_empty());
    l.push(&mut mem, 0x1000, 11);
    l.push(&mut mem, 0x2000, 22);
    assert_eq!(l.len(), 2);
    assert_eq!(mem.read(0x2000), 22);
    let w = std::mem::size_of::<usize>();
    assert_eq!(mem.read(0x2000 + w), 0x1000);
    assert_eq!(mem.read(0x1000 + w), 0);
    assert_eq!(l.pop_front(&mem), 0x2000);
    assert_eq!(l.pop_front(&mem), 0x1000);
    assert_eq!(l.pop_front(&mem), 0);
    assert!(l.is_empty());
}

#[test]
fn list_length_counts_pushes_less_pops() {
    let mut mem = Memory::new();
    let mut l = LinkedList::new();
    l.push(&mut mem, 0x1000, 1);
    l.push(&mut mem, 0x2000, 2);
    assert_eq!(l.pop_front(&mem), 0x2000);
    l.push(&mut mem, 0x3000, 3);
    assert_eq!(l.len(), 2);
    assert_eq!(l.pop_front(&mem), 0x3000);
    assert_eq!(l.pop_front(&mem), 0x1000);
    // a pop on an empty list returns no node and does not count
    assert_eq!(l.pop_front(&mem), 0);
    assert_eq!(l.len(), 0);
    assert!(l.is_empty());
}

#[test]
fn forgotten_region_reads_zero() {
    let mut mem = Memory::new();
    let w = std::mem::size_of::<usize>();
    mem.write(0x1000, 5);
    mem.write(0x1000 + w, 6);
    mem.write(0x1000 + 4 * w, 7);
    mem.forget_region(0x1000, 2 * w);
    assert_eq!(mem.read(0x1000), 0);
    assert_eq!(mem.read(0x1000 + w), 0);
    assert_eq!(mem.read(0x1000 + 4 * w), 7);
}
