use allocator::sys::linux::bit_map_list::{calc_sub_maps, div_ceil, sub_map_slots, BitMapList, BitMapListNode};
use allocator::sys::linux::{bin_idx, bin_index, bucket_elem_size, bucket_layout, next_multiple_of, PageSizeCache};
use allocator::memory::Memory;
use allocator::sys::linux::local_cache::ThreadLocalCache;
use allocator::sys::linux::{aligned_is_small_check, alloc_aligned_ok_check, alloc_ok_check};

#[test]
fn bucket_sizes_double() {
    assert_eq!(bucket_elem_size(0), 8);
    assert_eq!(bucket_elem_size(4), 128);
    assert_eq!(bucket_elem_size(11), 16384);
}

#[test]
fn bucket_layout_smallest_bucket() {
    // cache lines of 16 words, on a machine with 8-byte words
    let l = bucket_layout(0, 16);
    if std::mem::size_of::<usize>() == 8 {
        assert_eq!(l.meta_words, 254);
        assert_eq!(l.elem_cnt, 7936);
        assert_eq!(l.map_cnt, 126);
        assert_eq!(l.meta_entries_used, 252);
    }
}

#[test]
fn bucket_layout_bucket_of_128_bytes() {
    let l = bucket_layout(4, 16);
    if std::mem::size_of::<usize>() == 8 {
        assert_eq!(l.meta_words, 30);
        assert_eq!(l.elem_cnt, 510);
        assert_eq!(l.map_cnt, 14);
        assert_eq!(l.meta_entries_used, 2);
    }
}

#[test]
fn bin_of_a_size() {
    if std::mem::size_of::<usize>() == 8 {
        assert_eq!(bin_idx(8), 0);
        assert_eq!(bin_idx(9), 1);
        assert_eq!(bin_idx(100), 4);
        assert_eq!(bin_idx(128), 4);
        assert_eq!(bin_idx(16384), 11);
        assert_eq!(bin_index(5), 0);
        assert_eq!(bin_index(100), 4);
    }
}

#[test]
fn next_multiple_keeps_multiples() {
    assert_eq!(next_multiple_of(20, 16), 32);
    assert_eq!(next_multiple_of(32, 16), 32);
}

#[test]
fn div_ceil_values() {
    assert_eq!(div_ceil(7, 2), 4);
    assert_eq!(div_ceil(8, 2), 4);
    assert_eq!(div_ceil(0, 3), 0);
}

#[test]
fn sub_maps_of_a_cache_line() {
    if usize::BITS == 64 {
        assert_eq!(sub_map_slots(128), 64);
        assert_eq!(sub_map_slots(32), 32);
        // 1024 bits in units of 64 + 64
        assert_eq!(calc_sub_maps(128), 8);
        // 512 bits in units of 64 + 64
        assert_eq!(calc_sub_maps(64), 4);
        // 128 bits in units of 16 + 64
        assert_eq!(calc_sub_maps(16), 2);
    }
}

#[test]
fn page_size_cache_fills_once() {
    let mut pages = PageSizeCache::new();
    assert_eq!(pages.get_page_size(), None);
    assert_eq!(pages.get_page_in_os_page_cnt(), None);
    assert_eq!(pages.setup_page_size(4096), 4096);
    assert_eq!(pages.get_page_size(), Some(4096));
    assert_eq!(pages.get_page_in_os_page_cnt(), Some(16));
    assert_eq!(allocator::sys::get_page_size(&pages), Some(4096));
}

#[test]
fn bitmap_node_finds_marked_entry() {
    let mut mem = Memory::new();
    let w = std::mem::size_of::<usize>();
    if w != 8 {
        return;
    }
    // element size 128, 14 bitmap words, the first 2 entries used
    let base = 0x30000 + 2 * w;
    let node = BitMapListNode::create(&mut mem, base, 128, 14, 2);
    assert_eq!(node, base + w);
    assert_eq!(mem.read(base), 128);
    assert_eq!(mem.read(base + w), 0);
    // the used entries and one more are marked in the first bitmap byte
    assert_eq!(mem.read(base + 2 * w), 7);
    let mut n = BitMapListNode(node);
    assert_eq!(n.element_size(&mem), 128);
    // the scan visits eight bitmap words from the highest; the last holds bit 0
    let e = n.alloc_free_entry(&mem).unwrap();
    assert_eq!(e.into_raw(), node - 7 * 8 * 8);
    let mut list = BitMapList::new_empty();
    assert_eq!(list.entries(), 0);
    list.insert_node(&mut mem, node);
    assert_eq!(list.entries(), 1);
    assert_eq!(list.try_alloc_free_entry(&mem).unwrap().into_raw(), node - 448);
}

#[test]
fn bitmap_list_counts_inserts() {
    let mut mem = Memory::new();
    let mut list = BitMapList::new_empty();
    list.insert_node(&mut mem, 0x1008);
    list.insert_node(&mut mem, 0x2008);
    list.insert_node(&mut mem, 0x3008);
    assert_eq!(list.entries(), 3);
    // the nodes are chained from the first to the last
    assert_eq!(mem.read(0x1008), 0x2008);
    assert_eq!(mem.read(0x2008), 0x3008);
}

#[test]
fn request_checks() {
    let cache = ThreadLocalCache::new();
    let mem = Memory::new();
    assert!(alloc_ok_check(&cache, &mem, 100));
    assert!(alloc_ok_check(&cache, &mem, 20000));
    // a bucket the thread cache does not keep
    assert!(!alloc_ok_check(&cache, &mem, 8000));
    // too small for a bucket
    assert!(!alloc_ok_check(&cache, &mem, 1));
    // the mapping size would not fit a word
    assert!(!alloc_ok_check(&cache, &mem, usize::MAX - 8));
    assert!(alloc_aligned_ok_check(&cache, &mem, 16, 256, 4096));
    assert!(alloc_aligned_ok_check(&cache, &mem, 100000, 16, 4096));
    assert!(!alloc_aligned_ok_check(&cache, &mem, usize::MAX - 2, 16, 4096));
    assert!(aligned_is_small_check(16, 256));
    assert!(!aligned_is_small_check(100000, 16));
    assert!(!aligned_is_small_check(16, 32768));
}
