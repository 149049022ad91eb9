use allocator::memory::Memory;
use allocator::sys::linux::local_cache::ThreadLocalCache;
use allocator::sys::linux::{alloc_chunked_size, chunked_fits_check, AllocStep, RemapRequest, PAGE_SIZE};
use allocator::{
    alloc_aligned, alloc_aligned_mapped, alloc_aligned_promise_sized, alloc_promise_sized, allocate,
    allocate_mapped, free, free_ctx_sized, free_promise_sized, realloc_promise_sized,
};

fn machine_is_64_with_16_word_lines() -> bool {
    std::mem::size_of::<usize>() == 8 && allocator::sys::cache_line_word_size() == 16
}

#[test]
fn small_request_asks_for_two_pages() {
    let mut cache = ThreadLocalCache::new();
    let mem = Memory::new();
    assert_eq!(allocate(&mut cache, &mem, 100), AllocStep::MapBytes(2 * PAGE_SIZE));
    assert_eq!(alloc_promise_sized(&mut cache, &mem, 100), AllocStep::MapBytes(2 * PAGE_SIZE));
}

#[test]
fn small_request_served_from_new_bucket_page() {
    if !machine_is_64_with_16_word_lines() {
        return;
    }
    let mut cache = ThreadLocalCache::new();
    let mut mem = Memory::new();
    let raw = 3 * PAGE_SIZE;
    let (p, unmaps) = allocate_mapped(&mut cache, &mut mem, 100, raw);
    // an aligned mapping keeps its first page; the second goes to the free-chunk stack
    assert!(unmaps.is_empty());
    assert_eq!(cache.free_chunk_cnt(), 1);
    assert_eq!(mem.read(raw + PAGE_SIZE), PAGE_SIZE);
    // the page is a bucket of index 4 (128-byte elements)
    assert_eq!(mem.read(raw) & 15, 4);
    // the entry sits 56 words below the node that follows the bucket words
    assert_eq!(p, raw + 3 * 8 - 448);
    // the next request of that size is served from the same node
    assert_eq!(allocate(&mut cache, &mem, 100), AllocStep::Done(raw + 24 - 448));
}

#[test]
fn unaligned_mapping_is_trimmed() {
    if !machine_is_64_with_16_word_lines() {
        return;
    }
    let mut cache = ThreadLocalCache::new();
    let mut mem = Memory::new();
    let raw = 3 * PAGE_SIZE + 0x1000;
    let (p, unmaps) = allocate_mapped(&mut cache, &mut mem, 100, raw);
    let aligned = 4 * PAGE_SIZE;
    assert_eq!(p, aligned + 24 - 448);
    assert_eq!(unmaps.len(), 2);
    assert_eq!((unmaps[0].addr, unmaps[0].len), (raw, aligned - raw));
    assert_eq!((unmaps[1].addr, unmaps[1].len), (aligned + PAGE_SIZE, PAGE_SIZE - (aligned - raw)));
    assert_eq!(cache.free_chunk_cnt(), 0);
}

#[test]
fn large_request_gets_chunked_mapping() {
    let w = std::mem::size_of::<usize>();
    let mut cache = ThreadLocalCache::new();
    let mut mem = Memory::new();
    assert_eq!(alloc_chunked_size(20000), PAGE_SIZE);
    assert_eq!(allocate(&mut cache, &mem, 20000), AllocStep::MapBytes(PAGE_SIZE));
    if w != 8 {
        return;
    }
    // a payload of 20008 bytes would leave room for a free last chunk ending past the mapping
    assert!(!chunked_fits_check(20000));
    // 65504 bytes: a payload of 65512 bytes and its two tags fill the page
    assert!(chunked_fits_check(65504));
    assert_eq!(allocate(&mut cache, &mem, 65504), AllocStep::MapBytes(PAGE_SIZE));
    let raw = 5 * PAGE_SIZE;
    let (p, unmaps) = allocate_mapped(&mut cache, &mut mem, 65504, raw);
    assert!(unmaps.is_empty());
    assert_eq!(p, raw + 2 * w);
    // the allocation word: a whole page, first chunk
    assert_eq!(mem.read(raw), PAGE_SIZE | 1);
    // the payload chunk: 65512 bytes of payload and two metadata words, first and last
    assert_eq!(mem.read(raw + 8), 65528 | 3);
    assert_eq!(mem.read(raw + 8 + 65528 - 8), 65528 | 3);
}

#[test]
fn zero_mapping_address_gives_null() {
    let mut cache = ThreadLocalCache::new();
    let mut mem = Memory::new();
    let (p, unmaps) = allocate_mapped(&mut cache, &mut mem, 20000, 0);
    assert_eq!(p, 0);
    assert!(unmaps.is_empty());
}

#[test]
fn aligned_request_uses_alignment_class() {
    let mut cache = ThreadLocalCache::new();
    let mem = Memory::new();
    // 16 bytes aligned to 256 come from the 256-byte bucket, which is empty
    assert_eq!(alloc_aligned(&mut cache, &mem, 16, 256, 4096), AllocStep::MapBytes(2 * PAGE_SIZE));
    assert_eq!(alloc_aligned_promise_sized(&mut cache, &mem, 16, 256, 4096), AllocStep::MapBytes(2 * PAGE_SIZE));
}

#[test]
fn aligned_small_request_served_after_mapping() {
    if !machine_is_64_with_16_word_lines() {
        return;
    }
    let mut cache = ThreadLocalCache::new();
    let mut mem = Memory::new();
    let raw = 7 * PAGE_SIZE;
    let (p, unmaps) = alloc_aligned_mapped(&mut cache, &mut mem, 16, 128, 4096, raw);
    assert!(unmaps.is_empty());
    assert_eq!(mem.read(raw) & 15, 4);
    assert_eq!(p, raw + 24 - 448);
}

#[test]
fn free_of_null_does_nothing() {
    let mut cache = ThreadLocalCache::new();
    let mut mem = Memory::new();
    assert!(free(&mut cache, &mut mem, 0).is_empty());
    assert!(free_ctx_sized(&mut cache, &mut mem, 0, 16).is_empty());
    assert!(free_promise_sized(&mut cache, &mut mem, 0, 16).is_empty());
    assert_eq!(cache.free_chunk_cnt(), 0);
}

#[test]
fn realloc_names_the_remapping() {
    assert_eq!(
        realloc_promise_sized(0x10000, 100, 200, 8),
        RemapRequest { ptr: 0x10000, old_size: 100, new_size: 200 }
    );
}
