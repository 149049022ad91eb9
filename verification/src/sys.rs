//! The platform layer: cache-line geometry and the Linux implementation.
use vstd::prelude::*;
use crate::memory::{Memory, wsize, word_size};
use self::linux::{
    AllocStep, Region, RemapRequest, PageSizeCache, PAGE_SIZE, alloc_ok, allocate_post,
    alloc_mapped_ok, allocate_mapped_post, alloc_aligned_ok, alloc_aligned_post,
    alloc_aligned_mapped_ok, alloc_aligned_mapped_post, dealloc_ok, dealloc_chunked_post,
    dealloc_bucket_mem, dealloc_bucket_frees_page, free_local_regions,
};
use self::linux::local_cache::ThreadLocalCache;

pub mod linux;

verus! {

/// `crossbeam_utils::CachePadded<T>` is aligned to the larger of the
/// alignment of `T` and the cache-line length crossbeam assumes for the
/// target: 128 bytes on x86-64, aarch64, arm64ec and powerpc64; 32 on arm,
/// mips, mips64, sparc and hexagon; 16 on m68k; 256 on s390x; 64 on all
/// others. The contract claims that the alignment of `CachePadded<()>` is
/// one of these lengths, without saying which.
#[verifier::external_body]
fn cache_padded_align() -> (r: usize)
    ensures
        r == 16 || r == 32 || r == 64 || r == 128 || r == 256,
{
    core::mem::align_of::<crossbeam_utils::CachePadded<()>>()
}

/// The cache-line size in bytes: the alignment of a cache-padded value.
pub fn cache_line_size() -> (r: usize)
    ensures
        r == 16 || r == 32 || r == 64 || r == 128 || r == 256,
{
    cache_padded_align()
}

/// The cache-line size in words.
pub fn cache_line_word_size() -> (r: usize)
    ensures
        r * wsize() == 16 || r * wsize() == 32 || r * wsize() == 64 || r * wsize() == 128 || r
            * wsize() == 256,
        2 <= r <= 64,
{
    let c = cache_line_size();
    let w = word_size();
    let r = c / w;
    assert(c % w == 0) by {
        if w == 4 {
            assert(c % 4 == 0);
        } else {
            assert(c % 8 == 0);
        }
    }
    assert(r * w == c && 2 <= r <= 64) by (nonlinear_arith)
        requires
            r == c / w,
            c % w == 0,
            w == 4 || w == 8,
            16 <= c <= 256,
    ;
    r
}


/// Allocates `size` bytes (see [`linux::allocate`]).
pub fn allocate(cache: &mut ThreadLocalCache, mem: &Memory, size: usize) -> (r: AllocStep)
    requires
        alloc_ok(*old(cache), mem@, size),
    ensures
        allocate_post(*old(cache), mem@, size, *final(cache), mem@, r),
{
    linux::allocate(cache, mem, size)
}

/// Finishes `allocate(size)` once its mapping is at `raw` (see
/// [`linux::allocate_mapped`]).
pub fn allocate_mapped(cache: &mut ThreadLocalCache, mem: &mut Memory, size: usize, raw: usize) -> (r: (usize, Vec<Region>))
    requires
        alloc_mapped_ok(*old(cache), old(mem)@, size, raw),
    ensures
        allocate_mapped_post(*old(cache), old(mem)@, size, raw, *final(cache), final(mem)@, (r.0, r.1@)),
{
    linux::allocate_mapped(cache, mem, size, raw)
}

/// Allocates `size` bytes aligned to `align` (see [`linux::alloc_aligned`]).
pub fn alloc_aligned(cache: &mut ThreadLocalCache, mem: &Memory, size: usize, align: usize, os_page_size: usize) -> (r: AllocStep)
    requires
        alloc_aligned_ok(*old(cache), mem@, size, align, os_page_size),
    ensures
        alloc_aligned_post(*old(cache), mem@, size, align, os_page_size, *final(cache), mem@, r),
{
    linux::alloc_aligned(cache, mem, size, align, os_page_size)
}

/// Finishes `alloc_aligned(size, align)` once its mapping is at `raw` (see
/// [`linux::alloc_aligned_mapped`]).
pub fn alloc_aligned_mapped(cache: &mut ThreadLocalCache, mem: &mut Memory, size: usize, align: usize, os_page_size: usize, raw: usize) -> (r: (usize, Vec<Region>))
    requires
        alloc_aligned_mapped_ok(*old(cache), old(mem)@, size, align, os_page_size, raw),
    ensures
        alloc_aligned_mapped_post(*old(cache), old(mem)@, size, align, os_page_size, raw, *final(cache), final(mem)@, (r.0, r.1@)),
{
    linux::alloc_aligned_mapped(cache, mem, size, align, os_page_size, raw)
}

/// What `free` guarantees: the cache `cache1`, memory `mem1` and result
/// `r` it leaves, given the cache `cache0` and memory `mem0` before.
pub open spec fn free_post(cache0: ThreadLocalCache, mem0: Map<usize, usize>, ptr: usize, cache1: ThreadLocalCache, mem1: Map<usize, usize>, r: Seq<Region>) -> bool {
    &&& (ptr == 0 ==> r == Seq::<Region>::empty() && cache1 == cache0 && mem1 == mem0)
    &&& (ptr != 0 && ptr % PAGE_SIZE == 0 ==> dealloc_chunked_post(
            cache0,
            mem0,
            (ptr - wsize()) as usize,
            cache1,
            mem1,
            r,
        ))
    &&& (ptr % PAGE_SIZE != 0 ==> {
            &&& cache1.inv()
            &&& cache1.cache_line_words() == cache0.cache_line_words()
            &&& forall|i: int|
                0 <= i < linux::local_cache::BUCKETS ==> #[trigger] cache1.bucket(i) == cache0.bucket(i)
            &&& mem1 == dealloc_bucket_mem(cache0, mem0, ptr)
            &&& dealloc_bucket_frees_page(cache0, mem0, ptr) ==> {
                let alloc = (ptr - ptr % PAGE_SIZE) as usize;
                &&& r == free_local_regions(cache0.free_chunks().nodes(), alloc, PAGE_SIZE)
                &&& cache1.free_chunks().nodes() == linux::free_local_nodes(
                    cache0.free_chunks().nodes(),
                    alloc,
                )
                &&& cache1.free_chunks().wf(mem1)
            }
            &&& !dealloc_bucket_frees_page(cache0, mem0, ptr) ==> r == Seq::<Region>::empty()
                && cache1.free_chunks() == cache0.free_chunks()
        })
}

/// Frees `ptr`; a null pointer is ignored.
pub fn free(cache: &mut ThreadLocalCache, mem: &mut Memory, ptr: usize) -> (r: Vec<Region>)
    requires
        ptr != 0 ==> dealloc_ok(*old(cache), old(mem)@, ptr),
    ensures
        free_post(*old(cache), old(mem)@, ptr, *final(cache), final(mem)@, r@),

{
    if ptr == 0 {
        let r: Vec<Region> = Vec::new();
        assert(r@ =~= Seq::<Region>::empty());
        return r;
    }
    linux::dealloc(cache, mem, ptr)
}


/// The request to resize the mapping at `ptr` (see [`linux::realloc`]).
pub fn realloc(ptr: usize, old_size: usize, new_size: usize, new_align: usize) -> (r: RemapRequest)
    ensures
        r == (RemapRequest { ptr, old_size, new_size }),
{
    linux::realloc(ptr, old_size, new_size, new_align)
}

/// The OS page size if it is cached (see [`PageSizeCache::get_page_size`]).
pub fn get_page_size(pages: &PageSizeCache) -> (r: Option<usize>)
    ensures
        pages.os_page_size() != linux::NOT_PRESENT ==> r == Some(pages.os_page_size()),
        pages.os_page_size() == linux::NOT_PRESENT ==> r is None,
{
    pages.get_page_size()
}

} // verus!
