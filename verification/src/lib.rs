//! A general-purpose memory allocator whose bookkeeping is verified.
//!
//! The allocator keeps all of its metadata (chunk headers, bucket words,
//! bitmaps, free lists) in a word-addressed [`memory::Memory`]; the calls that
//! map and unmap pages are made by the caller, which hands the mapped address
//! back to the functions of this crate and performs the unmappings they ask for.
//!
//! An allocation is asked for with [`allocate`] (or [`alloc_aligned`]). It is
//! either done at once, or it names a number of bytes to map; the caller maps
//! them and finishes with [`allocate_mapped`] (or [`alloc_aligned_mapped`]).
use vstd::prelude::*;
use crate::memory::Memory;
use crate::sys::linux::{
    AllocStep, Region, RemapRequest, alloc_ok, allocate_post, alloc_mapped_ok, allocate_mapped_post,
    alloc_aligned_ok, alloc_aligned_post, alloc_aligned_mapped_ok, alloc_aligned_mapped_post,
    dealloc_ok,
};
use crate::sys::linux::local_cache::ThreadLocalCache;
use crate::sys::free_post;

pub mod memory;
pub mod chunk_ref;
pub mod util;
pub mod alloc_ref;
pub mod page_ref;
pub mod linked_list;
pub mod sys;
pub mod implicit_rb_tree;
pub mod weak_rc;

verus! {

/// Allocates `size` bytes aligned to a word, from the thread's cache `cache`
/// and the allocator memory `mem`.
pub fn allocate(cache: &mut ThreadLocalCache, mem: &Memory, size: usize) -> (r: AllocStep)
    requires
        alloc_ok(*old(cache), mem@, size),
    ensures
        allocate_post(*old(cache), mem@, size, *final(cache), mem@, r),
{
    sys::allocate(cache, mem, size)
}

/// Finishes [`allocate`] once the bytes it asked for are mapped at `raw`.
pub fn allocate_mapped(cache: &mut ThreadLocalCache, mem: &mut Memory, size: usize, raw: usize) -> (r: (usize, Vec<Region>))
    requires
        alloc_mapped_ok(*old(cache), old(mem)@, size, raw),
    ensures
        allocate_mapped_post(*old(cache), old(mem)@, size, raw, *final(cache), final(mem)@, (r.0, r.1@)),
{
    sys::allocate_mapped(cache, mem, size, raw)
}

/// Allocates `size` bytes whose size the caller will give back when freeing;
/// served as [`allocate`].
pub fn alloc_promise_sized(cache: &mut ThreadLocalCache, mem: &Memory, size: usize) -> (r: AllocStep)
    requires
        alloc_ok(*old(cache), mem@, size),
    ensures
        allocate_post(*old(cache), mem@, size, *final(cache), mem@, r),
{
    sys::allocate(cache, mem, size)
}

/// Allocates `size` bytes aligned to `align`; `os_page_size` is the OS page
/// size.
pub fn alloc_aligned(cache: &mut ThreadLocalCache, mem: &Memory, size: usize, align: usize, os_page_size: usize) -> (r: AllocStep)
    requires
        alloc_aligned_ok(*old(cache), mem@, size, align, os_page_size),
    ensures
        alloc_aligned_post(*old(cache), mem@, size, align, os_page_size, *final(cache), mem@, r),
{
    sys::alloc_aligned(cache, mem, size, align, os_page_size)
}

/// Finishes [`alloc_aligned`] once the bytes it asked for are mapped at
/// `raw`.
pub fn alloc_aligned_mapped(cache: &mut ThreadLocalCache, mem: &mut Memory, size: usize, align: usize, os_page_size: usize, raw: usize) -> (r: (usize, Vec<Region>))
    requires
        alloc_aligned_mapped_ok(*old(cache), old(mem)@, size, align, os_page_size, raw),
    ensures
        alloc_aligned_mapped_post(*old(cache), old(mem)@, size, align, os_page_size, raw, *final(cache), final(mem)@, (r.0, r.1@)),
{
    sys::alloc_aligned_mapped(cache, mem, size, align, os_page_size, raw)
}

/// Allocates `size` bytes aligned to `align` whose size the caller will give
/// back when freeing; served as [`alloc_aligned`].
pub fn alloc_aligned_promise_sized(cache: &mut ThreadLocalCache, mem: &Memory, size: usize, align: usize, os_page_size: usize) -> (r: AllocStep)
    requires
        alloc_aligned_ok(*old(cache), mem@, size, align, os_page_size),
    ensures
        alloc_aligned_post(*old(cache), mem@, size, align, os_page_size, *final(cache), mem@, r),
{
    sys::alloc_aligned(cache, mem, size, align, os_page_size)
}

/// Frees `ptr`, which [`allocate`] or [`alloc_aligned`] returned; a null
/// pointer is ignored. Returns the regions to unmap.
pub fn free(cache: &mut ThreadLocalCache, mem: &mut Memory, ptr: usize) -> (r: Vec<Region>)
    requires
        ptr != 0 ==> dealloc_ok(*old(cache), old(mem)@, ptr),
    ensures
        free_post(*old(cache), old(mem)@, ptr, *final(cache), final(mem)@, r@),
{
    sys::free(cache, mem, ptr)
}

/// Frees `ptr` of `size` bytes; the size is not needed and the pointer is
/// freed as by [`free`].
pub fn free_ctx_sized(cache: &mut ThreadLocalCache, mem: &mut Memory, ptr: usize, size: usize) -> (r: Vec<Region>)
    requires
        ptr != 0 ==> dealloc_ok(*old(cache), old(mem)@, ptr),
    ensures
        free_post(*old(cache), old(mem)@, ptr, *final(cache), final(mem)@, r@),
{
    sys::free(cache, mem, ptr)
}

/// Frees `ptr` of `size` bytes, which [`alloc_promise_sized`] or
/// [`alloc_aligned_promise_sized`] returned; freed as by [`free`].
pub fn free_promise_sized(cache: &mut ThreadLocalCache, mem: &mut Memory, ptr: usize, size: usize) -> (r: Vec<Region>)
    requires
        ptr != 0 ==> dealloc_ok(*old(cache), old(mem)@, ptr),
    ensures
        free_post(*old(cache), old(mem)@, ptr, *final(cache), final(mem)@, r@),
{
    sys::free(cache, mem, ptr)
}

/// The request that moves the allocation at `ptr` from `old_size` to
/// `new_size` bytes; the alignment is not used.
pub fn realloc_promise_sized(ptr: usize, old_size: usize, new_size: usize, new_align: usize) -> (r: RemapRequest)
    ensures
        r == (RemapRequest { ptr, old_size, new_size }),
{
    sys::realloc(ptr, old_size, new_size, new_align)
}

} // verus!
