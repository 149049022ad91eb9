//! The Linux allocator: buckets of equally sized elements for small requests
//! and chunked allocations of whole pages for large ones.
//!
//! Mapping and unmapping memory is left to the caller. A function whose work
//! needs fresh memory comes in two parts: the first says how many bytes to
//! map ([`AllocStep::MapBytes`]), the second (named `..._mapped`) takes the address
//! the mapping returned. Regions to unmap are handed back as [`Region`]s.
use vstd::prelude::*;
use crate::memory::{Memory, wsize, word_size, lemma_word_size, lemma_aligned, word_at};
use crate::util::{ceil_log2, is_ceil_log2};
use crate::linked_list::{node_addr_ok, nodes_apart};
use self::bit_map_list::{div_ceil, div_ceil_spec};
use self::local_cache::ThreadLocalCache;
use self::bit_map_list::{
    BitMapListNode, created_mem, try_alloc_result_at, try_alloc_ok_at, try_alloc_drops_head_at,
    entries_after_insert,
};
use crate::alloc_ref::{AllocRef, BucketAlloc, BUCKET_TY_FLAG, is_bucket_of, is_free_of, elem_cnt_of, CNT_ONE};
use crate::chunk_ref::ChunkRef;
use crate::chunk_ref::meta::{ChunkMeta, flags_word};
use crate::util::round_up_to_multiple_of;

pub mod bit_map_list;
pub mod local_cache;
pub mod global_free_list;

verus! {

/// The allocator's internal page size: 64 KiB.
pub const PAGE_SIZE: usize = 65536;

/// Number of bucket sizes.
pub const BUCKETS: usize = 12;

/// The largest bucket element size.
pub const LARGEST_BUCKET: usize = 16384;

/// The free-chunk stack of a thread holds at most this many chunks.
pub const LOCAL_CACHE_ENTRIES_MAX: usize = 32;

/// Marks a page-size cache slot that was not filled yet.
pub const NOT_PRESENT: usize = 0;

/// A region of memory the caller must unmap.
#[derive(Clone, Copy, Debug, PartialEq, Eq, Structural)]
pub struct Region {
    pub addr: usize,
    pub len: usize,
}

/// What an allocation needs next.
#[derive(Clone, Copy, Debug, PartialEq, Eq, Structural)]
pub enum AllocStep {
    /// The allocation is done; the address (zero for failure).
    Done(usize),
    /// Map this many bytes and pass their address to the matching
    /// `..._mapped` function.
    MapBytes(usize),
}

/// The element size of bucket `idx`: 8 bytes doubled `idx` times.
pub open spec fn bucket_elem_size_spec(idx: int) -> usize {
    if idx == 0 {
        8
    } else if idx == 1 {
        16
    } else if idx == 2 {
        32
    } else if idx == 3 {
        64
    } else if idx == 4 {
        128
    } else if idx == 5 {
        256
    } else if idx == 6 {
        512
    } else if idx == 7 {
        1024
    } else if idx == 8 {
        2048
    } else if idx == 9 {
        4096
    } else if idx == 10 {
        8192
    } else {
        16384
    }
}

/// The element size of bucket `idx`.
pub fn bucket_elem_size(idx: usize) -> (r: usize)
    requires
        idx < BUCKETS,
    ensures
        r == bucket_elem_size_spec(idx as int),
        8 <= r <= LARGEST_BUCKET,
{
    match idx {
        0 => 8,
        1 => 16,
        2 => 32,
        3 => 64,
        4 => 128,
        5 => 256,
        6 => 512,
        7 => 1024,
        8 => 2048,
        9 => 4096,
        10 => 8192,
        _ => 16384,
    }
}

/// `x` rounded up to a multiple of `m` (unchanged when it already is one).
pub open spec fn next_multiple_of_spec(x: int, m: int) -> int {
    if x % m == 0 {
        x
    } else {
        x + m - x % m
    }
}

/// `x` rounded up to a multiple of `m` (unchanged when it already is one).
pub fn next_multiple_of(x: usize, m: usize) -> (r: usize)
    requires
        m > 0,
        x + m <= usize::MAX,
    ensures
        r == next_multiple_of_spec(x as int, m as int),
{
    if x % m == 0 {
        x
    } else {
        x + (m - x % m)
    }
}

/// Words of bucket metadata for `max_elems` elements: two bitmap words per
/// word of elements, two words of bucket header and two of node header,
/// rounded up to whole cache lines of `cl` words.
pub open spec fn meta_size_for(max_elems: int, cl: int) -> int {
    next_multiple_of_spec(div_ceil_spec(max_elems as usize, usize::BITS as usize) * 2 + 2 + 2, cl)
}

/// One refinement of the element count: what fits in a page next to the
/// metadata that `meta` words take.
pub open spec fn elems_after_meta(elem_size: int, meta: int) -> int {
    (PAGE_SIZE - meta * wsize()) / elem_size
}

/// Most refinement rounds the layout computation runs.
pub const LAYOUT_ROUNDS: usize = 64;

/// The refinement of the bucket layout from the estimate `max_elems`: the
/// metadata size for the estimate and the element count that fits next to
/// it, repeated until the count stops changing or the rounds run out.
pub open spec fn settle(elem_size: int, cl: int, max_elems: int, rounds: nat) -> (int, int)
    decreases rounds,
{
    let meta = meta_size_for(max_elems, cl);
    let next = elems_after_meta(elem_size, meta);
    if next == max_elems || rounds == 0 {
        (next, meta)
    } else {
        settle(elem_size, cl, next, (rounds - 1) as nat)
    }
}

/// The layout of a bucket page.
#[derive(Clone, Copy, Debug, PartialEq, Eq, Structural)]
pub struct BucketLayout {
    /// Words of metadata in front of the elements, without the bucket
    /// header.
    pub meta_words: usize,
    /// Elements in the page.
    pub elem_cnt: usize,
    /// Bitmap words of the node.
    pub map_cnt: usize,
    /// Entries the metadata occupies.
    pub meta_entries_used: usize,
}

/// The layout of bucket `idx` for cache lines of `cl` words.
pub open spec fn bucket_layout_spec(idx: int, cl: int) -> BucketLayout {
    let s = bucket_elem_size_spec(idx) as int;
    let (elems, meta) = settle(s, cl, (PAGE_SIZE as int) / s, LAYOUT_ROUNDS as nat);
    BucketLayout {
        meta_words: (meta - 2) as usize,
        elem_cnt: elems as usize,
        map_cnt: ((meta - 2 - 2) / 2) as usize,
        meta_entries_used: div_ceil_spec((meta - 2 - 2) as usize, (s / (wsize() as int)) as usize),
    }
}

fn meta_size(max_elems: usize, cl: usize) -> (r: usize)
    requires
        max_elems <= PAGE_SIZE / 8,
        2 <= cl <= 64,
        usize::BITS >= 32,
    ensures
        r == meta_size_for(max_elems as int, cl as int),
        4 <= r <= 4 + 2 * 256 + 64,
{
    let c = div_ceil(max_elems, usize::BITS as usize);
    proof {
        assert(c <= 256) by (nonlinear_arith)
            requires
                max_elems <= 8192,
                usize::BITS >= 32,
                c == max_elems / (usize::BITS as usize) + if max_elems % (usize::BITS as usize) == 0 {
                    0usize
                } else {
                    1usize
                },
        ;
    }
    let x = c * 2 + 2 + 2;
    proof {
        assert(x % cl < cl);
    }
    next_multiple_of(x, cl)
}

/// Computes the layout of bucket `idx` for cache lines of `cl` words: start
/// from as many elements as fit in a page and refine the estimate against
/// the metadata it needs.
pub fn bucket_layout(idx: usize, cl: usize) -> (r: BucketLayout)
    requires
        idx < BUCKETS,
        2 <= cl <= 64,
    ensures
        r == bucket_layout_spec(idx as int, cl as int),
{
    proof {
        lemma_word_size();
    }
    let w = word_size();
    let s = bucket_elem_size(idx);
    let mut max_elems = PAGE_SIZE / s;
    let mut rounds: usize = LAYOUT_ROUNDS;
    let ghost start = max_elems;
    let mut meta: usize;
    let mut next: usize;
    loop
        invariant
            max_elems <= PAGE_SIZE / 8,
            rounds <= LAYOUT_ROUNDS,
            2 <= cl <= 64,
            w == wsize(),
            wsize() == 4 || wsize() == 8,
            usize::BITS == 8 * wsize(),
            s == bucket_elem_size_spec(idx as int),
            8 <= s <= LARGEST_BUCKET,
            settle(s as int, cl as int, max_elems as int, rounds as nat) == settle(
                s as int,
                cl as int,
                (PAGE_SIZE / s) as int,
                LAYOUT_ROUNDS as nat,
            ),
        ensures
            (next as int, meta as int) == settle(
                s as int,
                cl as int,
                (PAGE_SIZE / s) as int,
                LAYOUT_ROUNDS as nat,
            ),
            4 <= meta <= 580,
            next <= PAGE_SIZE / 8,
        decreases rounds,
    {
        meta = meta_size(max_elems, cl);
        proof {
            assert(meta * w <= 580 * 8) by (nonlinear_arith)
                requires
                    meta <= 580,
                    w <= 8,
            ;
            assert((PAGE_SIZE - meta * w) / (s as int) <= PAGE_SIZE / 8) by (nonlinear_arith)
                requires
                    s >= 8,
                    meta * w <= PAGE_SIZE,
            ;
        }
        next = (PAGE_SIZE - meta * w) / s;
        if next == max_elems || rounds == 0 {
            break ;
        }
        max_elems = next;
        rounds = rounds - 1;
    }
    proof {
        assert(s / w >= 1) by (nonlinear_arith)
            requires
                s >= 8,
                4 <= w <= 8,
        ;
    }
    let meta_words = meta - 2;
    BucketLayout {
        meta_words,
        elem_cnt: next,
        map_cnt: (meta_words - 2) / 2,
        meta_entries_used: div_ceil(meta_words - 2, s / w),
    }
}

/// Base-two logarithm of the word size.
pub open spec fn word_log2() -> nat {
    if wsize() == 4 {
        2
    } else {
        3
    }
}

/// The bucket for requests of `size` bytes: the exponent of the least power
/// of two that holds `size`, counted from the word size.
pub fn bin_idx(size: usize) -> (r: usize)
    requires
        size <= vstd::arithmetic::power2::pow2((usize::BITS - 1) as nat),
        2 * size > wsize(),
    ensures
        is_ceil_log2(size as nat, (r + word_log2()) as nat),
{
    proof {
        lemma_word_size();
        vstd::arithmetic::power2::lemma2_to64();
    }
    let rounded_up = ceil_log2(size);
    let lw: u32 = if word_size() == 4 {
        2
    } else {
        3
    };
    proof {
        if rounded_up < lw {
            if rounded_up == 0 {
                assert(size <= 1);
            } else if rounded_up == 1 {
                assert(size <= 2);
            } else {
                assert(size <= 4);
            }
            assert(false);
        }
    }
    (rounded_up - lw) as usize
}

/// The region that freeing `size` bytes at `addr` globally unmaps.
pub fn free_global(addr: usize, size: usize) -> (r: Region)
    ensures
        r == (Region { addr, len: size }),
{
    Region { addr, len: size }
}

/// What `free_local` of `size` bytes at `addr` leaves, from the cache
/// `cache0` and memory `mem0` to `cache1` and `mem1`, and returns: a full
/// free-chunk stack hands the chunk back for unmapping; otherwise the chunk
/// is pushed with its size in its first word.
pub open spec fn free_local_post(cache0: ThreadLocalCache, mem0: Map<usize, usize>, addr: usize, size: usize, cache1: ThreadLocalCache, mem1: Map<usize, usize>, r: Option<Region>) -> bool {
    &&& cache1.inv() == cache0.inv()
    &&& cache1.cache_line_words() == cache0.cache_line_words()
    &&& cache1.free_chunks().wf(mem1)
    &&& forall|i: int| 0 <= i < local_cache::BUCKETS ==> #[trigger] cache1.bucket(i) == cache0.bucket(i)
    &&& cache0.free_chunks().nodes().len() >= LOCAL_CACHE_ENTRIES_MAX ==> {
        &&& r == Some(Region { addr, len: size })
        &&& cache1 == cache0
        &&& mem1 == mem0
    }
    &&& cache0.free_chunks().nodes().len() < LOCAL_CACHE_ENTRIES_MAX ==> {
        &&& r is None
        &&& cache1.free_chunks().nodes() == seq![addr].add(cache0.free_chunks().nodes())
        &&& mem1 == mem0.insert(addr, size).insert(
            (addr + wsize()) as usize,
            if cache0.free_chunks().nodes().len() > 0 {
                cache0.free_chunks().nodes()[0]
            } else {
                0
            },
        )
    }
}

/// A chunk freed into a thread cache whose free-chunk stack is not full is
/// the next chunk the cache hands out, with the freed size in its first
/// word, and the stack is then as it was before.
pub proof fn lemma_free_local_then_pop(
    cache0: ThreadLocalCache,
    mem0: Map<usize, usize>,
    addr: usize,
    size: usize,
    cache1: ThreadLocalCache,
    mem1: Map<usize, usize>,
    r1: Option<Region>,
    cache2: ThreadLocalCache,
    r2: Option<crate::alloc_ref::FreeAlloc>,
)
    requires
        cache0.free_chunks().nodes().len() < LOCAL_CACHE_ENTRIES_MAX,
        free_local_post(cache0, mem0, addr, size, cache1, mem1, r1),
        local_cache::pop_free_chunk_post(cache1, mem1, cache2, r2),
    ensures
        r1 is None,
        r2 == Some(crate::alloc_ref::FreeAlloc(addr)),
        word_at(mem1, addr) == size,
        cache2.free_chunks().nodes() == cache0.free_chunks().nodes(),
{
    assert(seq![addr].add(cache0.free_chunks().nodes()).drop_first() =~= cache0.free_chunks().nodes());
}

/// Frees the chunk at `addr` of `size` bytes into the thread's cache, or,
/// when the cache already holds its maximum, hands it back for unmapping.
pub fn free_local(cache: &mut ThreadLocalCache, mem: &mut Memory, addr: usize, size: usize) -> (r: Option<Region>)
    requires
        old(cache).free_chunks().wf(old(mem)@),
        old(cache).free_chunks().nodes().len() < LOCAL_CACHE_ENTRIES_MAX ==> {
            &&& node_addr_ok(addr)
            &&& forall|i: int|
                0 <= i < old(cache).free_chunks().nodes().len() ==> nodes_apart(
                    addr,
                    #[trigger] old(cache).free_chunks().nodes()[i],
                )
        },
    ensures
        free_local_post(*old(cache), old(mem)@, addr, size, *final(cache), final(mem)@, r),
{
    if cache.free_chunk_cnt() >= LOCAL_CACHE_ENTRIES_MAX {
        return Some(free_global(addr, size));
    }
    cache.push_free_chunk(mem, addr, size);
    None
}

/// The process-wide page-size cache: the OS page size and how many OS
/// pages make up one allocator page, zero until known.
pub struct PageSizeCache {
    os_page_size: usize,
    page_os_page_cnt: usize,
}

impl PageSizeCache {
    /// The cached OS page size, zero when not known yet.
    pub closed spec fn os_page_size(self) -> usize {
        self.os_page_size
    }

    /// The cached number of OS pages per allocator page, zero when not known
    /// yet.
    pub closed spec fn page_os_page_cnt(self) -> usize {
        self.page_os_page_cnt
    }

    /// A cache that knows nothing yet.
    pub fn new() -> (r: Self)
        ensures
            r.os_page_size() == NOT_PRESENT,
            r.page_os_page_cnt() == NOT_PRESENT,
    {
        PageSizeCache { os_page_size: NOT_PRESENT, page_os_page_cnt: NOT_PRESENT }
    }

    /// The OS page size if it is cached. When it is not, the caller asks the
    /// OS and records the answer with `setup_page_size`.
    pub fn get_page_size(&self) -> (r: Option<usize>)
        ensures
            self.os_page_size() != NOT_PRESENT ==> r == Some(self.os_page_size()),
            self.os_page_size() == NOT_PRESENT ==> r is None,
    {
        if self.os_page_size != NOT_PRESENT {
            Some(self.os_page_size)
        } else {
            None
        }
    }

    /// The number of OS pages per allocator page if it is cached. When it is
    /// not, the caller asks the OS for the page size and records it with
    /// `setup_page_size`, which also fills this value.
    pub fn get_page_in_os_page_cnt(&self) -> (r: Option<usize>)
        ensures
            self.page_os_page_cnt() != NOT_PRESENT ==> r == Some(self.page_os_page_cnt()),
            self.page_os_page_cnt() == NOT_PRESENT ==> r is None,
    {
        if self.page_os_page_cnt != NOT_PRESENT {
            Some(self.page_os_page_cnt)
        } else {
            None
        }
    }

    /// Records the OS page size `resolved` and the number of OS pages per
    /// allocator page, and returns `resolved`.
    pub fn setup_page_size(&mut self, resolved: usize) -> (r: usize)
        requires
            resolved > 0,
        ensures
            r == resolved,
            final(self).os_page_size() == resolved,
            final(self).page_os_page_cnt() == div_ceil_spec(PAGE_SIZE, resolved),
    {
        let cnt = div_ceil(PAGE_SIZE, resolved);
        *self = PageSizeCache { os_page_size: resolved, page_os_page_cnt: cnt };
        resolved
    }
}

/// Bytes mapped for `pages` allocator pages: one page more for a single page
/// and two more otherwise, so that an aligned run fits.
pub open spec fn map_pages_len(pages: usize) -> int {
    if pages == 1 {
        2 * PAGE_SIZE
    } else {
        (pages + 2) * PAGE_SIZE
    }
}

/// The pages mapped beyond the `pages` requested.
pub open spec fn map_pages_additional(pages: usize) -> int {
    if pages == 1 {
        1
    } else {
        2
    }
}

/// The page-aligned run of `pages` pages chosen in the mapping at `raw`.
pub open spec fn map_pages_result(raw: usize, pages: usize) -> usize {
    if raw % PAGE_SIZE == 0 {
        raw
    } else {
        crate::util::aligned_region_start(raw, map_pages_len(pages) as usize, PAGE_SIZE, (pages
            * PAGE_SIZE) as usize) as usize
    }
}

/// The parts of the mapping at `raw` around the chosen run that are
/// unmapped: the part in front and the part behind, where not empty.
pub open spec fn map_pages_unmaps(raw: usize, pages: usize) -> Seq<Region> {
    if raw % PAGE_SIZE == 0 {
        Seq::empty()
    } else {
        let aligned = map_pages_result(raw, pages);
        let front = (aligned - raw) as usize;
        let back = (map_pages_additional(pages) * PAGE_SIZE - front) as usize;
        (if front != 0 {
            seq![Region { addr: raw, len: front }]
        } else {
            Seq::empty()
        }).add(
            if back != 0 {
                seq![Region { addr: (raw + front + pages * PAGE_SIZE) as usize, len: back }]
            } else {
                Seq::empty()
            },
        )
    }
}

/// Bytes to map for `pages` allocator pages.
pub fn map_pages_size(pages: usize) -> (r: usize)
    requires
        (pages + 2) * PAGE_SIZE <= usize::MAX,
    ensures
        r == map_pages_len(pages),
{
    if pages == 1 {
        2 * PAGE_SIZE
    } else {
        (pages + 2) * PAGE_SIZE
    }
}

/// After `map_pages_len(pages)` bytes were mapped at `raw`, picks a run of
/// `pages` pages aligned to the page size. A mapping that is already aligned
/// is used from its start and the pages behind the run go onto the thread's
/// free-chunk stack; otherwise the parts in front of and behind the run are
/// returned for unmapping.
#[verifier::spinoff_prover]
#[verifier::rlimit(40)]
pub fn map_pages(cache: &mut ThreadLocalCache, mem: &mut Memory, pages: usize, raw: usize) -> (r: (usize, Vec<Region>))
    requires
        map_pages_ok(*old(cache), old(mem)@, pages, raw),
    ensures
        r.0 == map_pages_result(raw, pages),
        r.1@ == map_pages_unmaps(raw, pages),
        r.0 % PAGE_SIZE == 0,
        raw <= r.0,
        r.0 + pages * PAGE_SIZE <= raw + map_pages_len(pages),
        final(cache).inv() == old(cache).inv(),
        final(cache).cache_line_words() == old(cache).cache_line_words(),
        forall|i: int| 0 <= i < local_cache::BUCKETS ==> #[trigger] final(cache).bucket(i) == old(cache).bucket(i),
        final(cache).free_chunks().nodes() == map_pages_nodes(old(cache).free_chunks().nodes(), raw, pages),
        final(mem)@ == map_pages_mem(old(mem)@, old(cache).free_chunks().nodes(), raw, pages),
        raw % PAGE_SIZE == 0 ==> final(cache).free_chunks().wf(final(mem)@),
        raw % PAGE_SIZE != 0 ==> *final(cache) == *old(cache),
{
    proof {
        lemma_word_size();
        assert(pages * PAGE_SIZE + map_pages_additional(pages) * PAGE_SIZE == map_pages_len(pages))
            by (nonlinear_arith)
            requires
                pages >= 1,
                map_pages_len(pages) == if pages == 1 {
                    2 * PAGE_SIZE
                } else {
                    (pages + 2) * PAGE_SIZE
                },
                map_pages_additional(pages) == if pages == 1 {
                    1int
                } else {
                    2int
                },
        ;
    }
    let size = map_pages_size(pages);
    let additional: usize = if pages == 1 {
        1
    } else {
        2
    };
    let mut unmaps: Vec<Region> = Vec::new();
    if raw % PAGE_SIZE == 0 {
        proof {
            assert(PAGE_SIZE % wsize() == 0);
            vstd::arithmetic::div_mod::lemma_mod_multiples_basic(pages as int, PAGE_SIZE as int);
            lemma_aligned(raw as int, (pages * PAGE_SIZE) as int);
        }
        cache.push_free_chunk(mem, raw + pages * PAGE_SIZE, additional * PAGE_SIZE);
        return (raw, unmaps);
    }
    proof {
        assert(((raw + size) as int) % (PAGE_SIZE as int) < PAGE_SIZE);
        assert(((raw + size) as int) % (PAGE_SIZE as int) + pages * PAGE_SIZE <= size);
    }
    let aligned = crate::util::align_unaligned_ptr_up_to(raw, size, PAGE_SIZE, pages * PAGE_SIZE);
    proof {
        lemma_page_run_aligned(aligned, pages);
    }
    let front = aligned - raw;
    if front != 0 {
        unmaps.push(Region { addr: raw, len: front });
    }
    let back = additional * PAGE_SIZE - front;
    if back != 0 {
        unmaps.push(Region { addr: raw + front + pages * PAGE_SIZE, len: back });
    }
    proof {
        assert(unmaps@ =~= map_pages_unmaps(raw, pages));
    }
    (aligned, unmaps)
}

/// A run of whole pages that ends on a page boundary starts on one.
proof fn lemma_page_run_aligned(a: usize, pages: usize)
    requires
        (a + pages * PAGE_SIZE) % (PAGE_SIZE as int) == 0,
    ensures
        a % PAGE_SIZE == 0,
{
    vstd::arithmetic::div_mod::lemma_mod_sub_multiples_vanish(
        (a + pages * PAGE_SIZE) as int,
        PAGE_SIZE as int,
    );
    vstd::arithmetic::div_mod::lemma_mod_multiples_vanish(
        -(pages as int),
        a as int,
        PAGE_SIZE as int,
    );
}

/// An address on a page boundary is on a word boundary.
pub proof fn lemma_page_aligned_is_word_aligned(a: usize)
    requires
        a % PAGE_SIZE == 0,
    ensures
        a % wsize() == 0,
{
    lemma_word_size();
    if wsize() == 4 {
        assert(a % 4 == 0);
    } else {
        assert(a % 8 == 0);
    }
}

/// The free-chunk stack after `map_pages` at `raw`, given its nodes before.
pub open spec fn map_pages_nodes(nodes: Seq<usize>, raw: usize, pages: usize) -> Seq<usize> {
    if raw % PAGE_SIZE == 0 {
        seq![(raw + pages * PAGE_SIZE) as usize].add(nodes)
    } else {
        nodes
    }
}

/// Memory after `map_pages` at `raw`, given memory `m` and the stack's nodes
/// before.
pub open spec fn map_pages_mem(m: Map<usize, usize>, nodes: Seq<usize>, raw: usize, pages: usize) -> Map<usize, usize> {
    if raw % PAGE_SIZE == 0 {
        let chunk = (raw + pages * PAGE_SIZE) as usize;
        m.insert(chunk, (map_pages_additional(pages) * PAGE_SIZE) as usize).insert(
            (chunk + wsize()) as usize,
            if nodes.len() > 0 {
                nodes[0]
            } else {
                0
            },
        )
    } else {
        m
    }
}

/// What `map_pages` needs for a mapping of `pages` pages at `raw`.
pub open spec fn map_pages_ok(cache: ThreadLocalCache, m: Map<usize, usize>, pages: usize, raw: usize) -> bool {
    &&& pages >= 1
    &&& (pages + 2) * PAGE_SIZE <= usize::MAX
    &&& raw + map_pages_len(pages) <= usize::MAX
    &&& raw % PAGE_SIZE == 0 ==> {
        &&& cache.free_chunks().wf(m)
        &&& forall|i: int|
            0 <= i < cache.free_chunks().nodes().len() ==> nodes_apart(
                (raw + pages * PAGE_SIZE) as usize,
                #[trigger] cache.free_chunks().nodes()[i],
            )
        &&& cache.free_chunks().nodes().len() < usize::MAX
    }
}

/// Maps a page for bucket `idx`: after `map_pages_len(1)` bytes were mapped
/// at `raw`, picks the aligned page and marks it as a bucket of index `idx`.
/// Returns the page (zero when the mapping address was zero) and the regions
/// to unmap.
pub fn alloc_bucket(cache: &mut ThreadLocalCache, mem: &mut Memory, idx: usize, raw: usize) -> (r: (usize, Vec<Region>))
    requires
        map_pages_ok(*old(cache), old(mem)@, 1, raw),
    ensures
        r.0 == map_pages_result(raw, 1),
        r.1@ == map_pages_unmaps(raw, 1),
        r.0 % PAGE_SIZE == 0,
        raw <= r.0,
        r.0 + PAGE_SIZE <= raw + 2 * PAGE_SIZE,
        final(cache).inv() == old(cache).inv(),
        final(cache).cache_line_words() == old(cache).cache_line_words(),
        forall|i: int| 0 <= i < local_cache::BUCKETS ==> #[trigger] final(cache).bucket(i) == old(cache).bucket(i),
        final(cache).free_chunks().nodes() == map_pages_nodes(old(cache).free_chunks().nodes(), raw, 1),
        raw % PAGE_SIZE != 0 ==> final(cache).free_chunks() == old(cache).free_chunks(),
        final(mem)@ == if r.0 == 0 {
            map_pages_mem(old(mem)@, old(cache).free_chunks().nodes(), raw, 1)
        } else {
            map_pages_mem(old(mem)@, old(cache).free_chunks().nodes(), raw, 1).insert(r.0, idx | BUCKET_TY_FLAG)
        },
{
    let (alloc, unmaps) = map_pages(cache, mem, 1, raw);
    if alloc == 0 {
        return (alloc, unmaps);
    }
    proof {
        lemma_page_aligned_is_word_aligned(alloc);
    }
    let mut a = AllocRef::new_start(alloc);
    a.setup_bucket(mem, idx);
    (alloc, unmaps)
}

/// Takes a free entry from the thread's list for bucket `bin_idx`. When the
/// list has none, asks for `map_pages_len(1)` bytes to be mapped and handed to
/// `alloc_free_entry_mapped`.
pub fn alloc_free_entry(cache: &mut ThreadLocalCache, mem: &Memory, bin_idx: usize) -> (r: AllocStep)
    requires
        old(cache).inv(),
        bin_idx < local_cache::BUCKETS,
        old(cache).bucket(bin_idx as int).try_alloc_ok(mem@),
    ensures
        final(cache).inv(),
        final(cache).cache_line_words() == old(cache).cache_line_words(),
        final(cache).free_chunks() == old(cache).free_chunks(),
        forall|i: int|
            0 <= i < local_cache::BUCKETS && i != bin_idx ==> #[trigger] final(cache).bucket(i) == old(cache).bucket(i),
        r == match old(cache).bucket(bin_idx as int).try_alloc_result(mem@) {
            Some(p) => AllocStep::Done(p),
            None => AllocStep::MapBytes((2 * PAGE_SIZE) as usize),
        },
        !old(cache).bucket(bin_idx as int).try_alloc_drops_head(mem@) ==> final(cache).bucket(bin_idx as int)
            == old(cache).bucket(bin_idx as int),
        old(cache).bucket(bin_idx as int).try_alloc_drops_head(mem@) ==> {
            &&& final(cache).bucket(bin_idx as int).head() == Some(
                word_at(mem@, old(cache).bucket(bin_idx as int).head().unwrap()),
            )
            &&& final(cache).bucket(bin_idx as int).tail() == old(cache).bucket(bin_idx as int).tail()
            &&& final(cache).bucket(bin_idx as int).entries_raw() == old(cache).bucket(
                bin_idx as int,
            ).entries_raw() - 1
        },
{
    match cache.try_alloc_in_bucket(mem, bin_idx) {
        Some(entry) => AllocStep::Done(entry),
        None => AllocStep::MapBytes(map_pages_size(1)),
    }
}

/// Memory after the slow path of `alloc_free_entry` for bucket `bin`, up to
/// the insertion of the new node: the mapped page `a0` marked as bucket and
/// the node laid out behind the bucket header.
pub open spec fn bucket_page_mem(m: Map<usize, usize>, a0: usize, bin: int, cl: int) -> Map<usize, usize> {
    let layout = bucket_layout_spec(bin, cl);
    created_mem(
        m.insert(a0, (bin as usize) | BUCKET_TY_FLAG),
        (a0 + 2 * wsize()) as usize,
        bucket_elem_size_spec(bin),
        layout.map_cnt,
        layout.meta_entries_used,
    )
}

/// The first node of a bucket list after inserting `node`.
pub open spec fn head_after_insert(head: Option<usize>, node: usize) -> Option<usize> {
    if head is None {
        Some(node)
    } else {
        head
    }
}

/// Memory after appending `node` to a list whose ends are `head` and `tail`.
pub open spec fn mem_after_insert(m: Map<usize, usize>, head: Option<usize>, tail: Option<usize>, node: usize) -> Map<usize, usize> {
    if head is None {
        m
    } else {
        m.insert(tail.unwrap(), node)
    }
}

/// Memory at the end of the slow path of `alloc_free_entry`, for the
/// mapping at `raw`.
pub open spec fn alloc_free_entry_mem(cache: ThreadLocalCache, m: Map<usize, usize>, bin: int, raw: usize) -> Map<usize, usize> {
    let a0 = map_pages_result(raw, 1);
    let m1 = map_pages_mem(m, cache.free_chunks().nodes(), raw, 1);
    let b = cache.bucket(bin);
    if a0 == 0 {
        m1
    } else {
        mem_after_insert(
            bucket_page_mem(m1, a0, bin, cache.cache_line_words() as int),
            b.head(),
            b.tail(),
            (a0 + 3 * wsize()) as usize,
        )
    }
}

/// The slow path of `alloc_free_entry`, after `map_pages_len(1)` bytes were
/// mapped at `raw`: makes the aligned page a bucket of index `bin_idx`, lays
/// out a bitmap node behind the bucket header, appends it to the thread's
/// list for the bucket and takes an entry from the list. Returns the entry
/// (zero when the mapping address was zero or no entry was found) and the
/// regions to unmap.
pub fn alloc_free_entry_mapped(cache: &mut ThreadLocalCache, mem: &mut Memory, bin_idx: usize, raw: usize) -> (r: (usize, Vec<Region>))
    requires
        old(cache).inv(),
        bin_idx < local_cache::BUCKETS,
        map_pages_ok(*old(cache), old(mem)@, 1, raw),
        ({
            let a0 = map_pages_result(raw, 1);
            let layout = bucket_layout_spec(bin_idx as int, old(cache).cache_line_words() as int);
            let b = old(cache).bucket(bin_idx as int);
            let node = (a0 + 3 * wsize()) as usize;
            let m_end = alloc_free_entry_mem(*old(cache), old(mem)@, bin_idx as int, raw);
            a0 != 0 ==> {
                &&& layout.meta_entries_used % 8 < 7
                &&& layout.map_cnt * wsize() >= layout.meta_entries_used / 8 + 1
                &&& a0 + 4 * wsize() + layout.map_cnt * wsize() <= usize::MAX
                &&& b.entries_raw() < usize::MAX
                &&& try_alloc_ok_at(
                    head_after_insert(b.head(), node),
                    entries_after_insert(b.head(), b.entries_raw()),
                    m_end,
                )
                &&& is_bucket_of(word_at(m_end, a0))
            }
        }),
    ensures
        ({
            let a0 = map_pages_result(raw, 1);
            let b = old(cache).bucket(bin_idx as int);
            let node = (a0 + 3 * wsize()) as usize;
            let m_end = alloc_free_entry_mem(*old(cache), old(mem)@, bin_idx as int, raw);
            let head1 = head_after_insert(b.head(), node);
            let entries1 = entries_after_insert(b.head(), b.entries_raw());
            &&& r.1@ == map_pages_unmaps(raw, 1)
            &&& final(mem)@ == m_end
            &&& final(cache).inv()
            &&& final(cache).cache_line_words() == old(cache).cache_line_words()
            &&& final(cache).free_chunks().nodes() == map_pages_nodes(old(cache).free_chunks().nodes(), raw, 1)
            &&& forall|i: int|
                0 <= i < local_cache::BUCKETS && i != bin_idx ==> #[trigger] final(cache).bucket(i) == old(cache).bucket(i)
            &&& a0 == 0 ==> r.0 == 0 && final(cache).bucket(bin_idx as int) == b
            &&& a0 != 0 ==> {
                &&& r.0 == match try_alloc_result_at(head1, m_end) {
                    Some(p) => p,
                    None => 0,
                }
                &&& final(cache).bucket(bin_idx as int).head() == if try_alloc_drops_head_at(head1, m_end) {
                    Some(word_at(m_end, head1.unwrap()))
                } else {
                    head1
                }
                &&& final(cache).bucket(bin_idx as int).tail() == Some(node)
                &&& final(cache).bucket(bin_idx as int).entries_raw() == if try_alloc_drops_head_at(
                    head1,
                    m_end,
                ) {
                    (entries1 - 1) as usize
                } else {
                    entries1
                }
            }
        }),
{
    let ghost m0 = mem@;
    let ghost c0 = *cache;
    let (alloc_0, unmaps) = alloc_bucket(cache, mem, bin_idx, raw);
    if alloc_0 == 0 {
        return (0, unmaps);
    }
    proof {
        lemma_word_size();
        lemma_page_aligned_is_word_aligned(alloc_0);
        crate::alloc_ref::lemma_bucket_setup_word(bin_idx);
    }
    let ghost m1 = mem@;
    let alloc = BucketAlloc(alloc_0).into_start();
    let cl = cache.cache_line_word_size();
    let layout = bucket_layout(bin_idx, cl);
    let es = bucket_elem_size(bin_idx);
    proof {
        lemma_aligned(alloc_0 as int, (2 * wsize()) as int);
    }
    let node = BitMapListNode::create(mem, alloc, es, layout.map_cnt, layout.meta_entries_used);
    proof {
        lemma_aligned(alloc as int, wsize() as int);
    }
    cache.insert_node_in_bucket(mem, bin_idx, node);
    let ret = match cache.try_alloc_in_bucket(mem, bin_idx) {
        Some(entry) => entry,
        None => 0,
    };
    (ret, unmaps)
}

/// A request of `size` bytes rounded past the next word boundary.
pub open spec fn chunked_payload(size: usize) -> int {
    size + wsize() - size % wsize()
}

/// Bytes mapped for a chunked allocation of `size` bytes: the payload and
/// one metadata word, rounded past the next page boundary.
pub open spec fn chunked_full_size(size: usize) -> int {
    let s = chunked_payload(size);
    s + wsize() + PAGE_SIZE - (s + wsize()) % (PAGE_SIZE as int)
}

/// Metadata word of a chunked allocation of `full` bytes.
pub open spec fn chunked_alloc_meta(full: usize) -> ChunkMeta {
    ChunkMeta::from_raw_spec(0).set_size_spec(full).set_first_spec(true).set_free_spec(false)
}

/// Metadata of the chunk holding a payload of `s` bytes, before it learns
/// whether it is the last chunk.
pub open spec fn payload_chunk_meta(s: usize) -> ChunkMeta {
    ChunkMeta::from_raw_spec(0).set_size_spec((s + 2 * wsize()) as usize).set_first_spec(true).set_free_spec(false)
}

/// Metadata of the free chunk behind a payload of `s` bytes in a mapping of
/// `full` bytes.
pub open spec fn rest_chunk_meta(full: usize, s: usize) -> ChunkMeta {
    ChunkMeta::from_raw_spec(0).set_size_spec((full - (s + 2 * wsize())) as usize).set_first_spec(
        false,
    ).set_last_spec(true).set_free_spec(true)
}

/// `m` with `meta` written at the chunk start `at` and at the last word of
/// the `meta.size_of()` bytes from there.
pub open spec fn chunk_setup_mem(m: Map<usize, usize>, at: usize, meta: ChunkMeta) -> Map<usize, usize> {
    m.insert(at, meta.raw()).insert((at + meta.size_of() - wsize()) as usize, meta.raw())
}

/// Memory after laying out a chunked allocation of `size` bytes in the
/// mapping at `alloc_ptr`.
pub open spec fn chunked_mem(m: Map<usize, usize>, size: usize, alloc_ptr: usize) -> Map<usize, usize> {
    let s = chunked_payload(size) as usize;
    let full = chunked_full_size(size) as usize;
    let m1 = m.insert(alloc_ptr, chunked_alloc_meta(full).raw());
    let cs = (alloc_ptr + wsize()) as usize;
    if full > s + 3 * wsize() {
        let m2 = chunk_setup_mem(m1, (cs + s + 2 * wsize()) as usize, rest_chunk_meta(full, s));
        chunk_setup_mem(m2, cs, payload_chunk_meta(s))
    } else {
        chunk_setup_mem(m1, cs, payload_chunk_meta(s).set_last_spec(true))
    }
}

/// The payload chunk of a chunked allocation of `size` bytes fills its
/// mapping, leaving no room for a free last chunk, whose trailing word would
/// lie at the end of the mapping, one word past its last word.
pub open spec fn chunked_fits(size: usize) -> bool {
    chunked_full_size(size) <= chunked_payload(size) + 3 * wsize()
}

/// Decides [`chunked_fits`] for a request of `size` bytes whose mapping
/// size fits a word.
pub fn chunked_fits_check(size: usize) -> (r: bool)
    requires
        chunked_full_size(size) <= usize::MAX,
    ensures
        r == chunked_fits(size),
{
    proof {
        lemma_word_size();
    }
    let w = word_size();
    let payload = round_up_to_multiple_of(size, w);
    alloc_chunked_size(size) <= payload + 3 * w
}

/// Bytes to map for a chunked allocation of `size` bytes.
pub fn alloc_chunked_size(size: usize) -> (r: usize)
    requires
        chunked_full_size(size) <= usize::MAX,
    ensures
        r == chunked_full_size(size),
{
    let w = word_size();
    let size = round_up_to_multiple_of(size, w);
    round_up_to_multiple_of(size + w, PAGE_SIZE)
}

/// Lays out a chunked allocation of `size` bytes in the
/// `chunked_full_size(size)` bytes mapped at `alloc_ptr`: the allocation's
/// metadata word, then the chunk holding the payload and, if room is left,
/// a free last chunk. Returns the payload's address, or zero when the mapping
/// address was zero.
///
/// The free last chunk's trailing word would lie one word past the mapping,
/// so a non-null mapping must leave no room for that chunk (see
/// [`chunked_fits`]).
pub fn alloc_chunked_mapped(mem: &mut Memory, size: usize, alloc_ptr: usize) -> (r: usize)
    requires
        alloc_ptr != 0 ==> chunked_fits(size),
        alloc_ptr % wsize() == 0,
        alloc_ptr + chunked_full_size(size) + 2 * wsize() <= usize::MAX,
    ensures
        alloc_ptr == 0 ==> r == 0 && final(mem)@ == old(mem)@,
        alloc_ptr != 0 ==> r == alloc_ptr + 2 * wsize() && final(mem)@ == chunked_mem(old(mem)@, size, alloc_ptr),
{
    if alloc_ptr == 0 {
        return alloc_ptr;
    }
    proof {
        lemma_word_size();
    }
    let w = word_size();
    let size = round_up_to_multiple_of(size, w);
    let full_size = round_up_to_multiple_of(size + w, PAGE_SIZE);
    let alloc = AllocRef::new_start(alloc_ptr);
    let mut c = alloc.read_chunked();
    c.setup(mem, ChunkMeta::empty().set_size(full_size).set_first(true).set_free(false));
    let chunk_start = alloc.read_chunked().into_start();
    let mut chunk = ChunkRef::new_start(chunk_start);
    let mut chunk_meta = ChunkMeta::empty().set_size(size + 2 * w).set_first(true).set_free(false);
    proof {
        lemma_aligned(alloc_ptr as int, wsize() as int);
        chunk_meta.lemma_size_multiple_of_word();
    }
    if full_size > size + w + 2 * w {
        let last_start = chunk.into_end(size + 2 * w).into_raw();
        let mut last_chunk = ChunkRef::new_start(last_start);
        let last_meta = ChunkMeta::empty().set_size(full_size - (size + w + w)).set_first(false).set_last(
            true,
        ).set_free(true);
        proof {
            lemma_aligned(chunk_start as int, (size + 2 * w) as int);
            last_meta.lemma_size_multiple_of_word();
        }
        last_chunk.setup(mem, last_meta);
    } else {
        chunk_meta = chunk_meta.set_last(true);
        proof {
            chunk_meta.lemma_size_multiple_of_word();
        }
    }
    chunk.setup(mem, chunk_meta);
    chunk.into_content_start()
}

/// The bucket for requests of `size` bytes.
pub open spec fn bin_idx_spec(size: usize) -> int {
    (choose|k: nat| is_bin(size, k)) as int
}

/// Bucket `k` is the one for requests of `size` bytes: its elements hold
/// `size` bytes and the next smaller bucket's do not.
pub open spec fn is_bin(size: usize, k: nat) -> bool {
    is_ceil_log2(size as nat, k + word_log2())
}

/// The exponent of the least power of two that is at least a value is
/// unique.
pub proof fn lemma_ceil_log2_unique(n: nat, a: nat, b: nat)
    requires
        is_ceil_log2(n, a),
        is_ceil_log2(n, b),
    ensures
        a == b,
{
    if a < b {
        if a < (b - 1) as nat {
            vstd::arithmetic::power2::lemma_pow2_strictly_increases(a, (b - 1) as nat);
        }
    } else if b < a {
        if b < (a - 1) as nat {
            vstd::arithmetic::power2::lemma_pow2_strictly_increases(b, (a - 1) as nat);
        }
    }
}

/// Bucket-sized requests are far below the largest power of two a word
/// holds.
pub proof fn lemma_small_size_bound(size: usize)
    requires
        size <= LARGEST_BUCKET,
    ensures
        size <= vstd::arithmetic::power2::pow2((usize::BITS - 1) as nat),
{
    lemma_word_size();
    vstd::arithmetic::power2::lemma2_to64();
    vstd::arithmetic::power2::lemma2_to64_rest();
    if usize::BITS == 32 {
        assert(vstd::arithmetic::power2::pow2(31) == 0x80000000);
    } else {
        assert(vstd::arithmetic::power2::pow2(63) == 0x8000000000000000);
    }
}

/// The bucket chosen for a request holds it: its elements are at least as
/// large as the request. On a machine with 8-byte words it is the smallest
/// such bucket.
pub proof fn lemma_bin_fits(size: usize, bin: nat)
    requires
        size <= LARGEST_BUCKET,
        2 * size > wsize(),
        is_bin(size, bin),
    ensures
        bin <= 12,
        wsize() == 8 ==> bin < BUCKETS,
        bin < BUCKETS ==> bucket_elem_size_spec(bin as int) >= size,
        wsize() == 8 && bin > 0 ==> bucket_elem_size_spec(bin - 1) < size,
{
    lemma_word_size();
    vstd::arithmetic::power2::lemma2_to64();
    let k = bin + word_log2();
    if k > 14 {
        vstd::arithmetic::power2::lemma_pow2_strictly_increases(14, (k - 1) as nat);
        assert(false);
    }
    assert(k <= 14);
    assert(bin <= 12);
    if k == 0 {
        assert(false);
    }
}

/// Every bucket-sized request has a bucket: the exponent of the least power
/// of two holding it is at least the word size's.
pub proof fn lemma_bin_exists(size: usize)
    requires
        size <= LARGEST_BUCKET,
        2 * size > wsize(),
    ensures
        is_bin(size, bin_idx_spec(size) as nat),
        bin_idx_spec(size) >= 0,
{
    lemma_word_size();
    vstd::arithmetic::power2::lemma2_to64();
    let k: nat = if size <= 1 {
        0
    } else if size <= 2 {
        1
    } else if size <= 4 {
        2
    } else if size <= 8 {
        3
    } else if size <= 16 {
        4
    } else if size <= 32 {
        5
    } else if size <= 64 {
        6
    } else if size <= 128 {
        7
    } else if size <= 256 {
        8
    } else if size <= 512 {
        9
    } else if size <= 1024 {
        10
    } else if size <= 2048 {
        11
    } else if size <= 4096 {
        12
    } else if size <= 8192 {
        13
    } else {
        14
    };
    assert(k >= word_log2());
    let b = (k - word_log2()) as nat;
    assert(is_ceil_log2(size as nat, k));
    assert(is_bin(size, b));
}

/// An aligned request served from a bucket gets a bucket whose elements
/// hold both the word-rounded request and the alignment; on a machine with
/// 8-byte words it is the smallest such bucket.
pub proof fn lemma_aligned_bucket_fits(size: usize, align: usize)
    requires
        aligned_is_small(size, align),
    ensures
        ({
            let bin = bin_idx_spec(aligned_class(size, align));
            &&& 0 <= bin <= 12
            &&& bucket_elem_size_spec(bin) >= chunked_payload(size)
            &&& bucket_elem_size_spec(bin) >= align
            &&& wsize() == 8 ==> bin < BUCKETS
            &&& wsize() == 8 && bin > 0 ==> bucket_elem_size_spec(bin - 1) < chunked_payload(size)
                || bucket_elem_size_spec(bin - 1) < align
        }),
{
    lemma_word_size();
    let c = aligned_class(size, align);
    assert(size % wsize() <= size) by (nonlinear_arith)
        requires
            wsize() > 0,
    ;
    assert(chunked_payload(size) >= wsize());
    assert(c >= chunked_payload(size) && c >= align);
    assert(c == chunked_payload(size) || c == align);
    lemma_bin_exists(c);
    let bin = bin_idx_spec(c);
    lemma_bin_fits(c, bin as nat);
}

/// `bin_idx` computes `bin_idx_spec`.
pub fn bin_index(size: usize) -> (r: usize)
    requires
        size <= vstd::arithmetic::power2::pow2((usize::BITS - 1) as nat),
        2 * size > wsize(),
    ensures
        r == bin_idx_spec(size),
{
    let r = bin_idx(size);
    proof {
        let k = choose|k: nat| is_bin(size, k);
        assert(is_bin(size, r as nat));
        lemma_ceil_log2_unique(size as nat, k + word_log2(), (r as nat) + word_log2());
    }
    r
}

/// What `allocate` needs: a large request's mapping size fits, and a small
/// one names a bucket the thread keeps whose list can be searched.
pub open spec fn alloc_ok(cache: ThreadLocalCache, m: Map<usize, usize>, size: usize) -> bool {
    &&& cache.inv()
    &&& size > LARGEST_BUCKET ==> chunked_full_size(size) + 2 * wsize() <= usize::MAX
    &&& size <= LARGEST_BUCKET ==> {
        &&& 2 * size > wsize()
        &&& bin_idx_spec(size) < local_cache::BUCKETS
        &&& cache.bucket(bin_idx_spec(size)).try_alloc_ok(m)
    }
}

/// What `allocate` guarantees: the cache `cache1`, memory `mem1` and result
/// `r` it leaves, given the cache `cache0` and memory `mem0` before.
pub open spec fn allocate_post(cache0: ThreadLocalCache, mem0: Map<usize, usize>, size: usize, cache1: ThreadLocalCache, mem1: Map<usize, usize>, r: AllocStep) -> bool {
    &&& (cache1.inv())
    &&& (cache1.cache_line_words() == cache0.cache_line_words())
    &&& (cache1.free_chunks() == cache0.free_chunks())
    &&& (size > LARGEST_BUCKET ==> r == AllocStep::MapBytes(chunked_full_size(size) as usize)
            && cache1 == cache0)
    &&& (size <= LARGEST_BUCKET ==> {
            let bin = bin_idx_spec(size);
            let b = cache0.bucket(bin);
            &&& r == match b.try_alloc_result(mem0) {
                Some(p) => AllocStep::Done(p),
                None => AllocStep::MapBytes((2 * PAGE_SIZE) as usize),
            }
            &&& forall|i: int|
                0 <= i < local_cache::BUCKETS && i != bin ==> #[trigger] cache1.bucket(i) == cache0.bucket(i)
            &&& !b.try_alloc_drops_head(mem0) ==> cache1.bucket(bin) == b
            &&& b.try_alloc_drops_head(mem0) ==> {
                &&& cache1.bucket(bin).head() == Some(word_at(mem0, b.head().unwrap()))
                &&& cache1.bucket(bin).tail() == b.tail()
                &&& cache1.bucket(bin).entries_raw() == b.entries_raw() - 1
            }
        })
}

/// Decides [`alloc_ok`]: whether `allocate` can be called for `size` bytes
/// with the cache `cache` and memory `mem`.
pub fn alloc_ok_check(cache: &ThreadLocalCache, mem: &Memory, size: usize) -> (r: bool)
    ensures
        r == alloc_ok(*cache, mem@, size),
{
    proof {
        lemma_word_size();
    }
    if !cache.is_valid() {
        return false;
    }
    let w = word_size();
    if size > LARGEST_BUCKET {
        if size > usize::MAX - 2 * w {
            return false;
        }
        let s = size + w - size % w;
        let t = s + w;
        let rem = PAGE_SIZE - t % PAGE_SIZE;
        if t > usize::MAX - rem {
            return false;
        }
        let full = t + rem;
        return full <= usize::MAX - 2 * w;
    }
    if 2 * size <= w {
        return false;
    }
    proof {
        lemma_small_size_bound(size);
    }
    let bin = bin_index(size);
    if bin >= local_cache::BUCKETS {
        return false;
    }
    cache.can_alloc_in_bucket(mem, bin)
}

/// Allocates `size` bytes, aligned to a word: a request above the largest
/// bucket gets its own chunked mapping, a smaller one an entry of the bucket
/// for its size.
pub fn allocate(cache: &mut ThreadLocalCache, mem: &Memory, size: usize) -> (r: AllocStep)
    requires
        alloc_ok(*old(cache), mem@, size),
    ensures
        allocate_post(*old(cache), mem@, size, *final(cache), mem@, r),

{
    if size > LARGEST_BUCKET {
        return AllocStep::MapBytes(alloc_chunked_size(size));
    }
    proof {
        lemma_small_size_bound(size);
    }
    let bin = bin_index(size);
    alloc_free_entry(cache, mem, bin)
}

/// What `allocate_mapped` needs after `allocate(size)` asked for a mapping that
/// was placed at `raw`.
pub open spec fn alloc_mapped_ok(cache: ThreadLocalCache, m: Map<usize, usize>, size: usize, raw: usize) -> bool {
    &&& cache.inv()
    &&& size > LARGEST_BUCKET ==> {
        &&& raw != 0 ==> chunked_fits(size)
        &&& raw % wsize() == 0
        &&& raw + chunked_full_size(size) + 2 * wsize() <= usize::MAX
    }
    &&& size <= LARGEST_BUCKET ==> {
        let bin = bin_idx_spec(size);
        let a0 = map_pages_result(raw, 1);
        let layout = bucket_layout_spec(bin, cache.cache_line_words() as int);
        let b = cache.bucket(bin);
        let node = (a0 + 3 * wsize()) as usize;
        let m_end = alloc_free_entry_mem(cache, m, bin, raw);
        &&& 2 * size > wsize()
        &&& bin < local_cache::BUCKETS
        &&& map_pages_ok(cache, m, 1, raw)
        &&& a0 != 0 ==> {
            &&& layout.meta_entries_used % 8 < 7
            &&& layout.map_cnt * wsize() >= layout.meta_entries_used / 8 + 1
            &&& a0 + 4 * wsize() + layout.map_cnt * wsize() <= usize::MAX
            &&& b.entries_raw() < usize::MAX
            &&& try_alloc_ok_at(
                head_after_insert(b.head(), node),
                entries_after_insert(b.head(), b.entries_raw()),
                m_end,
            )
            &&& is_bucket_of(word_at(m_end, a0))
        }
    }
}

/// What `allocate_mapped` guarantees: the cache `cache1`, memory `mem1` and result
/// `r` it leaves, given the cache `cache0` and memory `mem0` before.
pub open spec fn allocate_mapped_post(cache0: ThreadLocalCache, mem0: Map<usize, usize>, size: usize, raw: usize, cache1: ThreadLocalCache, mem1: Map<usize, usize>, r: (usize, Seq<Region>)) -> bool {
    &&& (cache1.inv())
    &&& (size > LARGEST_BUCKET ==> {
            &&& r.1 == Seq::<Region>::empty()
            &&& cache1 == cache0
            &&& raw == 0 ==> r.0 == 0 && mem1 == mem0
            &&& raw != 0 ==> r.0 == raw + 2 * wsize() && mem1 == chunked_mem(mem0, size, raw)
        })
    &&& (size <= LARGEST_BUCKET ==> {
            let bin = bin_idx_spec(size);
            let a0 = map_pages_result(raw, 1);
            let b = cache0.bucket(bin);
            let node = (a0 + 3 * wsize()) as usize;
            let m_end = alloc_free_entry_mem(cache0, mem0, bin, raw);
            let head1 = head_after_insert(b.head(), node);
            let entries1 = entries_after_insert(b.head(), b.entries_raw());
            &&& r.1 == map_pages_unmaps(raw, 1)
            &&& mem1 == m_end
            &&& cache1.cache_line_words() == cache0.cache_line_words()
            &&& cache1.free_chunks().nodes() == map_pages_nodes(cache0.free_chunks().nodes(), raw, 1)
            &&& forall|i: int|
                0 <= i < local_cache::BUCKETS && i != bin ==> #[trigger] cache1.bucket(i) == cache0.bucket(i)
            &&& a0 == 0 ==> r.0 == 0 && cache1.bucket(bin) == b
            &&& a0 != 0 ==> {
                &&& r.0 == match try_alloc_result_at(head1, m_end) {
                    Some(p) => p,
                    None => 0,
                }
                &&& cache1.bucket(bin).head() == if try_alloc_drops_head_at(head1, m_end) {
                    Some(word_at(m_end, head1.unwrap()))
                } else {
                    head1
                }
                &&& cache1.bucket(bin).tail() == Some(node)
                &&& cache1.bucket(bin).entries_raw() == if try_alloc_drops_head_at(head1, m_end) {
                    (entries1 - 1) as usize
                } else {
                    entries1
                }
            }
        })
}

/// Finishes `allocate(size)` after the requested bytes were mapped at `raw`:
/// lays out a chunked allocation, or sets up a new bucket page and takes an
/// entry from it. Returns the allocation and the regions to unmap.
pub fn allocate_mapped(cache: &mut ThreadLocalCache, mem: &mut Memory, size: usize, raw: usize) -> (r: (usize, Vec<Region>))
    requires
        alloc_mapped_ok(*old(cache), old(mem)@, size, raw),
    ensures
        allocate_mapped_post(*old(cache), old(mem)@, size, raw, *final(cache), final(mem)@, (r.0, r.1@)),

{
    if size > LARGEST_BUCKET {
        let p = alloc_chunked_mapped(mem, size, raw);
        return (p, Vec::new());
    }
    proof {
        lemma_small_size_bound(size);
    }
    let bin = bin_index(size);
    alloc_free_entry_mapped(cache, mem, bin, raw)
}

/// `x` rounded past the next multiple of `m` (a multiple moves on to the
/// next one).
pub open spec fn round_past(x: int, m: int) -> int {
    x + m - x % m
}

/// Bytes mapped by `alloc_large_alignment(align, size)` with OS pages of
/// `os_page_size` bytes: the larger of the two arguments rounded past a
/// page boundary, plus two pages and two OS pages of slack.
pub open spec fn large_full_size(align: usize, size: usize, os_page_size: usize) -> int {
    round_past(if size > align {
        size as int
    } else {
        align as int
    }, PAGE_SIZE as int) + 2 * PAGE_SIZE + 2 * os_page_size
}

/// The page-aligned run that an over-aligned allocation keeps.
pub open spec fn large_alloc_size(size: usize) -> int {
    round_past(size as int, PAGE_SIZE as int)
}

/// Bytes to map for `alloc_large_alignment(align, size)`.
pub fn alloc_large_alignment_size(align: usize, size: usize, os_page_size: usize) -> (r: usize)
    requires
        large_full_size(align, size, os_page_size) <= usize::MAX,
    ensures
        r == large_full_size(align, size, os_page_size),
{
    let base_size = if size > align {
        size
    } else {
        align
    };
    round_up_to_multiple_of(base_size, PAGE_SIZE) + 2 * PAGE_SIZE + 2 * os_page_size
}

/// Where an over-aligned allocation's page run starts in the mapping at
/// `alloc_ptr`.
pub open spec fn large_aligned(align: usize, size: usize, os_page_size: usize, alloc_ptr: usize) -> int {
    crate::util::aligned_region_start(
        alloc_ptr,
        large_full_size(align, size, os_page_size) as usize,
        PAGE_SIZE,
        large_alloc_size(size) as usize,
    )
}

/// The bytes in front of the OS page before an over-aligned allocation's
/// page run: the front region that is handed back for unmapping.
pub open spec fn large_front(align: usize, size: usize, os_page_size: usize, alloc_ptr: usize) -> int {
    large_aligned(align, size, os_page_size, alloc_ptr) - os_page_size - alloc_ptr
}

/// The front region of a mapping for an over-aligned allocation is never
/// empty: the mapping has two pages and two OS pages more than the run and
/// its rounding, and the run is placed as late as it can be.
pub proof fn lemma_large_front_nonempty(align: usize, size: usize, os_page_size: usize, alloc_ptr: usize)
    requires
        alloc_ptr + large_full_size(align, size, os_page_size) <= usize::MAX,
    ensures
        large_front(align, size, os_page_size, alloc_ptr) > 0,
{
    let base = if size > align {
        size
    } else {
        align
    };
    assert(round_past(base as int, PAGE_SIZE as int) >= round_past(size as int, PAGE_SIZE as int)) by {
        vstd::arithmetic::div_mod::lemma_fundamental_div_mod(base as int, PAGE_SIZE as int);
        vstd::arithmetic::div_mod::lemma_fundamental_div_mod(size as int, PAGE_SIZE as int);
        vstd::arithmetic::div_mod::lemma_div_is_ordered(size as int, base as int, PAGE_SIZE as int);
    }
    let full = large_full_size(align, size, os_page_size);
    assert(((alloc_ptr + (full as usize)) as int) % (PAGE_SIZE as int) < PAGE_SIZE);
}

/// The regions an over-aligned allocation unmaps: the part in front of the
/// OS page before the run, and the part behind the run.
pub open spec fn large_unmaps(align: usize, size: usize, os_page_size: usize, alloc_ptr: usize) -> Seq<Region> {
    let full = large_full_size(align, size, os_page_size);
    let alloc_size = large_alloc_size(size);
    let aligned = large_aligned(align, size, os_page_size, alloc_ptr);
    let front = aligned - os_page_size - alloc_ptr;
    let trailing = full - (alloc_size + front);
    (if front != 0 {
        seq![Region { addr: alloc_ptr, len: front as usize }]
    } else {
        Seq::empty()
    }).add(
        if trailing != 0 {
            seq![Region { addr: (aligned + alloc_size) as usize, len: trailing as usize }]
        } else {
            Seq::empty()
        },
    )
}

/// Memory after `alloc_large_alignment` laid out its metadata in the
/// mapping at `alloc_ptr`. Every chunk it sets up gets a zero size, so each
/// metadata word lands both at a chunk's start and one word before it.
pub open spec fn large_mem(m: Map<usize, usize>, align: usize, size: usize, os_page_size: usize, alloc_ptr: usize) -> Map<usize, usize> {
    let full = large_full_size(align, size, os_page_size) as usize;
    let aligned = large_aligned(align, size, os_page_size, alloc_ptr) as usize;
    let w = wsize();
    let alloc_meta = ChunkMeta::from_raw_spec(0).set_size_spec(full).set_free_spec(false).set_first_spec(
        true,
    ).set_last_spec(true);
    let m1 = m.insert((aligned - w) as usize, alloc_meta.raw());
    let m2 = m1.insert(aligned, flags_word(false, false, false)).insert(
        (aligned - w) as usize,
        flags_word(false, false, false),
    );
    let m3 = m2.insert((alloc_ptr + w) as usize, flags_word(true, false, true)).insert(
        alloc_ptr,
        flags_word(true, false, true),
    );
    let last = (aligned + size) as usize;
    m3.insert(last, flags_word(false, true, true)).insert((last - w) as usize, flags_word(false, true, true))
}

/// What `alloc_large_alignment_mapped` needs. The first chunk's words lie at
/// `alloc_ptr`, inside the front region that is handed back for unmapping, so
/// that region must be empty; by [`lemma_large_front_nonempty`] only a null
/// mapping has an empty one.
pub open spec fn large_ok(align: usize, size: usize, os_page_size: usize, alloc_ptr: usize) -> bool {
    &&& alloc_ptr != 0 ==> large_front(align, size, os_page_size, alloc_ptr) == 0
    &&& alloc_ptr % wsize() == 0
    &&& size % wsize() == 0
    &&& os_page_size % wsize() == 0
    &&& alloc_ptr + large_full_size(align, size, os_page_size) <= usize::MAX
    &&& alloc_ptr + large_full_size(align, size, os_page_size) + size <= usize::MAX
}

/// Lays out an over-aligned allocation in the
/// `large_full_size(align, size, os_page_size)` bytes mapped at `alloc_ptr`:
/// picks a page-aligned run of `large_alloc_size(size)` bytes, unmaps what
/// lies in front of the OS page before it and what lies behind it, and
/// writes the metadata of the allocation and its chunks. Returns the address
/// one word into the run (zero when the mapping address was zero) and the
/// regions to unmap.
pub fn alloc_large_alignment_mapped(mem: &mut Memory, align: usize, size: usize, os_page_size: usize, alloc_ptr: usize) -> (r: (usize, Vec<Region>))
    requires
        large_ok(align, size, os_page_size, alloc_ptr),
    ensures
        alloc_ptr == 0 ==> r.0 == 0 && r.1@ == Seq::<Region>::empty() && final(mem)@ == old(mem)@,
        alloc_ptr != 0 ==> {
            &&& r.0 == large_aligned(align, size, os_page_size, alloc_ptr) + wsize()
            &&& r.1@ == large_unmaps(align, size, os_page_size, alloc_ptr)
            &&& final(mem)@ == large_mem(old(mem)@, align, size, os_page_size, alloc_ptr)
        },
{
    let mut unmaps: Vec<Region> = Vec::new();
    if alloc_ptr == 0 {
        return (0, unmaps);
    }
    proof {
        lemma_word_size();
        flags_lemmas();
    }
    let w = word_size();
    let full_size = alloc_large_alignment_size(align, size, os_page_size);
    let alloc_size = round_up_to_multiple_of(size, PAGE_SIZE);
    let aligned = crate::util::align_unaligned_ptr_up_to(alloc_ptr, full_size, PAGE_SIZE, alloc_size);
    proof {
        let base = if size > align {
            size
        } else {
            align
        };
        assert(round_past(base as int, PAGE_SIZE as int) >= round_past(size as int, PAGE_SIZE as int))
            by {
            vstd::arithmetic::div_mod::lemma_fundamental_div_mod(base as int, PAGE_SIZE as int);
            vstd::arithmetic::div_mod::lemma_fundamental_div_mod(size as int, PAGE_SIZE as int);
            vstd::arithmetic::div_mod::lemma_div_is_ordered(size as int, base as int, PAGE_SIZE as int);
        }
        vstd::arithmetic::div_mod::lemma_mod_multiples_basic(
            (alloc_size as int) / (PAGE_SIZE as int),
            PAGE_SIZE as int,
        );
        assert(aligned % wsize() == 0) by {
            assert((aligned + alloc_size) % (PAGE_SIZE as int) == 0);
            assert(alloc_size % PAGE_SIZE == 0);
            lemma_page_aligned_is_word_aligned((aligned + alloc_size) as usize);
            lemma_page_aligned_is_word_aligned(alloc_size);
            lemma_aligned((aligned + alloc_size) as int, alloc_size as int);
        }
    }
    let front = (aligned - os_page_size) - alloc_ptr;
    let trailing = full_size - (alloc_size + front);
    if front != 0 {
        unmaps.push(Region { addr: alloc_ptr, len: front });
    }
    if trailing != 0 {
        unmaps.push(Region { addr: aligned + alloc_size, len: trailing });
    }
    let alloc = AllocRef::new_start(aligned - w);
    let mut c = alloc.read_chunked();
    proof {
        lemma_aligned(aligned as int, wsize() as int);
    }
    c.setup(
        mem,
        ChunkMeta::empty().set_size(full_size).set_free(false).set_first(true).set_last(true),
    );
    let mut chunk = ChunkRef::new_start(aligned);
    chunk.setup(mem, ChunkMeta::new(size, false, false, false));
    proof {
        lemma_aligned(alloc_ptr as int, wsize() as int);
    }
    let mut first_chunk = ChunkRef::new_start(alloc_ptr + w);
    let first_chunk_size = first_chunk.read_size(mem);
    first_chunk.setup(mem, ChunkMeta::new(first_chunk_size, true, false, true));
    let last_chunk_start = chunk.into_end(size).into_raw();
    proof {
        lemma_aligned(aligned as int, size as int);
        lemma_aligned(last_chunk_start as int, wsize() as int);
    }
    let mut last_chunk = ChunkRef::new_start(last_chunk_start);
    let last_chunk_size = last_chunk.read_size(mem);
    last_chunk.setup(mem, ChunkMeta::new(last_chunk_size, false, true, true));
    proof {
        assert(unmaps@ =~= large_unmaps(align, size, os_page_size, alloc_ptr));
    }
    (chunk.into_content_start(), unmaps)
}

/// The three flag words `alloc_large_alignment` writes, spelled out.
proof fn flags_lemmas()
    ensures
        flags_word(false, false, false) == 0,
        flags_word(true, false, true) == 5,
        flags_word(false, true, true) == 6,
{
    assert(0usize | 0usize | 0usize == 0usize) by (bit_vector);
    assert(1usize | 0usize | 4usize == 5usize) by (bit_vector);
    assert(0usize | 2usize | 4usize == 6usize) by (bit_vector);
}

/// The size class an aligned request of `size` bytes with alignment
/// `align` is served from when both are at most the largest bucket: the
/// larger of the rounded size and the alignment.
pub open spec fn aligned_class(size: usize, align: usize) -> usize {
    let s = chunked_payload(size) as usize;
    if s > align {
        s
    } else {
        align
    }
}

/// Whether an aligned request is served from a bucket.
pub open spec fn aligned_is_small(size: usize, align: usize) -> bool {
    align <= LARGEST_BUCKET && chunked_payload(size) <= LARGEST_BUCKET
}

/// What `alloc_aligned` needs.
pub open spec fn alloc_aligned_ok(cache: ThreadLocalCache, m: Map<usize, usize>, size: usize, align: usize, os_page_size: usize) -> bool {
    &&& cache.inv()
    &&& chunked_payload(size) <= usize::MAX
    &&& aligned_is_small(size, align) ==> {
        let c = aligned_class(size, align);
        &&& 2 * c > wsize()
        &&& bin_idx_spec(c) < local_cache::BUCKETS
        &&& cache.bucket(bin_idx_spec(c)).try_alloc_ok(m)
    }
    &&& !aligned_is_small(size, align) ==> large_full_size(chunked_payload(size) as usize, align, os_page_size)
        <= usize::MAX
}

/// What `alloc_aligned` guarantees: the cache `cache1`, memory `mem1` and result
/// `r` it leaves, given the cache `cache0` and memory `mem0` before.
pub open spec fn alloc_aligned_post(cache0: ThreadLocalCache, mem0: Map<usize, usize>, size: usize, align: usize, os_page_size: usize, cache1: ThreadLocalCache, mem1: Map<usize, usize>, r: AllocStep) -> bool {
    &&& (cache1.inv())
    &&& (cache1.cache_line_words() == cache0.cache_line_words())
    &&& (cache1.free_chunks() == cache0.free_chunks())
    &&& (!aligned_is_small(size, align) ==> r == AllocStep::MapBytes(
            large_full_size(chunked_payload(size) as usize, align, os_page_size) as usize,
        ) && cache1 == cache0)
    &&& (aligned_is_small(size, align) ==> {
            let bin = bin_idx_spec(aligned_class(size, align));
            let b = cache0.bucket(bin);
            &&& r == match b.try_alloc_result(mem0) {
                Some(p) => AllocStep::Done(p),
                None => AllocStep::MapBytes((2 * PAGE_SIZE) as usize),
            }
            &&& forall|i: int|
                0 <= i < local_cache::BUCKETS && i != bin ==> #[trigger] cache1.bucket(i) == cache0.bucket(i)
            &&& !b.try_alloc_drops_head(mem0) ==> cache1.bucket(bin) == b
            &&& b.try_alloc_drops_head(mem0) ==> {
                &&& cache1.bucket(bin).head() == Some(word_at(mem0, b.head().unwrap()))
                &&& cache1.bucket(bin).tail() == b.tail()
                &&& cache1.bucket(bin).entries_raw() == b.entries_raw() - 1
            }
        })
}

/// Decides [`aligned_is_small`]: whether an aligned request of `size` bytes
/// with alignment `align` is served from a bucket.
pub fn aligned_is_small_check(size: usize, align: usize) -> (r: bool)
    requires
        chunked_payload(size) <= usize::MAX,
    ensures
        r == aligned_is_small(size, align),
{
    proof {
        lemma_word_size();
    }
    let payload = round_up_to_multiple_of(size, word_size());
    align <= LARGEST_BUCKET && payload <= LARGEST_BUCKET
}

/// Decides [`alloc_aligned_ok`]: whether `alloc_aligned` can be called for
/// `size` bytes aligned to `align`, with OS pages of `os_page_size` bytes.
pub fn alloc_aligned_ok_check(cache: &ThreadLocalCache, mem: &Memory, size: usize, align: usize, os_page_size: usize) -> (r: bool)
    ensures
        r == alloc_aligned_ok(*cache, mem@, size, align, os_page_size),
{
    proof {
        lemma_word_size();
    }
    if !cache.is_valid() {
        return false;
    }
    let w = word_size();
    let payload: u128 = size as u128 + w as u128 - (size % w) as u128;
    if payload > usize::MAX as u128 {
        return false;
    }
    let s = payload as usize;
    if align <= LARGEST_BUCKET && s <= LARGEST_BUCKET {
        let c = if s > align {
            s
        } else {
            align
        };
        if 2 * c <= w {
            return false;
        }
        proof {
            lemma_small_size_bound(c);
        }
        let bin = bin_index(c);
        if bin >= local_cache::BUCKETS {
            return false;
        }
        return cache.can_alloc_in_bucket(mem, bin);
    }
    let base = if align > s {
        align
    } else {
        s
    };
    let full: u128 = base as u128 + PAGE_SIZE as u128 - (base % PAGE_SIZE) as u128 + 2 * PAGE_SIZE as u128 + 2
        * os_page_size as u128;
    full <= usize::MAX as u128
}

/// Allocates `size` bytes aligned to `align`. Small requests are served from
/// the bucket of the larger of the rounded size and the alignment; larger
/// ones ask for a mapping to be handed to `alloc_aligned_mapped`. The OS page
/// size is `os_page_size`.
pub fn alloc_aligned(cache: &mut ThreadLocalCache, mem: &Memory, size: usize, align: usize, os_page_size: usize) -> (r: AllocStep)
    requires
        alloc_aligned_ok(*old(cache), mem@, size, align, os_page_size),
    ensures
        alloc_aligned_post(*old(cache), mem@, size, align, os_page_size, *final(cache), mem@, r),

{
    proof {
        lemma_word_size();
    }
    let size = round_up_to_multiple_of(size, word_size());
    if align <= LARGEST_BUCKET && size <= LARGEST_BUCKET {
        let c = if size > align {
            size
        } else {
            align
        };
        proof {
            lemma_small_size_bound(c);
        }
        let bucket = bin_index(c);
        return alloc_free_entry(cache, mem, bucket);
    }
    AllocStep::MapBytes(alloc_large_alignment_size(size, align, os_page_size))
}

/// What `alloc_aligned_mapped` needs after `alloc_aligned` asked for a
/// mapping that was placed at `raw`.
pub open spec fn alloc_aligned_mapped_ok(cache: ThreadLocalCache, m: Map<usize, usize>, size: usize, align: usize, os_page_size: usize, raw: usize) -> bool {
    &&& cache.inv()
    &&& chunked_payload(size) <= usize::MAX
    &&& !aligned_is_small(size, align) ==> large_ok(chunked_payload(size) as usize, align, os_page_size, raw)
    &&& aligned_is_small(size, align) ==> {
        let bin = bin_idx_spec(aligned_class(size, align));
        let a0 = map_pages_result(raw, 1);
        let layout = bucket_layout_spec(bin, cache.cache_line_words() as int);
        let b = cache.bucket(bin);
        let node = (a0 + 3 * wsize()) as usize;
        let m_end = alloc_free_entry_mem(cache, m, bin, raw);
        &&& 2 * aligned_class(size, align) > wsize()
        &&& bin < local_cache::BUCKETS
        &&& map_pages_ok(cache, m, 1, raw)
        &&& a0 != 0 ==> {
            &&& layout.meta_entries_used % 8 < 7
            &&& layout.map_cnt * wsize() >= layout.meta_entries_used / 8 + 1
            &&& a0 + 4 * wsize() + layout.map_cnt * wsize() <= usize::MAX
            &&& b.entries_raw() < usize::MAX
            &&& try_alloc_ok_at(
                head_after_insert(b.head(), node),
                entries_after_insert(b.head(), b.entries_raw()),
                m_end,
            )
            &&& is_bucket_of(word_at(m_end, a0))
        }
    }
}

/// What `alloc_aligned_mapped` guarantees: the cache `cache1`, memory `mem1` and result
/// `r` it leaves, given the cache `cache0` and memory `mem0` before.
pub open spec fn alloc_aligned_mapped_post(cache0: ThreadLocalCache, mem0: Map<usize, usize>, size: usize, align: usize, os_page_size: usize, raw: usize, cache1: ThreadLocalCache, mem1: Map<usize, usize>, r: (usize, Seq<Region>)) -> bool {
    &&& (cache1.inv())
    &&& (!aligned_is_small(size, align) ==> {
            let s = chunked_payload(size) as usize;
            &&& cache1 == cache0
            &&& raw == 0 ==> r.0 == 0 && r.1 == Seq::<Region>::empty() && mem1 == mem0
            &&& raw != 0 ==> {
                &&& r.0 == large_aligned(s, align, os_page_size, raw) + wsize()
                &&& r.1 == large_unmaps(s, align, os_page_size, raw)
                &&& mem1 == large_mem(mem0, s, align, os_page_size, raw)
            }
        })
    &&& (aligned_is_small(size, align) ==> {
            let bin = bin_idx_spec(aligned_class(size, align));
            let a0 = map_pages_result(raw, 1);
            let b = cache0.bucket(bin);
            let node = (a0 + 3 * wsize()) as usize;
            let m_end = alloc_free_entry_mem(cache0, mem0, bin, raw);
            let head1 = head_after_insert(b.head(), node);
            let entries1 = entries_after_insert(b.head(), b.entries_raw());
            &&& r.1 == map_pages_unmaps(raw, 1)
            &&& mem1 == m_end
            &&& cache1.cache_line_words() == cache0.cache_line_words()
            &&& cache1.free_chunks().nodes() == map_pages_nodes(cache0.free_chunks().nodes(), raw, 1)
            &&& forall|i: int|
                0 <= i < local_cache::BUCKETS && i != bin ==> #[trigger] cache1.bucket(i) == cache0.bucket(i)
            &&& a0 == 0 ==> r.0 == 0 && cache1.bucket(bin) == b
            &&& a0 != 0 ==> {
                &&& r.0 == match try_alloc_result_at(head1, m_end) {
                    Some(p) => p,
                    None => 0,
                }
                &&& cache1.bucket(bin).head() == if try_alloc_drops_head_at(head1, m_end) {
                    Some(word_at(m_end, head1.unwrap()))
                } else {
                    head1
                }
                &&& cache1.bucket(bin).tail() == Some(node)
                &&& cache1.bucket(bin).entries_raw() == if try_alloc_drops_head_at(head1, m_end) {
                    (entries1 - 1) as usize
                } else {
                    entries1
                }
            }
        })
}

/// Finishes `alloc_aligned(size, align)` after the requested bytes were
/// mapped at `raw`: sets up a new bucket page and takes an entry from it, or
/// lays out an over-aligned allocation. Returns the allocation and the
/// regions to unmap.
pub fn alloc_aligned_mapped(cache: &mut ThreadLocalCache, mem: &mut Memory, size: usize, align: usize, os_page_size: usize, raw: usize) -> (r: (usize, Vec<Region>))
    requires
        alloc_aligned_mapped_ok(*old(cache), old(mem)@, size, align, os_page_size, raw),
    ensures
        alloc_aligned_mapped_post(*old(cache), old(mem)@, size, align, os_page_size, raw, *final(cache), final(mem)@, (r.0, r.1@)),

{
    proof {
        lemma_word_size();
    }
    let size = round_up_to_multiple_of(size, word_size());
    if align <= LARGEST_BUCKET && size <= LARGEST_BUCKET {
        let c = if size > align {
            size
        } else {
            align
        };
        proof {
            lemma_small_size_bound(c);
        }
        let bucket = bin_index(c);
        return alloc_free_entry_mapped(cache, mem, bucket, raw);
    }
    alloc_large_alignment_mapped(mem, size, align, os_page_size, raw)
}

/// The free-chunk stack and memory after `free_local` frees `size` bytes at
/// `addr`: `Some` region when the stack was full, otherwise the chunk pushed.
pub open spec fn free_local_ok(cache: ThreadLocalCache, m: Map<usize, usize>, addr: usize) -> bool {
    &&& cache.free_chunks().wf(m)
    &&& cache.free_chunks().nodes().len() < LOCAL_CACHE_ENTRIES_MAX ==> {
        &&& node_addr_ok(addr)
        &&& forall|i: int|
            0 <= i < cache.free_chunks().nodes().len() ==> nodes_apart(
                addr,
                #[trigger] cache.free_chunks().nodes()[i],
            )
    }
}

/// Memory after `free_local` at `addr` with `size`.
pub open spec fn free_local_mem(m: Map<usize, usize>, nodes: Seq<usize>, addr: usize, size: usize) -> Map<usize, usize> {
    if nodes.len() >= LOCAL_CACHE_ENTRIES_MAX {
        m
    } else {
        m.insert(addr, size).insert(
            (addr + wsize()) as usize,
            if nodes.len() > 0 {
                nodes[0]
            } else {
                0
            },
        )
    }
}

/// The free-chunk stack after `free_local` at `addr`.
pub open spec fn free_local_nodes(nodes: Seq<usize>, addr: usize) -> Seq<usize> {
    if nodes.len() >= LOCAL_CACHE_ENTRIES_MAX {
        nodes
    } else {
        seq![addr].add(nodes)
    }
}

/// The regions `free_local` at `addr` with `size` hands back.
pub open spec fn free_local_regions(nodes: Seq<usize>, addr: usize, size: usize) -> Seq<Region> {
    if nodes.len() >= LOCAL_CACHE_ENTRIES_MAX {
        seq![Region { addr, len: size }]
    } else {
        Seq::empty()
    }
}

fn free_local_vec(cache: &mut ThreadLocalCache, mem: &mut Memory, addr: usize, size: usize) -> (r: Vec<Region>)
    requires
        free_local_ok(*old(cache), old(mem)@, addr),
    ensures
        final(cache).inv() == old(cache).inv(),
        final(cache).cache_line_words() == old(cache).cache_line_words(),
        final(cache).free_chunks().wf(final(mem)@),
        forall|i: int| 0 <= i < local_cache::BUCKETS ==> #[trigger] final(cache).bucket(i) == old(cache).bucket(i),
        r@ == free_local_regions(old(cache).free_chunks().nodes(), addr, size),
        final(cache).free_chunks().nodes() == free_local_nodes(old(cache).free_chunks().nodes(), addr),
        final(mem)@ == free_local_mem(old(mem)@, old(cache).free_chunks().nodes(), addr, size),
{
    let mut v: Vec<Region> = Vec::new();
    match free_local(cache, mem, addr, size) {
        Some(region) => {
            v.push(region);
        },
        None => {},
    }
    proof {
        assert(v@ =~= free_local_regions(old(cache).free_chunks().nodes(), addr, size));
    }
    v
}

/// The word of the bitmap that `dealloc` marks for a bucket entry at `ptr`,
/// and the bit it sets there.
pub open spec fn dealloc_bit(m: Map<usize, usize>, ptr: usize, cl: int) -> (usize, nat) {
    let alloc = (ptr - ptr % PAGE_SIZE) as usize;
    let bidx = word_at(m, alloc) & 15usize;
    let layout = bucket_layout_spec(bidx as int, cl);
    let idx = (((ptr % PAGE_SIZE) - layout.meta_words) / (bucket_elem_size_spec(bidx as int) as int)) as usize;
    ((alloc + 2 * wsize() + (idx / PAGE_SIZE) * wsize()) as usize, (idx % PAGE_SIZE) as nat)
}

/// What `dealloc` needs for a pointer into a bucket page.
pub open spec fn dealloc_bucket_ok(cache: ThreadLocalCache, m: Map<usize, usize>, ptr: usize) -> bool {
    let alloc = (ptr - ptr % PAGE_SIZE) as usize;
    let bidx = word_at(m, alloc) & 15usize;
    let layout = bucket_layout_spec(bidx as int, cache.cache_line_words() as int);
    let (word, bit) = dealloc_bit(m, ptr, cache.cache_line_words() as int);
    let m1 = m.insert(word, word_at(m, word) | (1usize << bit));
    let m2 = m1.insert(alloc, word_at(m1, alloc).wrapping_add(CNT_ONE));
    let elems = word_at(m2, alloc);
    &&& cache.inv()
    &&& bidx < BUCKETS
    &&& ptr % PAGE_SIZE >= layout.meta_words
    &&& bit < usize::BITS
    &&& word + wsize() <= usize::MAX
    &&& (is_free_of(elems) && elem_cnt_of(elems) == layout.elem_cnt) ==> free_local_ok(cache, m2, alloc)
}

/// Memory after `dealloc` of a bucket entry at `ptr`: the entry's bit set,
/// the bucket's counter one step up, and the page freed locally if it became
/// free and complete.
pub open spec fn dealloc_bucket_mem(cache: ThreadLocalCache, m: Map<usize, usize>, ptr: usize) -> Map<usize, usize> {
    let alloc = (ptr - ptr % PAGE_SIZE) as usize;
    let bidx = word_at(m, alloc) & 15usize;
    let layout = bucket_layout_spec(bidx as int, cache.cache_line_words() as int);
    let (word, bit) = dealloc_bit(m, ptr, cache.cache_line_words() as int);
    let m1 = m.insert(word, word_at(m, word) | (1usize << bit));
    let m2 = m1.insert(alloc, word_at(m1, alloc).wrapping_add(CNT_ONE));
    let elems = word_at(m2, alloc);
    if is_free_of(elems) && elem_cnt_of(elems) == layout.elem_cnt {
        free_local_mem(m2, cache.free_chunks().nodes(), alloc, PAGE_SIZE)
    } else {
        m2
    }
}

/// Whether `dealloc` of a bucket entry at `ptr` frees the page.
pub open spec fn dealloc_bucket_frees_page(cache: ThreadLocalCache, m: Map<usize, usize>, ptr: usize) -> bool {
    let alloc = (ptr - ptr % PAGE_SIZE) as usize;
    let bidx = word_at(m, alloc) & 15usize;
    let layout = bucket_layout_spec(bidx as int, cache.cache_line_words() as int);
    let (word, bit) = dealloc_bit(m, ptr, cache.cache_line_words() as int);
    let m1 = m.insert(word, word_at(m, word) | (1usize << bit));
    let elems = word_at(m1, alloc).wrapping_add(CNT_ONE);
    is_free_of(elems) && elem_cnt_of(elems) == layout.elem_cnt
}

/// Frees the bucket entry at `ptr` (not on a page boundary): sets its bit
/// in the bucket's bitmap, counts one more free element, and frees the page
/// locally when the bucket is marked free and all its elements are back.
/// Returns the regions to unmap.
pub fn dealloc_bucket(cache: &mut ThreadLocalCache, mem: &mut Memory, ptr: usize) -> (r: Vec<Region>)
    requires
        ptr % PAGE_SIZE != 0,
        dealloc_bucket_ok(*old(cache), old(mem)@, ptr),
    ensures
        final(cache).inv(),
        final(cache).cache_line_words() == old(cache).cache_line_words(),
        forall|i: int| 0 <= i < local_cache::BUCKETS ==> #[trigger] final(cache).bucket(i) == old(cache).bucket(i),
        final(mem)@ == dealloc_bucket_mem(*old(cache), old(mem)@, ptr),
        dealloc_bucket_frees_page(*old(cache), old(mem)@, ptr) ==> {
            let alloc = (ptr - ptr % PAGE_SIZE) as usize;
            &&& r@ == free_local_regions(old(cache).free_chunks().nodes(), alloc, PAGE_SIZE)
            &&& final(cache).free_chunks().nodes() == free_local_nodes(old(cache).free_chunks().nodes(), alloc)
            &&& final(cache).free_chunks().wf(final(mem)@)
        },
        !dealloc_bucket_frees_page(*old(cache), old(mem)@, ptr) ==> r@ == Seq::<Region>::empty()
            && final(cache).free_chunks() == old(cache).free_chunks(),
{
    proof {
        lemma_word_size();
    }
    let ghost m0 = mem@;
    let w = word_size();
    let alloc_addr = ptr - ptr % PAGE_SIZE;
    proof {
        vstd::arithmetic::div_mod::lemma_fundamental_div_mod(ptr as int, PAGE_SIZE as int);
        vstd::arithmetic::div_mod::lemma_mod_multiples_basic(ptr as int / PAGE_SIZE as int, PAGE_SIZE as int);
        assert(alloc_addr % PAGE_SIZE == 0);
        lemma_page_aligned_is_word_aligned(alloc_addr);
    }
    let alloc = AllocRef::new_start(alloc_addr);
    let bucket = alloc.read_bucket();
    let bidx = bucket.read_bucket_idx(mem);
    let offset = ptr % PAGE_SIZE;
    let cl = cache.cache_line_word_size();
    let layout = bucket_layout(bidx, cl);
    let idx = (offset - layout.meta_words) / bucket_elem_size(bidx);
    let bucket_index = idx / PAGE_SIZE;
    let bucket_inner_idx = idx % PAGE_SIZE;
    proof {
        assert(idx <= offset);
        assert(bucket_index == 0);
        assert(bucket_index * w == 0) by (nonlinear_arith)
            requires
                bucket_index == 0,
        ;
        lemma_aligned(alloc_addr as int, (2 * wsize()) as int);
        let (wd, bit) = dealloc_bit(m0, ptr, cl as int);
        assert(bidx == word_at(m0, alloc_addr) & 15usize);
        assert(wd == alloc_addr + 2 * wsize() + (idx / PAGE_SIZE) * wsize());
        assert(alloc_addr + 2 * wsize() + wsize() <= usize::MAX);
    }
    let word = bucket.into_start() + bucket_index * w;
    let v = mem.read(word);
    mem.write(word, v | (1usize << bucket_inner_idx));
    let elems = bucket.increase_remaining_elem_cnt(mem);
    if elems.is_free() && elems.elem_cnt() == layout.elem_cnt {
        return free_local_vec(cache, mem, alloc.into_raw(), PAGE_SIZE);
    }
    Vec::new()
}

/// The metadata word of the chunk whose payload starts at `ptr`.
pub open spec fn chunk_meta_at(m: Map<usize, usize>, at: int) -> ChunkMeta {
    ChunkMeta::from_raw_spec(word_at(m, at as usize))
}

/// What `dealloc_chunked` needs for the payload at `ptr`.
pub open spec fn dealloc_chunked_ok(cache: ThreadLocalCache, m: Map<usize, usize>, ptr: usize) -> bool {
    let c = ptr - wsize();
    let meta = chunk_meta_at(m, c);
    let size = meta.size_of();
    &&& cache.inv()
    &&& ptr % wsize() == 0
    &&& ptr >= wsize()
    &&& meta.first() || meta.last()
    &&& meta.first() && meta.last() ==> free_local_ok(cache, m, c as usize)
    &&& meta.first() && !meta.last() ==> {
        let rmeta = chunk_meta_at(m, c + size);
        let overall = size + rmeta.size_of();
        &&& c + size <= usize::MAX
        &&& rmeta.free() ==> overall + PAGE_SIZE <= usize::MAX
        &&& rmeta.free() && rmeta.last() ==> free_local_ok(cache, m, c as usize)
    }
    &&& !meta.first() ==> {
        &&& c >= wsize()
        &&& chunk_meta_at(m, c - wsize()).free() ==> chunk_meta_at(m, c - wsize()).size_of() + size
            <= usize::MAX
    }
}

/// The outcome of `dealloc_chunked` for the payload at `ptr`: the cache,
/// memory and regions it leaves, given those before.
pub open spec fn dealloc_chunked_post(
    cache: ThreadLocalCache,
    m: Map<usize, usize>,
    ptr: usize,
    cache2: ThreadLocalCache,
    m2: Map<usize, usize>,
    regions: Seq<Region>,
) -> bool {
    let c = ptr - wsize();
    let meta = chunk_meta_at(m, c);
    let size = meta.size_of();
    let nodes = cache.free_chunks().nodes();
    let freed_locally = |addr: usize, len: usize|
        {
            &&& regions == free_local_regions(nodes, addr, len)
            &&& cache2.free_chunks().nodes() == free_local_nodes(nodes, addr)
            &&& cache2.free_chunks().wf(m2)
            &&& m2 == free_local_mem(m, nodes, addr, len)
        };
    let unchanged_cache = regions == Seq::<Region>::empty() && cache2 == cache;
    &&& cache2.inv()
    &&& cache2.cache_line_words() == cache.cache_line_words()
    &&& forall|i: int| 0 <= i < local_cache::BUCKETS ==> #[trigger] cache2.bucket(i) == cache.bucket(i)
    &&& meta.first() && meta.last() ==> freed_locally(c as usize, size)
    &&& meta.first() && !meta.last() ==> {
        let rmeta = chunk_meta_at(m, c + size);
        let overall = (size + rmeta.size_of()) as usize;
        if !rmeta.free() {
            unchanged_cache && m2 == m.insert(c as usize, meta.set_free_spec(true).raw())
        } else if rmeta.last() {
            freed_locally(c as usize, next_multiple_of_spec(overall as int, PAGE_SIZE as int) as usize)
        } else {
            unchanged_cache && m2 == m.insert(c as usize, meta.set_size_spec(overall).raw())
        }
    }
    &&& !meta.first() ==> {
        let lmeta = chunk_meta_at(m, c - wsize());
        let overall = (lmeta.size_of() + size) as usize;
        if !lmeta.free() {
            unchanged_cache && m2 == m.insert(c as usize, meta.set_free_spec(true).raw())
        } else {
            unchanged_cache && m2 == m.insert(
                (c - wsize()) as usize,
                lmeta.set_last_spec(true).set_size_spec(overall).raw(),
            )
        }
    }
}

/// Freeing a chunk that is both the first and the last chunk of its
/// allocation releases it: either the thread's free-chunk stack gains it in
/// front, with the chunk's size in its first word, or it is handed back for
/// unmapping with that size and the stack stays as it was.
pub proof fn lemma_lone_chunk_released(
    cache: ThreadLocalCache,
    m: Map<usize, usize>,
    ptr: usize,
    cache2: ThreadLocalCache,
    m2: Map<usize, usize>,
    regions: Seq<Region>,
)
    requires
        ptr >= wsize(),
        chunk_meta_at(m, ptr - wsize()).first(),
        chunk_meta_at(m, ptr - wsize()).last(),
        dealloc_chunked_post(cache, m, ptr, cache2, m2, regions),
    ensures
        ({
            let c = (ptr - wsize()) as usize;
            let size = chunk_meta_at(m, ptr - wsize()).size_of();
            let before = cache.free_chunks().nodes();
            let after = cache2.free_chunks().nodes();
            ||| {
                &&& after.len() > 0
                &&& after[0] == c
                &&& after.drop_first() == before
                &&& word_at(m2, c) == size
                &&& regions.len() == 0
            }
            ||| {
                &&& regions == seq![Region { addr: c, len: size }]
                &&& after == before
            }
        }),
{
    lemma_word_size();
    let c = (ptr - wsize()) as usize;
    let before = cache.free_chunks().nodes();
    if before.len() < LOCAL_CACHE_ENTRIES_MAX {
        assert(seq![c].add(before).drop_first() =~= before);
        assert(((c + wsize()) as usize) != c);
    }
}

/// Merges or frees the chunk whose payload starts at `ptr`, which must be
/// the first or the last chunk of its allocation:
/// - a chunk that is both is freed locally with its size;
/// - a first chunk whose right neighbour is in use is marked free; if the
///   neighbour is free and the last chunk, both are freed locally, rounded
///   to whole pages; otherwise the first chunk takes over the neighbour's
///   size;
/// - a last chunk whose left neighbour is in use is marked free; otherwise
///   the neighbour becomes the last chunk and takes over both sizes.
/// Returns the regions to unmap.
pub fn dealloc_chunked(cache: &mut ThreadLocalCache, mem: &mut Memory, ptr: usize) -> (r: Vec<Region>)
    requires
        dealloc_chunked_ok(*old(cache), old(mem)@, ptr),
    ensures
        dealloc_chunked_post(*old(cache), old(mem)@, ptr, *final(cache), final(mem)@, r@),
{
    proof {
        lemma_word_size();
        lemma_aligned(ptr as int, wsize() as int);
    }
    let w = word_size();
    let mut chunk = ChunkRef::new_start(ptr - w);
    let chunk_size = chunk.read_size(mem);
    if chunk.is_first(mem) {
        if chunk.is_last(mem) {
            return free_local_vec(cache, mem, chunk.into_raw(), chunk.read_size(mem));
        }
        let right_chunk = ChunkRef::new_start(chunk.into_end(chunk_size).into_raw());
        proof {
            ChunkMeta::from_raw_spec(word_at(mem@, (ptr - w) as usize)).lemma_size_multiple_of_word();
            lemma_aligned((ptr - w) as int, chunk_size as int);
        }
        if !right_chunk.is_free(mem) {
            chunk.set_free(mem, true);
            return Vec::new();
        }
        let overall_size = chunk_size + right_chunk.read_size(mem);
        if right_chunk.is_last(mem) {
            return free_local_vec(cache, mem, chunk.into_raw(), next_multiple_of(overall_size, PAGE_SIZE));
        }
        chunk.update_size(mem, overall_size);
        return Vec::new();
    }
    let mut left_chunk = ChunkRef::new_end(ptr - w);
    if !left_chunk.is_free(mem) {
        chunk.set_free(mem, true);
        return Vec::new();
    }
    let overall_size = left_chunk.read_size(mem) + chunk_size;
    let ghost m0 = mem@;
    left_chunk.set_last(mem, true);
    left_chunk.update_size(mem, overall_size);
    proof {
        let lmeta = chunk_meta_at(m0, ptr - 2 * wsize());
        assert(mem@ =~= m0.insert(
            (ptr - 2 * wsize()) as usize,
            lmeta.set_last_spec(true).set_size_spec(overall_size).raw(),
        ));
    }
    let r: Vec<Region> = Vec::new();
    assert(r@ =~= Seq::<Region>::empty());
    r
}

/// Frees a page-aligned allocation: its chunk's payload starts one word
/// before `ptr`.
pub fn dealloc_large(cache: &mut ThreadLocalCache, mem: &mut Memory, ptr: usize) -> (r: Vec<Region>)
    requires
        ptr >= wsize(),
        dealloc_chunked_ok(*old(cache), old(mem)@, (ptr - wsize()) as usize),
    ensures
        dealloc_chunked_post(*old(cache), old(mem)@, (ptr - wsize()) as usize, *final(cache), final(mem)@, r@),
{
    let ptr = ptr - word_size();
    dealloc_chunked(cache, mem, ptr)
}

/// What `dealloc` needs for `ptr`.
pub open spec fn dealloc_ok(cache: ThreadLocalCache, m: Map<usize, usize>, ptr: usize) -> bool {
    &&& ptr % PAGE_SIZE == 0 ==> ptr >= wsize() && dealloc_chunked_ok(cache, m, (ptr - wsize()) as usize)
    &&& ptr % PAGE_SIZE != 0 ==> dealloc_bucket_ok(cache, m, ptr)
}

/// Frees the allocation at `ptr`: a page-aligned pointer is a large
/// allocation, any other an entry of a bucket. Returns the regions to unmap.
pub fn dealloc(cache: &mut ThreadLocalCache, mem: &mut Memory, ptr: usize) -> (r: Vec<Region>)
    requires
        dealloc_ok(*old(cache), old(mem)@, ptr),
    ensures
        ptr % PAGE_SIZE == 0 ==> dealloc_chunked_post(
            *old(cache),
            old(mem)@,
            (ptr - wsize()) as usize,
            *final(cache),
            final(mem)@,
            r@,
        ),
        ptr % PAGE_SIZE != 0 ==> {
            &&& final(cache).inv()
            &&& final(cache).cache_line_words() == old(cache).cache_line_words()
            &&& forall|i: int|
                0 <= i < local_cache::BUCKETS ==> #[trigger] final(cache).bucket(i) == old(cache).bucket(i)
            &&& final(mem)@ == dealloc_bucket_mem(*old(cache), old(mem)@, ptr)
            &&& dealloc_bucket_frees_page(*old(cache), old(mem)@, ptr) ==> {
                let alloc = (ptr - ptr % PAGE_SIZE) as usize;
                &&& r@ == free_local_regions(old(cache).free_chunks().nodes(), alloc, PAGE_SIZE)
                &&& final(cache).free_chunks().nodes() == free_local_nodes(
                    old(cache).free_chunks().nodes(),
                    alloc,
                )
                &&& final(cache).free_chunks().wf(final(mem)@)
            }
            &&& !dealloc_bucket_frees_page(*old(cache), old(mem)@, ptr) ==> r@ == Seq::<Region>::empty()
                && final(cache).free_chunks() == old(cache).free_chunks()
        },
{
    if ptr % PAGE_SIZE == 0 {
        return dealloc_large(cache, mem, ptr);
    }
    dealloc_bucket(cache, mem, ptr)
}

/// The regions `cleanup_tls` unmaps for the free chunks `nodes`: each chunk
/// with the size in its first word.
pub open spec fn cleanup_regions(m: Map<usize, usize>, nodes: Seq<usize>) -> Seq<Region> {
    nodes.map_values(|a: usize| Region { addr: a, len: chunk_meta_at(m, a as int).size_of() })
}

/// Returns every chunk of the thread's free-chunk stack for unmapping, each
/// with the size recorded in its first word. The stack itself only loses its
/// first node; the rest are unmapped from under it.
pub fn cleanup_tls(cache: &mut ThreadLocalCache, mem: &Memory) -> (r: Vec<Region>)
    requires
        old(cache).free_chunks().wf(mem@),
    ensures
        r@ == cleanup_regions(mem@, old(cache).free_chunks().nodes()),
        final(cache).free_chunks().nodes() == if old(cache).free_chunks().nodes().len() > 0 {
            old(cache).free_chunks().nodes().drop_first()
        } else {
            old(cache).free_chunks().nodes()
        },
        final(cache).inv() == old(cache).inv(),
        final(cache).cache_line_words() == old(cache).cache_line_words(),
        forall|i: int| 0 <= i < local_cache::BUCKETS ==> #[trigger] final(cache).bucket(i) == old(cache).bucket(i),
{
    proof {
        lemma_word_size();
    }
    let ghost nodes = cache.free_chunks().nodes();
    let mut regions: Vec<Region> = Vec::new();
    let mut chunk_ref: usize = match cache.pop_free_chunk(mem) {
        Some(f) => f.0,
        None => 0,
    };
    let ghost mut k: nat = 0;
    while chunk_ref != 0
        invariant
            k <= nodes.len(),
            chunk_ref == if k < nodes.len() {
                nodes[k as int]
            } else {
                0
            },
            crate::linked_list::nodes_ok(nodes),
            crate::linked_list::links_in(mem@, nodes),
            regions@ == cleanup_regions(mem@, nodes.take(k as int)),
        decreases nodes.len() - k,
    {
        proof {
            lemma_aligned(chunk_ref as int, wsize() as int);
        }
        let alloc = AllocRef::new_start(chunk_ref);
        let size = alloc.read_free().read_size(mem);
        let mut f = alloc.read_free();
        let next = f.read_next(mem);
        regions.push(free_global(alloc.into_raw(), size));
        proof {
            assert(nodes.take((k + 1) as int) =~= nodes.take(k as int).push(nodes[k as int]));
            assert(regions@ =~= cleanup_regions(mem@, nodes.take((k + 1) as int)));
            k = k + 1;
        }
        chunk_ref = next;
    }
    proof {
        assert(k == nodes.len());
        assert(nodes.take(k as int) =~= nodes);
    }
    regions
}

/// What moving an allocation to a new size asks of the OS.
#[derive(Clone, Copy, Debug, PartialEq, Eq, Structural)]
pub struct RemapRequest {
    pub ptr: usize,
    pub old_size: usize,
    pub new_size: usize,
}

/// Resizes the mapping at `ptr` from `old_size` to `new_size` bytes: the
/// request to hand to the OS. The alignment is not used.
pub fn realloc(ptr: usize, old_size: usize, new_size: usize, new_align: usize) -> (r: RemapRequest)
    ensures
        r == (RemapRequest { ptr, old_size, new_size }),
{
    RemapRequest { ptr, old_size, new_size }
}

} // verus!
