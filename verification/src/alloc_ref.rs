//! The word at the start of every allocation: it tells a bucket allocation
//! (a page of equally sized elements) from a chunked allocation, and holds the
//! bucket's index, free flag and element counter or the chunk's metadata.
use vstd::prelude::*;
use crate::memory::{Memory, wsize, word_size, lemma_word_size, word_at};
use crate::chunk_ref::ChunkRef;
use crate::chunk_ref::meta::ChunkMeta;
use crate::util::align_unaligned_ptr_up_to;

verus! {

/// The top bit: set in the word of a bucket allocation.
pub const BUCKET_TY_FLAG: usize = 1usize << (usize::BITS - 1);

/// The low four bits of a bucket word hold the bucket's index.
pub const BUCKET_IDX_MASK: usize = 15;

/// The bit below the top one: set when the bucket is free.
pub const BUCKET_FREE_FLAG: usize = BUCKET_TY_FLAG >> 1;

/// The bits of a bucket word that count elements.
pub const REMAINING_ELEM_CNT_MASK: usize = !(BUCKET_IDX_MASK | BUCKET_FREE_FLAG | BUCKET_TY_FLAG);

/// Element counts below this fit their field.
pub const ELEM_CNT_LIMIT: usize = 1usize << (usize::BITS - 6);

/// Position of the element counter in a bucket word.
pub const ELEM_CNT_SHIFT: usize = 4;

/// One step of the element counter.
pub const CNT_ONE: usize = 16;

/// The element count stored in a bucket word.
pub open spec fn elem_cnt_of(raw: usize) -> usize {
    (raw & REMAINING_ELEM_CNT_MASK) >> 4usize
}

/// Whether a bucket word has its free flag set.
pub open spec fn is_free_of(raw: usize) -> bool {
    raw & BUCKET_FREE_FLAG != 0
}

/// Whether a word belongs to a bucket allocation.
pub open spec fn is_bucket_of(raw: usize) -> bool {
    raw & BUCKET_TY_FLAG != 0
}

/// The word with its element counter replaced by `cnt`.
pub open spec fn with_elem_cnt(raw: usize, cnt: usize) -> usize {
    (cnt << 4usize) | (raw & !REMAINING_ELEM_CNT_MASK)
}

/// Size of the metadata word in front of a chunked allocation.
pub fn chunk_alloc_metadata_size_one_side() -> (r: usize)
    ensures
        r == wsize(),
{
    word_size()
}

/// Size of the metadata of a bucket allocation: two words.
pub fn bucket_metadata_size() -> (r: usize)
    ensures
        r == 2 * wsize(),
{
    word_size() * 2
}

/// A bucket allocation, referred to by the address of its first word.
#[derive(Clone, Copy)]
pub struct BucketAlloc(pub usize);

impl BucketAlloc {
    /// The bucket word's address is a word boundary.
    pub open spec fn valid(self) -> bool {
        self.0 % wsize() == 0
    }

    /// The address of the allocation.
    pub fn into_raw(self) -> (r: usize)
        ensures
            r == self.0,
    {
        self.0
    }

    /// The bucket's index: the low four bits of the word.
    pub fn read_bucket_idx(self, mem: &Memory) -> (r: usize)
        requires
            self.valid(),
        ensures
            r == mem.word(self.0) & BUCKET_IDX_MASK,
            r < 16,
    {
        let raw = self.read_raw(mem);
        assert(raw & 15usize < 16) by (bit_vector);
        raw & BUCKET_IDX_MASK
    }

    /// The element counter of the word.
    pub fn read_remaining_elem_cnt(self, mem: &Memory) -> (r: usize)
        requires
            self.valid(),
        ensures
            r == elem_cnt_of(mem.word(self.0)),
    {
        (self.read_raw(mem) & REMAINING_ELEM_CNT_MASK) >> ELEM_CNT_SHIFT
    }

    /// Replaces the element counter, keeping index and flags.
    pub fn update_remaining_elem_cnt(self, mem: &mut Memory, elem_cnt: usize)
        requires
            self.valid(),
        ensures
            final(mem)@ == old(mem)@.insert(self.0, with_elem_cnt(old(mem).word(self.0), elem_cnt)),
    {
        let raw = self.read_raw(mem);
        self.write_raw(mem, (elem_cnt << ELEM_CNT_SHIFT) | (raw & !REMAINING_ELEM_CNT_MASK))
    }

    /// Adds one step to the element counter (wrapping like the atomic add it
    /// stands for) and returns the new word.
    pub fn increase_remaining_elem_cnt(&self, mem: &mut Memory) -> (r: ElementsInfo)
        requires
            self.valid(),
        ensures
            r.0 == old(mem).word(self.0).wrapping_add(CNT_ONE),
            final(mem)@ == old(mem)@.insert(self.0, r.0),
    {
        let raw = self.read_raw(mem);
        let new_raw = raw.wrapping_add(CNT_ONE);
        self.write_raw(mem, new_raw);
        ElementsInfo(new_raw)
    }

    /// Takes one step off the element counter (wrapping like the atomic
    /// subtraction it stands for) and returns the new word. The argument is
    /// not used.
    pub fn decrement_remaining_elem_cnt(&self, mem: &mut Memory, elements: usize) -> (r: ElementsInfo)
        requires
            self.valid(),
        ensures
            r.0 == old(mem).word(self.0).wrapping_sub(CNT_ONE),
            final(mem)@ == old(mem)@.insert(self.0, r.0),
    {
        let raw = self.read_raw(mem);
        let new_raw = raw.wrapping_sub(CNT_ONE);
        self.write_raw(mem, new_raw);
        ElementsInfo(new_raw)
    }

    /// The word, as elements information.
    pub fn read_raw_atomic(&self, mem: &Memory) -> (r: ElementsInfo)
        requires
            self.valid(),
        ensures
            r.0 == mem.word(self.0),
    {
        ElementsInfo(self.read_raw(mem))
    }

    /// Marks the allocation as bucket number `bucket_idx`, with a zero counter.
    pub fn setup(self, mem: &mut Memory, bucket_idx: usize)
        requires
            self.valid(),
        ensures
            final(mem)@ == old(mem)@.insert(self.0, bucket_idx | BUCKET_TY_FLAG),
    {
        self.write_raw(mem, bucket_idx | BUCKET_TY_FLAG);
    }

    fn write_raw(self, mem: &mut Memory, val: usize)
        requires
            self.valid(),
        ensures
            final(mem)@ == old(mem)@.insert(self.0, val),
    {
        mem.write(self.0, val);
    }

    fn read_raw(self, mem: &Memory) -> (r: usize)
        requires
            self.valid(),
        ensures
            r == mem.word(self.0),
    {
        mem.read(self.0)
    }

    /// The first byte after the bucket metadata.
    pub fn into_start(self) -> (r: usize)
        requires
            self.0 + 2 * wsize() <= usize::MAX,
        ensures
            r == self.0 + 2 * wsize(),
    {
        self.0 + bucket_metadata_size()
    }
}

/// A copy of a bucket word, read or produced by an update.
pub struct ElementsInfo(pub usize);

impl ElementsInfo {
    /// The element counter.
    pub fn elem_cnt(&self) -> (r: usize)
        ensures
            r == elem_cnt_of(self.0),
    {
        (self.0 & REMAINING_ELEM_CNT_MASK) >> ELEM_CNT_SHIFT
    }

    /// Whether the free flag is set.
    pub fn is_free(&self) -> (r: bool)
        ensures
            r == is_free_of(self.0),
    {
        self.0 & BUCKET_FREE_FLAG != 0
    }
}

/// A chunked allocation, referred to by the address of its metadata word.
pub struct ChunkedAlloc(pub usize);

impl ChunkedAlloc {
    /// The metadata word's address is a word boundary.
    pub open spec fn valid(self) -> bool {
        self.0 % wsize() == 0
    }

    /// Writes `meta` to the leading metadata word only.
    pub fn setup(&mut self, mem: &mut Memory, meta: ChunkMeta)
        requires
            old(self).valid(),
        ensures
            *final(self) == *old(self),
            final(mem)@ == old(mem)@.insert(old(self).0, meta.raw()),
    {
        ChunkRef::<true>(self.0).setup_own(mem, meta);
    }

    /// Writes `meta` to the leading and the trailing metadata word.
    pub fn setup_double_sided(&mut self, mem: &mut Memory, meta: ChunkMeta)
        requires
            old(self).valid(),
            old(self).0 + meta.size_of() <= usize::MAX,
            old(self).0 + meta.size_of() >= wsize(),
        ensures
            *final(self) == *old(self),
            final(mem)@ == old(mem)@.insert(old(self).0, meta.raw()).insert(
                (old(self).0 + meta.size_of() - wsize()) as usize,
                meta.raw(),
            ),
    {
        ChunkRef::<true>(self.0).setup(mem, meta);
    }

    /// The size in bytes stored in the metadata word.
    pub fn read_size(&self, mem: &Memory) -> (r: usize)
        requires
            self.valid(),
        ensures
            r == ChunkMeta::from_raw_spec(mem.word(self.0)).size_of(),
    {
        ChunkRef::<true>(self.0).read_size(mem)
    }

    /// Replaces the size in the leading metadata word.
    pub fn update_size(&mut self, mem: &mut Memory, size: usize)
        requires
            old(self).valid(),
        ensures
            *final(self) == *old(self),
            final(mem)@ == old(mem)@.insert(
                old(self).0,
                ChunkMeta::from_raw_spec(old(mem).word(old(self).0)).set_size_spec(size).raw(),
            ),
    {
        ChunkRef::<true>(self.0).update_size(mem, size);
    }

    /// Replaces the size in the leading word and copies the resulting word
    /// to the last word of the `size` bytes that start here.
    pub fn update_size_double_sided(&mut self, mem: &mut Memory, size: usize)
        requires
            old(self).valid(),
            old(self).0 + size <= usize::MAX,
            old(self).0 + size >= wsize(),
            size % wsize() == 0,
        ensures
            *final(self) == *old(self),
            final(mem)@ == old(mem)@.insert(
                old(self).0,
                ChunkMeta::from_raw_spec(old(mem).word(old(self).0)).set_size_spec(size).raw(),
            ).insert(
                (old(self).0 + size - wsize()) as usize,
                ChunkMeta::from_raw_spec(old(mem).word(old(self).0)).set_size_spec(size).raw(),
            ),
    {
        let meta = ChunkRef::<true>(self.0).read_meta(mem).set_size(size);
        ChunkRef::<true>(self.0).update_size(mem, size);
        let mut end = ChunkRef::<true>(self.0).into_end(size);
        proof {
            crate::memory::lemma_aligned(self.0 as int, size as int);
            crate::memory::lemma_aligned(self.0 + size, wsize() as int);
        }
        end.setup_own(mem, meta);
    }

    /// The first byte after the metadata word.
    pub fn into_start(self) -> (r: usize)
        requires
            self.0 + wsize() <= usize::MAX,
        ensures
            r == self.0 + wsize(),
    {
        self.0 + chunk_alloc_metadata_size_one_side()
    }
}

/// A free allocation: a chunk metadata word followed by the address of the
/// next free allocation.
pub struct FreeAlloc(pub usize);

impl FreeAlloc {
    /// The metadata word's address is a word boundary and the next word is
    /// addressable.
    pub open spec fn valid(self) -> bool {
        &&& self.0 % wsize() == 0
        &&& self.0 + wsize() <= usize::MAX
    }

    /// Records the size of the free allocation.
    pub fn setup(&mut self, mem: &mut Memory, size: usize)
        requires
            old(self).valid(),
        ensures
            *final(self) == *old(self),
            final(mem)@ == old(mem)@.insert(
                old(self).0,
                ChunkMeta::from_raw_spec(old(mem).word(old(self).0)).set_size_spec(size).raw(),
            ),
    {
        self.update_size(mem, size);
    }

    /// The size in bytes stored in the metadata word.
    pub fn read_size(&self, mem: &Memory) -> (r: usize)
        requires
            self.valid(),
        ensures
            r == ChunkMeta::from_raw_spec(mem.word(self.0)).size_of(),
    {
        ChunkRef::<true>(self.0).read_size(mem)
    }

    /// Replaces the size in the metadata word, keeping its flags.
    pub fn update_size(&mut self, mem: &mut Memory, size: usize)
        requires
            old(self).valid(),
        ensures
            *final(self) == *old(self),
            final(mem)@ == old(mem)@.insert(
                old(self).0,
                ChunkMeta::from_raw_spec(old(mem).word(old(self).0)).set_size_spec(size).raw(),
            ),
    {
        ChunkRef::<true>(self.0).update_size(mem, size);
    }

    /// The address of the next free allocation.
    pub fn read_next(&mut self, mem: &Memory) -> (r: usize)
        requires
            old(self).valid(),
        ensures
            *final(self) == *old(self),
            r == mem.word((old(self).0 + wsize()) as usize),
    {
        proof {
            lemma_word_size();
            crate::memory::lemma_aligned(self.0 as int, wsize() as int);
        }
        let content = ChunkRef::<true>(self.0).into_content_start();
        mem.read(content)
    }

    /// Records the address of the next free allocation.
    pub fn write_next(&mut self, mem: &mut Memory, next: usize)
        requires
            old(self).valid(),
        ensures
            *final(self) == *old(self),
            final(mem)@ == old(mem)@.insert((old(self).0 + wsize()) as usize, next),
    {
        proof {
            lemma_word_size();
            crate::memory::lemma_aligned(self.0 as int, wsize() as int);
        }
        let content = ChunkRef::<true>(self.0).into_content_start();
        mem.write(content, next);
    }

    fn read_meta_raw(&self, mem: &Memory) -> (r: usize)
        requires
            self.valid(),
        ensures
            r == mem.word(self.0),
    {
        mem.read(self.0)
    }

    fn write_meta_raw(&mut self, mem: &mut Memory, size: usize)
        requires
            old(self).valid(),
        ensures
            *final(self) == *old(self),
            final(mem)@ == old(mem)@.insert(old(self).0, size),
    {
        mem.write(self.0, size);
    }
}

/// The metadata word of a chunked allocation that is a single chunk.
pub open spec fn single_chunk_meta(size: usize, free: bool) -> ChunkMeta {
    ChunkMeta::from_raw_spec(0).set_first_spec(true).set_last_spec(true).set_free_spec(
        free,
    ).set_size_spec(size)
}

/// Any allocation, referred to by the address of its first word.
#[derive(Clone, Copy)]
pub struct AllocRef(pub usize);

impl AllocRef {
    /// The first word's address is a word boundary.
    pub open spec fn valid(self) -> bool {
        self.0 % wsize() == 0
    }

    /// The address of the allocation.
    pub fn into_raw(self) -> (r: usize)
        ensures
            r == self.0,
    {
        self.0
    }

    /// The allocation that starts at `alloc_start`.
    pub fn new_start(alloc_start: usize) -> (r: Self)
        ensures
            r.0 == alloc_start,
    {
        AllocRef(alloc_start)
    }

    /// Marks the allocation as bucket number `bucket_idx`.
    pub fn setup_bucket(&mut self, mem: &mut Memory, bucket_idx: usize)
        requires
            old(self).valid(),
        ensures
            *final(self) == *old(self),
            final(mem)@ == old(mem)@.insert(old(self).0, bucket_idx | BUCKET_TY_FLAG),
    {
        BucketAlloc(self.0).setup(mem, bucket_idx);
    }

    /// Marks the allocation as one chunk of `size` bytes, free or in use.
    pub fn setup_chunked(&mut self, mem: &mut Memory, size: usize, free: bool)
        requires
            old(self).valid(),
        ensures
            *final(self) == *old(self),
            final(mem)@ == old(mem)@.insert(old(self).0, single_chunk_meta(size, free).raw()),
    {
        let mut c = ChunkedAlloc(self.0);
        c.setup(
            mem,
            ChunkMeta::empty().set_first(true).set_last(true).set_free(free).set_size(size),
        );
    }

    /// The allocation seen as a bucket.
    pub fn read_bucket(self) -> (r: BucketAlloc)
        ensures
            r.0 == self.0,
    {
        BucketAlloc(self.0)
    }

    /// The allocation seen as chunked.
    pub fn read_chunked(self) -> (r: ChunkedAlloc)
        ensures
            r.0 == self.0,
    {
        ChunkedAlloc(self.0)
    }

    /// The allocation seen as free.
    pub fn read_free(self) -> (r: FreeAlloc)
        ensures
            r.0 == self.0,
    {
        FreeAlloc(self.0)
    }

    fn read_raw(self, mem: &Memory) -> (r: usize)
        requires
            self.valid(),
        ensures
            r == mem.word(self.0),
    {
        mem.read(self.0)
    }

    /// Whether the allocation is a bucket: the top bit of its first word.
    pub fn is_bucket(&self, mem: &Memory) -> (r: bool)
        requires
            self.valid(),
        ensures
            r == is_bucket_of(mem.word(self.0)),
    {
        self.read_raw(mem) & BUCKET_TY_FLAG != 0
    }
}

/// Metadata of the free chunk left over in front of an over-aligned region.
pub open spec fn leading_free_meta(size: usize) -> ChunkMeta {
    ChunkMeta::from_raw_spec(0).set_first_spec(true).set_free_spec(true).set_size_spec(size)
}

/// Metadata of the free chunk left over behind an over-aligned region.
pub open spec fn trailing_free_meta(size: usize) -> ChunkMeta {
    ChunkMeta::from_raw_spec(0).set_last_spec(true).set_free_spec(true).set_size_spec(size)
}

/// Splits the `size` bytes mapped at `base` around the `req_size` bytes that
/// end at the last multiple of `align`: the part in front (if any) becomes a
/// free first chunk, the part starting `req_size` bytes after `base` (if it is
/// not the aligned start) becomes a free last chunk, and the aligned region
/// is returned in the middle.
pub fn from_base_overaligned(mem: &mut Memory, base: usize, size: usize, align: usize, req_size: usize) -> (r: (
    Option<ChunkedAlloc>,
    ChunkedAlloc,
    Option<ChunkedAlloc>,
))
    requires
        align > 0,
        base + size <= usize::MAX,
        ((base + size) as int) % (align as int) + req_size <= size,
        base % wsize() == 0,
        req_size % wsize() == 0,
        base + req_size != crate::util::aligned_region_start(base, size, align, req_size) ==> base
            + req_size >= crate::util::aligned_region_start(base, size, align, req_size),
    ensures
        ({
            let aligned = crate::util::aligned_region_start(base, size, align, req_size) as usize;
            let right = (base + req_size) as usize;
            let m1 = if base == aligned {
                old(mem)@
            } else {
                old(mem)@.insert(base, leading_free_meta((aligned - base) as usize).raw())
            };
            &&& r.1.0 == aligned
            &&& r.0 == if base == aligned {
                None
            } else {
                Some(ChunkedAlloc(base))
            }
            &&& r.2 == if right == aligned {
                None
            } else {
                Some(ChunkedAlloc(right))
            }
            &&& final(mem)@ == if right == aligned {
                m1
            } else {
                m1.insert(right, trailing_free_meta((right - aligned) as usize).raw())
            }
        }),
{
    let aligned = align_unaligned_ptr_up_to(base, size, align, req_size);
    let left = base;
    let right = base + req_size;
    proof {
        crate::memory::lemma_aligned(base as int, req_size as int);
    }
    let left = if left == aligned {
        None
    } else {
        let mut left = ChunkedAlloc(left);
        left.setup(
            mem,
            ChunkMeta::empty().set_first(true).set_free(true).set_size(aligned - left.0),
        );
        Some(left)
    };
    let right = if right == aligned {
        None
    } else {
        let mut right = ChunkedAlloc(right);
        right.setup(
            mem,
            ChunkMeta::empty().set_last(true).set_free(true).set_size(right.0 - aligned),
        );
        Some(right)
    };
    (left, ChunkedAlloc(aligned), right)
}

/// A bucket word made by `setup` names the bucket, is marked as a bucket, is
/// not free and counts no element.
pub proof fn lemma_bucket_setup_word(bucket_idx: usize)
    requires
        bucket_idx < 16,
    ensures
        (bucket_idx | BUCKET_TY_FLAG) & BUCKET_IDX_MASK == bucket_idx,
        is_bucket_of(bucket_idx | BUCKET_TY_FLAG),
        !is_free_of(bucket_idx | BUCKET_TY_FLAG),
        elem_cnt_of(bucket_idx | BUCKET_TY_FLAG) == 0,
{
    assert(bucket_idx < 16 ==> (bucket_idx | BUCKET_TY_FLAG) & 15usize == bucket_idx && (bucket_idx
        | BUCKET_TY_FLAG) & BUCKET_TY_FLAG != 0 && (bucket_idx | BUCKET_TY_FLAG) & BUCKET_FREE_FLAG
        == 0 && ((bucket_idx | BUCKET_TY_FLAG) & REMAINING_ELEM_CNT_MASK) >> 4usize == 0)
        by (bit_vector);
}

/// Writing an element count that fits its field reads back the same count
/// and keeps the index, the free flag and the bucket flag.
pub proof fn lemma_elem_cnt_roundtrip(raw: usize, cnt: usize)
    requires
        cnt < ELEM_CNT_LIMIT,
    ensures
        elem_cnt_of(with_elem_cnt(raw, cnt)) == cnt,
        with_elem_cnt(raw, cnt) & BUCKET_IDX_MASK == raw & BUCKET_IDX_MASK,
        is_free_of(with_elem_cnt(raw, cnt)) == is_free_of(raw),
        is_bucket_of(with_elem_cnt(raw, cnt)) == is_bucket_of(raw),
{
    let w = (cnt << 4usize) | (raw & !REMAINING_ELEM_CNT_MASK);
    assert(cnt < ELEM_CNT_LIMIT && w == (cnt << 4usize) | (raw & !REMAINING_ELEM_CNT_MASK) ==> (w
        & REMAINING_ELEM_CNT_MASK) >> 4usize == cnt && w & 15usize == raw & 15usize && (w
        & BUCKET_FREE_FLAG != 0) == (raw & BUCKET_FREE_FLAG != 0) && (w & BUCKET_TY_FLAG != 0) == (
    raw & BUCKET_TY_FLAG != 0)) by (bit_vector);
}

/// Adding one step to a counter that is below its maximum counts one
/// element more and keeps the index and both flags.
pub proof fn lemma_increase_elem_cnt(raw: usize)
    requires
        elem_cnt_of(raw) + 1 < ELEM_CNT_LIMIT,
    ensures
        elem_cnt_of(raw.wrapping_add(CNT_ONE)) == elem_cnt_of(raw) + 1,
        raw.wrapping_add(CNT_ONE) & BUCKET_IDX_MASK == raw & BUCKET_IDX_MASK,
        is_free_of(raw.wrapping_add(CNT_ONE)) == is_free_of(raw),
        is_bucket_of(raw.wrapping_add(CNT_ONE)) == is_bucket_of(raw),
{
    assert(((raw & REMAINING_ELEM_CNT_MASK) >> 4usize) + 1 < ELEM_CNT_LIMIT ==> (raw + 16) as usize == raw + 16
        && (((raw + 16) as usize & REMAINING_ELEM_CNT_MASK) >> 4usize) == ((raw
        & REMAINING_ELEM_CNT_MASK) >> 4usize) + 1 && (raw + 16) as usize & 15usize == raw & 15usize
        && (((raw + 16) as usize & BUCKET_FREE_FLAG) != 0) == ((raw & BUCKET_FREE_FLAG) != 0) && (((
    raw + 16) as usize & BUCKET_TY_FLAG) != 0) == ((raw & BUCKET_TY_FLAG) != 0)) by (bit_vector);
    assert(raw.wrapping_add(CNT_ONE) == (raw + 16) as usize);
}

} // verus!
