//! The word at the start of a page: either the size of the allocation that
//! starts there, or the distance back to the page that holds a chunked
//! allocation's central part.
use vstd::prelude::*;
use crate::memory::{Memory, wsize, word_size};
use crate::util::round_down_to_multiple_of;

verus! {

/// The top bit: set in the word of a chunk page.
pub const CHUNK_ALLOC_FLAG: usize = 1usize << (usize::BITS - 1);

/// The flag bits of a page word.
pub const FLAGS_MASK: usize = CHUNK_ALLOC_FLAG;

/// The data bits of a page word.
pub const DATA_MASK: usize = !FLAGS_MASK;

/// What a page word describes.
#[derive(Clone, Copy)]
pub enum PageKind {
    /// A page in front of a chunked allocation.
    ChunkPage {
        /// The offset in bytes back to the page that holds the central
        /// allocation.
        alloc_offset: usize,
    },
    /// The first page of an allocation.
    AllocPage {
        /// The size of the allocation that starts at this page.
        size: usize,
    },
}

/// The word that encodes `kind`.
pub open spec fn page_kind_raw(kind: PageKind) -> usize {
    match kind {
        PageKind::ChunkPage { alloc_offset } => alloc_offset | CHUNK_ALLOC_FLAG,
        PageKind::AllocPage { size } => size,
    }
}

/// The kind that the word `raw` encodes.
pub open spec fn page_kind_of(raw: usize) -> PageKind {
    if raw & CHUNK_ALLOC_FLAG != 0 {
        PageKind::ChunkPage { alloc_offset: raw & DATA_MASK }
    } else {
        PageKind::AllocPage { size: raw }
    }
}

impl PageKind {
    /// The offset of a chunk page.
    pub fn offset(&self) -> (r: usize)
        requires
            self is ChunkPage,
        ensures
            r == self->alloc_offset,
    {
        match self {
            PageKind::ChunkPage { alloc_offset } => *alloc_offset,
            PageKind::AllocPage { .. } => 0,
        }
    }

    /// The size recorded on an allocation page.
    pub fn size(&self) -> (r: usize)
        requires
            self is AllocPage,
        ensures
            r == self->size,
    {
        match self {
            PageKind::ChunkPage { .. } => 0,
            PageKind::AllocPage { size } => *size,
        }
    }

    /// The word that encodes this kind.
    pub fn into_raw(self) -> (r: usize)
        ensures
            r == page_kind_raw(self),
    {
        match self {
            PageKind::ChunkPage { alloc_offset } => alloc_offset | CHUNK_ALLOC_FLAG,
            PageKind::AllocPage { size } => size,
        }
    }
}

/// A reference to a page, by the address of its first word.
#[derive(Clone, Copy, Debug)]
pub struct PageRef(pub usize);

impl PageRef {
    /// The page that contains `ptr`, for pages of `page_size` bytes.
    pub fn from_unaligned_ptr(ptr: usize, page_size: usize) -> (r: Self)
        requires
            page_size > 0,
        ensures
            r.0 == ptr - ptr % page_size,
    {
        PageRef(round_down_to_multiple_of(ptr, page_size))
    }

    /// The page that starts at `ptr`.
    pub fn from_page_ptr(ptr: usize) -> (r: Self)
        ensures
            r.0 == ptr,
    {
        PageRef(ptr)
    }

    /// Writes the word that encodes `kind`.
    pub fn setup(&mut self, mem: &mut Memory, kind: PageKind)
        requires
            old(self).0 % wsize() == 0,
        ensures
            *final(self) == *old(self),
            final(mem)@ == old(mem)@.insert(old(self).0, page_kind_raw(kind)),
    {
        let raw = match kind {
            PageKind::ChunkPage { alloc_offset } => alloc_offset | CHUNK_ALLOC_FLAG,
            PageKind::AllocPage { size } => size,
        };
        mem.write(self.0, raw);
    }

    /// The kind encoded in the page's word.
    pub fn kind(&self, mem: &Memory) -> (r: PageKind)
        requires
            self.0 % wsize() == 0,
        ensures
            r == page_kind_of(mem.word(self.0)),
    {
        let raw = mem.read(self.0);
        if raw & CHUNK_ALLOC_FLAG != 0 {
            PageKind::ChunkPage { alloc_offset: raw & DATA_MASK }
        } else {
            PageKind::AllocPage { size: raw }
        }
    }

    /// The first byte after the page's word.
    pub fn into_content_start(self) -> (r: usize)
        requires
            self.0 + wsize() <= usize::MAX,
        ensures
            r == self.0 + wsize(),
    {
        self.0 + word_size()
    }
}

/// A page word decodes to the kind it was made from, as long as the offset
/// or size leaves the top bit clear.
pub proof fn lemma_page_kind_roundtrip(kind: PageKind)
    requires
        match kind {
            PageKind::ChunkPage { alloc_offset } => alloc_offset & CHUNK_ALLOC_FLAG == 0,
            PageKind::AllocPage { size } => size & CHUNK_ALLOC_FLAG == 0,
        },
    ensures
        page_kind_of(page_kind_raw(kind)) == kind,
{
    match kind {
        PageKind::ChunkPage { alloc_offset } => {
            assert(alloc_offset & CHUNK_ALLOC_FLAG == 0 ==> (alloc_offset | CHUNK_ALLOC_FLAG)
                & CHUNK_ALLOC_FLAG != 0 && (alloc_offset | CHUNK_ALLOC_FLAG) & !CHUNK_ALLOC_FLAG
                == alloc_offset) by (bit_vector);
        },
        PageKind::AllocPage { size } => {},
    }
}

} // verus!
