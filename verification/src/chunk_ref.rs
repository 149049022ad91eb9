//! Chunks: regions of an allocation that carry their metadata word at both
//! ends, so that a neighbour can be reached from either side.
use vstd::prelude::*;
use crate::memory::{Memory, wsize, word_size, lemma_word_size};
use self::meta::ChunkMeta;

pub mod meta;

verus! {

/// A reference to a chunk. With `START` it holds the address of the chunk's
/// first byte, whose word is the leading metadata word; without it, the
/// address just past the chunk, whose preceding word is the trailing metadata
/// word.
#[derive(Clone, Copy)]
pub struct ChunkRef<const START: bool>(pub usize);

impl<const START: bool> ChunkRef<START> {
    /// Address of the metadata word this reference reads and writes.
    pub open spec fn meta_addr(self) -> int {
        if START {
            self.0 as int
        } else {
            self.0 - wsize()
        }
    }

    /// The metadata word is addressable: it lies at or above zero and on a
    /// word boundary.
    pub open spec fn valid(self) -> bool {
        &&& 0 <= self.meta_addr()
        &&& self.meta_addr() % (wsize() as int) == 0
    }

    /// The metadata word in `m`.
    pub open spec fn meta_in(self, m: Map<usize, usize>) -> ChunkMeta {
        ChunkMeta::from_raw_spec(crate::memory::word_at(m, self.meta_addr() as usize))
    }

    /// The referenced address.
    pub fn into_raw(self) -> (r: usize)
        ensures
            r == self.0,
    {
        self.0
    }

    fn read_meta_raw(&self, mem: &Memory) -> (r: usize)
        requires
            self.valid(),
        ensures
            r == mem.word(self.meta_addr() as usize),
    {
        let w = word_size();
        if START {
            mem.read(self.0)
        } else {
            mem.read(self.0 - w)
        }
    }

    fn write_meta_raw(&mut self, mem: &mut Memory, raw: usize)
        requires
            old(self).valid(),
        ensures
            *final(self) == *old(self),
            final(mem)@ == old(mem)@.insert(old(self).meta_addr() as usize, raw),
    {
        let w = word_size();
        if START {
            mem.write(self.0, raw);
        } else {
            mem.write(self.0 - w, raw);
        }
    }

    /// Writes `meta` to this side's metadata word only.
    pub fn setup_own(&mut self, mem: &mut Memory, meta: ChunkMeta)
        requires
            old(self).valid(),
        ensures
            *final(self) == *old(self),
            final(mem)@ == old(mem)@.insert(old(self).meta_addr() as usize, meta.raw()),
    {
        self.write_meta_raw(mem, meta.into_raw());
    }

    /// The metadata word.
    pub fn read_meta(&self, mem: &Memory) -> (r: ChunkMeta)
        requires
            self.valid(),
        ensures
            r == self.meta_in(mem@),
    {
        ChunkMeta::from_raw(self.read_meta_raw(mem))
    }

    /// The chunk size stored in the metadata word.
    pub fn read_size(&self, mem: &Memory) -> (r: usize)
        requires
            self.valid(),
        ensures
            r == self.meta_in(mem@).size_of(),
    {
        ChunkMeta::from_raw(self.read_meta_raw(mem)).size()
    }

    /// Replaces the size in this side's metadata word, keeping its flags.
    pub fn update_size(&mut self, mem: &mut Memory, size: usize)
        requires
            old(self).valid(),
        ensures
            *final(self) == *old(self),
            final(mem)@ == old(mem)@.insert(
                old(self).meta_addr() as usize,
                old(self).meta_in(old(mem)@).set_size_spec(size).raw(),
            ),
    {
        let metadata = ChunkMeta::from_raw(self.read_meta_raw(mem)).set_size(size);
        self.write_meta_raw(mem, metadata.into_raw());
    }

    /// Sets or clears the first-chunk flag in this side's metadata word.
    pub fn set_first(&mut self, mem: &mut Memory, first: bool)
        requires
            old(self).valid(),
        ensures
            *final(self) == *old(self),
            final(mem)@ == old(mem)@.insert(
                old(self).meta_addr() as usize,
                old(self).meta_in(old(mem)@).set_first_spec(first).raw(),
            ),
    {
        let metadata = ChunkMeta::from_raw(self.read_meta_raw(mem)).set_first(first);
        self.write_meta_raw(mem, metadata.into_raw());
    }

    /// Whether the first-chunk flag is set.
    pub fn is_first(&self, mem: &Memory) -> (r: bool)
        requires
            self.valid(),
        ensures
            r == self.meta_in(mem@).first(),
    {
        ChunkMeta::from_raw(self.read_meta_raw(mem)).is_first()
    }

    /// Sets or clears the last-chunk flag in this side's metadata word.
    pub fn set_last(&mut self, mem: &mut Memory, last: bool)
        requires
            old(self).valid(),
        ensures
            *final(self) == *old(self),
            final(mem)@ == old(mem)@.insert(
                old(self).meta_addr() as usize,
                old(self).meta_in(old(mem)@).set_last_spec(last).raw(),
            ),
    {
        let metadata = ChunkMeta::from_raw(self.read_meta_raw(mem)).set_last(last);
        self.write_meta_raw(mem, metadata.into_raw());
    }

    /// Whether the last-chunk flag is set.
    pub fn is_last(&self, mem: &Memory) -> (r: bool)
        requires
            self.valid(),
        ensures
            r == self.meta_in(mem@).last(),
    {
        ChunkMeta::from_raw(self.read_meta_raw(mem)).is_last()
    }

    /// Sets or clears the free flag in this side's metadata word.
    pub fn set_free(&mut self, mem: &mut Memory, free: bool)
        requires
            old(self).valid(),
        ensures
            *final(self) == *old(self),
            final(mem)@ == old(mem)@.insert(
                old(self).meta_addr() as usize,
                old(self).meta_in(old(mem)@).set_free_spec(free).raw(),
            ),
    {
        let metadata = ChunkMeta::from_raw(self.read_meta_raw(mem)).set_free(free);
        self.write_meta_raw(mem, metadata.into_raw());
    }

    /// Whether the free flag is set.
    pub fn is_free(&self, mem: &Memory) -> (r: bool)
        requires
            self.valid(),
        ensures
            r == self.meta_in(mem@).free(),
    {
        ChunkMeta::from_raw(self.read_meta_raw(mem)).is_free()
    }
}

impl ChunkRef<true> {
    /// A reference to the chunk that starts at `chunk_start`.
    pub fn new_start(chunk_start: usize) -> (r: Self)
        ensures
            r.0 == chunk_start,
    {
        ChunkRef(chunk_start)
    }

    /// Writes `meta` to the leading word and to the trailing word, which is
    /// the last word of the `meta.size()` bytes that start here.
    pub fn setup(&mut self, mem: &mut Memory, meta: ChunkMeta)
        requires
            old(self).valid(),
            old(self).0 + meta.size_of() <= usize::MAX,
            old(self).0 + meta.size_of() >= wsize(),
        ensures
            *final(self) == *old(self),
            final(mem)@ == old(mem)@.insert(old(self).0, meta.raw()).insert(
                (old(self).0 + meta.size_of() - wsize()) as usize,
                meta.raw(),
            ),
    {
        proof {
            lemma_word_size();
            meta.lemma_size_multiple_of_word();
        }
        self.setup_own(mem, meta);
        let mut end = self.into_end(meta.size());
        proof {
            let a = self.0 as int;
            let sz = meta.size_of() as int;
            if wsize() == 4 {
                assert((a + sz - 4) % 4 == 0);
            } else {
                assert((a + sz - 8) % 8 == 0);
            }
        }
        end.setup_own(mem, meta);
    }

    /// A reference to the end of the chunk of `size` bytes that starts here.
    pub fn into_end(self, size: usize) -> (r: ChunkRef<false>)
        requires
            self.0 + size <= usize::MAX,
        ensures
            r.0 == self.0 + size,
    {
        ChunkRef(self.0 + size)
    }

    /// The first byte after the leading metadata word.
    pub fn into_content_start(self) -> (r: usize)
        requires
            self.0 + wsize() <= usize::MAX,
        ensures
            r == self.0 + wsize(),
    {
        self.0 + word_size()
    }
}

impl ChunkRef<false> {
    /// A reference to the chunk that ends at `alloc_end`.
    pub fn new_end(alloc_end: usize) -> (r: Self)
        ensures
            r.0 == alloc_end,
    {
        ChunkRef(alloc_end)
    }

    /// Writes `meta` to the trailing word and to the leading word, which is
    /// the first word of the `meta.size()` bytes that end here.
    pub fn setup(&mut self, mem: &mut Memory, meta: ChunkMeta)
        requires
            old(self).valid(),
            old(self).0 >= meta.size_of(),
        ensures
            *final(self) == *old(self),
            final(mem)@ == old(mem)@.insert((old(self).0 - wsize()) as usize, meta.raw()).insert(
                (old(self).0 - meta.size_of()) as usize,
                meta.raw(),
            ),
    {
        proof {
            lemma_word_size();
            meta.lemma_size_multiple_of_word();
        }
        self.setup_own(mem, meta);
        let mut start = self.into_start(meta.size());
        proof {
            let a = self.0 as int;
            let sz = meta.size_of() as int;
            if wsize() == 4 {
                assert((a - 4) % 4 == 0);
                assert(a % 4 == 0);
                assert(sz % 4 == 0);
                assert((a - sz) % 4 == 0);
            } else {
                assert((a - 8) % 8 == 0);
                assert(a % 8 == 0);
                assert(sz % 8 == 0);
                assert((a - sz) % 8 == 0);
            }
        }
        start.setup_own(mem, meta);
    }

    /// A reference to the start of the chunk of `size` bytes that ends here.
    pub fn into_start(self, size: usize) -> (r: ChunkRef<true>)
        requires
            self.0 >= size,
        ensures
            r.0 == self.0 - size,
    {
        ChunkRef(self.0 - size)
    }
}

} // verus!
