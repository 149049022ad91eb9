//! The metadata word of a chunk: its size in the high bits and three flags in
//! the low bits.
use vstd::prelude::*;

verus! {

/// Set on the first chunk of an allocation.
pub const FIRST_CHUNK_FLAG: usize = 1;

/// Set on the last chunk of an allocation.
pub const LAST_CHUNK_FLAG: usize = 2;

/// Set on a chunk that is free.
pub const FREE_CHUNK_FLAG: usize = 4;

/// The bits that hold flags.
pub const METADATA_MASK: usize = 7;

/// The bits that hold the size.
pub const SIZE_MASK: usize = !7usize;

/// The word that holds exactly the given flags.
pub open spec fn flags_word(first: bool, last: bool, free: bool) -> usize {
    ((if first { 1usize } else { 0usize }) | (if last { 2usize } else { 0usize }) | (if free {
        4usize
    } else {
        0usize
    }))
}

/// A chunk's metadata word.
#[derive(Clone, Copy, Debug, Default)]
pub struct ChunkMeta(pub usize);

impl ChunkMeta {
    /// The raw word.
    pub open spec fn raw(self) -> usize {
        self.0
    }

    /// The metadata word `raw`.
    pub open spec fn from_raw_spec(raw: usize) -> ChunkMeta {
        ChunkMeta(raw)
    }

    /// `self` with the first-chunk flag set to `first`.
    pub open spec fn set_first_spec(self, first: bool) -> ChunkMeta {
        ChunkMeta(
            if first {
                self.0 | FIRST_CHUNK_FLAG
            } else {
                self.0 & !FIRST_CHUNK_FLAG
            },
        )
    }

    /// `self` with the last-chunk flag set to `last`.
    pub open spec fn set_last_spec(self, last: bool) -> ChunkMeta {
        ChunkMeta(
            if last {
                self.0 | LAST_CHUNK_FLAG
            } else {
                self.0 & !LAST_CHUNK_FLAG
            },
        )
    }

    /// `self` with the free flag set to `free`.
    pub open spec fn set_free_spec(self, free: bool) -> ChunkMeta {
        ChunkMeta(
            if free {
                self.0 | FREE_CHUNK_FLAG
            } else {
                self.0 & !FREE_CHUNK_FLAG
            },
        )
    }

    /// `self` with its size bits replaced: the flags of `self` or-ed with `size`.
    pub open spec fn set_size_spec(self, size: usize) -> ChunkMeta {
        ChunkMeta((self.0 & METADATA_MASK) | size)
    }

    /// The size bits form a multiple of eight, hence of the word size.
    pub proof fn lemma_size_multiple_of_word(self)
        ensures
            self.size_of() % 8 == 0,
            self.size_of() % crate::memory::wsize() == 0,
    {
        let raw = self.0;
        assert((raw & !7usize) % 8 == 0) by (bit_vector);
        crate::memory::lemma_word_size();
    }

    /// The size stored in the word.
    pub open spec fn size_of(self) -> usize {
        self.raw() & SIZE_MASK
    }

    /// Whether the first-chunk flag is set.
    pub open spec fn first(self) -> bool {
        self.raw() & FIRST_CHUNK_FLAG != 0
    }

    /// Whether the last-chunk flag is set.
    pub open spec fn last(self) -> bool {
        self.raw() & LAST_CHUNK_FLAG != 0
    }

    /// Whether the free flag is set.
    pub open spec fn free(self) -> bool {
        self.raw() & FREE_CHUNK_FLAG != 0
    }

    /// A word with the given flags. The size argument is not stored: the
    /// size bits of the result are zero.
    pub fn new(size: usize, first: bool, last: bool, free: bool) -> (r: Self)
        ensures
            r.raw() == flags_word(first, last, free),
            r.size_of() == 0,
            r.first() == first,
            r.last() == last,
            r.free() == free,
    {
        let a: usize = if first {
            FIRST_CHUNK_FLAG
        } else {
            0
        };
        let b: usize = if last {
            LAST_CHUNK_FLAG
        } else {
            0
        };
        let c: usize = if free {
            FREE_CHUNK_FLAG
        } else {
            0
        };
        proof {
            lemma_flags_word(first, last, free);
        }
        ChunkMeta(a | b | c)
    }

    /// The all-zero word: size zero, no flag set.
    pub fn empty() -> (r: Self)
        ensures
            r.raw() == 0,
            r.size_of() == 0,
            !r.first(),
            !r.last(),
            !r.free(),
    {
        assert(0usize & !7usize == 0 && 0usize & 1usize == 0 && 0usize & 2usize == 0 && 0usize
            & 4usize == 0) by (bit_vector);
        ChunkMeta(0)
    }

    /// Interprets `raw` as a metadata word.
    pub fn from_raw(raw: usize) -> (r: Self)
        ensures
            r == Self::from_raw_spec(raw),
    {
        ChunkMeta(raw)
    }

    /// Whether the first-chunk flag is set.
    pub fn is_first(self) -> (r: bool)
        ensures
            r == self.first(),
    {
        self.0 & FIRST_CHUNK_FLAG != 0
    }

    /// Whether the last-chunk flag is set.
    pub fn is_last(self) -> (r: bool)
        ensures
            r == self.last(),
    {
        self.0 & LAST_CHUNK_FLAG != 0
    }

    /// Whether the free flag is set.
    pub fn is_free(self) -> (r: bool)
        ensures
            r == self.free(),
    {
        self.0 & FREE_CHUNK_FLAG != 0
    }

    /// The size stored in the word.
    pub fn size(self) -> (r: usize)
        ensures
            r == self.size_of(),
    {
        self.0 & SIZE_MASK
    }

    /// Sets or clears the first-chunk flag, leaving every other bit as it is.
    pub fn set_first(self, first: bool) -> (r: Self)
        ensures
            r == self.set_first_spec(first),
            r.first() == first,
            r.last() == self.last(),
            r.free() == self.free(),
            r.size_of() == self.size_of(),
    {
        let mut s = self;
        if first {
            s.0 = s.0 | FIRST_CHUNK_FLAG;
        } else {
            s.0 = s.0 & !FIRST_CHUNK_FLAG;
        }
        let raw = self.0;
        assert((raw | 1usize) & 1usize != 0 && (raw | 1usize) & 2usize == raw & 2usize && (raw
            | 1usize) & 4usize == raw & 4usize && (raw | 1usize) & !7usize == raw & !7usize)
            by (bit_vector);
        assert((raw & !1usize) & 1usize == 0 && (raw & !1usize) & 2usize == raw & 2usize && (raw
            & !1usize) & 4usize == raw & 4usize && (raw & !1usize) & !7usize == raw & !7usize)
            by (bit_vector);
        s
    }

    /// Sets or clears the last-chunk flag, leaving every other bit as it is.
    pub fn set_last(self, last: bool) -> (r: Self)
        ensures
            r == self.set_last_spec(last),
            r.first() == self.first(),
            r.last() == last,
            r.free() == self.free(),
            r.size_of() == self.size_of(),
    {
        let mut s = self;
        if last {
            s.0 = s.0 | LAST_CHUNK_FLAG;
        } else {
            s.0 = s.0 & !LAST_CHUNK_FLAG;
        }
        let raw = self.0;
        assert((raw | 2usize) & 1usize == raw & 1usize && (raw | 2usize) & 2usize != 0 && (raw
            | 2usize) & 4usize == raw & 4usize && (raw | 2usize) & !7usize == raw & !7usize)
            by (bit_vector);
        assert((raw & !2usize) & 1usize == raw & 1usize && (raw & !2usize) & 2usize == 0 && (raw
            & !2usize) & 4usize == raw & 4usize && (raw & !2usize) & !7usize == raw & !7usize)
            by (bit_vector);
        s
    }

    /// Sets or clears the free flag, leaving every other bit as it is.
    pub fn set_free(self, free: bool) -> (r: Self)
        ensures
            r == self.set_free_spec(free),
            r.first() == self.first(),
            r.last() == self.last(),
            r.free() == free,
            r.size_of() == self.size_of(),
    {
        let mut s = self;
        if free {
            s.0 = s.0 | FREE_CHUNK_FLAG;
        } else {
            s.0 = s.0 & !FREE_CHUNK_FLAG;
        }
        let raw = self.0;
        assert((raw | 4usize) & 1usize == raw & 1usize && (raw | 4usize) & 2usize == raw & 2usize
            && (raw | 4usize) & 4usize != 0 && (raw | 4usize) & !7usize == raw & !7usize)
            by (bit_vector);
        assert((raw & !4usize) & 1usize == raw & 1usize && (raw & !4usize) & 2usize == raw
            & 2usize && (raw & !4usize) & 4usize == 0 && (raw & !4usize) & !7usize == raw
            & !7usize) by (bit_vector);
        s
    }

    /// Replaces the size: the result keeps the three flag bits of `self` and
    /// ors `size` in. A size that is a multiple of eight therefore reads back
    /// unchanged and leaves the flags alone.
    pub fn set_size(self, size: usize) -> (r: Self)
        ensures
            r == self.set_size_spec(size),
            r.size_of() == size & SIZE_MASK,
            r.size_of() <= size,
            size & METADATA_MASK == 0 ==> {
                &&& r.size_of() == size
                &&& r.first() == self.first()
                &&& r.last() == self.last()
                &&& r.free() == self.free()
            },
    {
        let mut s = self;
        s.0 = (s.0 & METADATA_MASK) | size;
        let raw = self.0;
        assert(((raw & 7usize) | size) & !7usize == size & !7usize && size & !7usize <= size)
            by (bit_vector);
        assert(size & 7usize == 0 ==> ((raw & 7usize) | size) & !7usize == size && ((raw & 7usize)
            | size) & 1usize == raw & 1usize && ((raw & 7usize) | size) & 2usize == raw & 2usize
            && ((raw & 7usize) | size) & 4usize == raw & 4usize) by (bit_vector);
        s
    }

    /// The raw word.
    pub fn into_raw(self) -> (r: usize)
        ensures
            r == self.raw(),
    {
        self.0
    }
}

/// The flag word has the flags it names and a zero size.
pub proof fn lemma_flags_word(first: bool, last: bool, free: bool)
    ensures
        flags_word(first, last, free) & SIZE_MASK == 0,
        (flags_word(first, last, free) & FIRST_CHUNK_FLAG != 0) == first,
        (flags_word(first, last, free) & LAST_CHUNK_FLAG != 0) == last,
        (flags_word(first, last, free) & FREE_CHUNK_FLAG != 0) == free,
{
    let a: usize = if first { 1usize } else { 0usize };
    let b: usize = if last { 2usize } else { 0usize };
    let c: usize = if free { 4usize } else { 0usize };
    assert((a == 0 || a == 1) && (b == 0 || b == 2) && (c == 0 || c == 4) ==> (a | b | c)
        & !7usize == 0 && ((a | b | c) & 1usize != 0) == (a == 1) && ((a | b | c) & 2usize != 0)
        == (b == 2) && ((a | b | c) & 4usize != 0) == (c == 4)) by (bit_vector);
}

/// A metadata word is its size together with its three flags, and
/// `from_raw` and `into_raw` are inverse.
pub proof fn lemma_meta_decomposes(m: ChunkMeta)
    ensures
        m.raw() == m.size_of() | flags_word(m.first(), m.last(), m.free()),
{
    let raw = m.raw();
    let a: usize = if raw & 1usize != 0 { 1usize } else { 0usize };
    let b: usize = if raw & 2usize != 0 { 2usize } else { 0usize };
    let c: usize = if raw & 4usize != 0 { 4usize } else { 0usize };
    assert(a == (if raw & 1usize != 0 { 1usize } else { 0usize }) && b == (if raw & 2usize != 0 {
        2usize
    } else {
        0usize
    }) && c == (if raw & 4usize != 0 { 4usize } else { 0usize }) ==> raw == (raw & !7usize) | (a
        | b | c)) by (bit_vector);
}

} // verus!
