//! The per-thread cache: a stack of free chunks and one bitmap list per
//! bucket size.
use vstd::prelude::*;
use crate::memory::Memory;
use crate::linked_list::{LinkedList, node_addr_ok, nodes_apart};
use crate::alloc_ref::FreeAlloc;
use super::bit_map_list::{BitMapList, entries_after_insert};
use crate::memory::word_at;

verus! {

/// Number of bucket lists the cache holds.
pub const BUCKETS: usize = 10;

/// `BUCKETS` empty bucket lists.
pub fn construct_buckets() -> (r: Vec<BitMapList>)
    ensures
        r.len() == BUCKETS,
        forall|i: int| 0 <= i < BUCKETS ==> (#[trigger] r[i]).head() is None && r[i].tail() is None
            && r[i].entries_raw() == 0,
{
    let mut buckets: Vec<BitMapList> = Vec::new();
    let mut i: usize = 0;
    while i < BUCKETS
        invariant
            i <= BUCKETS,
            buckets.len() == i,
            forall|j: int| 0 <= j < i ==> (#[trigger] buckets[j]).head() is None && buckets[j].tail() is None
                && buckets[j].entries_raw() == 0,
        decreases BUCKETS - i,
    {
        buckets.push(BitMapList::new_empty());
        i = i + 1;
    }
    buckets
}

/// What `pop_free_chunk` leaves, from the cache `before` with memory `m` to
/// `after`, and returns: the first chunk of the free-chunk stack, taken off
/// it, or nothing from an empty stack.
pub open spec fn pop_free_chunk_post(before: ThreadLocalCache, m: Map<usize, usize>, after: ThreadLocalCache, r: Option<FreeAlloc>) -> bool {
    &&& after.inv() == before.inv()
    &&& after.cache_line_words() == before.cache_line_words()
    &&& after.free_chunks().wf(m)
    &&& before.free_chunks().nodes().len() == 0 ==> r is None && after.free_chunks().nodes()
        == before.free_chunks().nodes()
    &&& before.free_chunks().nodes().len() > 0 ==> r == Some(FreeAlloc(before.free_chunks().nodes()[0]))
        && after.free_chunks().nodes() == before.free_chunks().nodes().drop_first()
    &&& forall|i: int| 0 <= i < BUCKETS ==> #[trigger] after.bucket(i) == before.bucket(i)
}

/// The thread's cache.
pub struct ThreadLocalCache {
    free_chunk_root: LinkedList,
    buckets: Vec<BitMapList>,
    cache_line_words: usize,
}

impl ThreadLocalCache {
    /// There is one list per bucket.
    pub closed spec fn inv(self) -> bool {
        &&& self.buckets.len() == BUCKETS
        &&& 2 <= self.cache_line_words <= 64
    }

    /// The cache-line size in words, which fixes the bucket layouts.
    pub closed spec fn cache_line_words(self) -> usize {
        self.cache_line_words
    }

    /// The cache-line size in words.
    pub fn cache_line_word_size(&self) -> (r: usize)
        ensures
            r == self.cache_line_words(),
            self.inv() ==> 2 <= r <= 64,
    {
        self.cache_line_words
    }

    /// The stack of free chunks.
    pub closed spec fn free_chunks(self) -> LinkedList {
        self.free_chunk_root
    }

    /// The bitmap list of bucket `idx`.
    pub closed spec fn bucket(self, idx: int) -> BitMapList {
        self.buckets[idx]
    }

    /// An empty cache.
    pub fn new() -> (r: Self)
        ensures
            r.inv(),
            r.free_chunks().nodes() == Seq::<usize>::empty(),
            forall|m: Map<usize, usize>| r.free_chunks().wf(m),
            forall|i: int| 0 <= i < BUCKETS ==> (#[trigger] r.bucket(i)).head() is None
                && r.bucket(i).tail() is None && r.bucket(i).entries_raw() == 0,
    {
        ThreadLocalCache {
            buckets: construct_buckets(),
            free_chunk_root: LinkedList::new(),
            cache_line_words: crate::sys::cache_line_word_size(),
        }
    }

    /// Whether the cache is well formed (see [`ThreadLocalCache::inv`]).
    pub fn is_valid(&self) -> (r: bool)
        ensures
            r == self.inv(),
    {
        self.buckets.len() == BUCKETS && 2 <= self.cache_line_words && self.cache_line_words <= 64
    }

    /// Whether the list of bucket `idx` can be searched for an entry.
    pub fn can_alloc_in_bucket(&self, mem: &Memory, idx: usize) -> (r: bool)
        requires
            self.inv(),
            idx < BUCKETS,
        ensures
            r == self.bucket(idx as int).try_alloc_ok(mem@),
    {
        self.buckets[idx].can_try_alloc(mem)
    }

    /// The number of free chunks on the stack.
    pub fn free_chunk_cnt(&self) -> (r: usize)
        ensures
            r == self.free_chunks().nodes().len(),
    {
        self.free_chunk_root.len()
    }

    /// Pushes the free chunk at `chunk`, recording its `size` in its first
    /// word.
    pub fn push_free_chunk(&mut self, mem: &mut Memory, chunk: usize, size: usize)
        requires
            old(self).free_chunks().wf(old(mem)@),
            node_addr_ok(chunk),
            forall|i: int|
                0 <= i < old(self).free_chunks().nodes().len() ==> nodes_apart(
                    chunk,
                    #[trigger] old(self).free_chunks().nodes()[i],
                ),
            old(self).free_chunks().nodes().len() < usize::MAX,
        ensures
            final(self).inv() == old(self).inv(),
            final(self).cache_line_words() == old(self).cache_line_words(),
            final(self).free_chunks().wf(final(mem)@),
            final(self).free_chunks().nodes() == seq![chunk].add(old(self).free_chunks().nodes()),
            final(mem)@ == old(mem)@.insert(chunk, size).insert(
                (chunk + crate::memory::wsize()) as usize,
                if old(self).free_chunks().nodes().len() > 0 {
                    old(self).free_chunks().nodes()[0]
                } else {
                    0
                },
            ),
            forall|i: int| 0 <= i < BUCKETS ==> #[trigger] final(self).bucket(i) == old(self).bucket(i),
    {
        self.free_chunk_root.push(mem, chunk, size);
    }

    /// Pops the most recently pushed free chunk.
    pub fn pop_free_chunk(&mut self, mem: &Memory) -> (r: Option<FreeAlloc>)
        requires
            old(self).free_chunks().wf(mem@),
        ensures
            pop_free_chunk_post(*old(self), mem@, *final(self), r),
    {
        let ret = self.free_chunk_root.pop_front(mem);
        if ret == 0 {
            None
        } else {
            Some(FreeAlloc(ret))
        }
    }

    /// Tries to take an entry from the list of bucket `idx`.
    pub fn try_alloc_in_bucket(&mut self, mem: &Memory, idx: usize) -> (r: Option<usize>)
        requires
            old(self).inv(),
            idx < BUCKETS,
            old(self).bucket(idx as int).try_alloc_ok(mem@),
        ensures
            final(self).inv(),
            final(self).cache_line_words() == old(self).cache_line_words(),
            r == old(self).bucket(idx as int).try_alloc_result(mem@),
            final(self).free_chunks() == old(self).free_chunks(),
            forall|i: int| 0 <= i < BUCKETS && i != idx ==> #[trigger] final(self).bucket(i) == old(self).bucket(i),
            !old(self).bucket(idx as int).try_alloc_drops_head(mem@) ==> final(self).bucket(idx as int)
                == old(self).bucket(idx as int),
            old(self).bucket(idx as int).try_alloc_drops_head(mem@) ==> {
                &&& final(self).bucket(idx as int).head() == Some(
                    word_at(mem@, old(self).bucket(idx as int).head().unwrap()),
                )
                &&& final(self).bucket(idx as int).tail() == old(self).bucket(idx as int).tail()
                &&& final(self).bucket(idx as int).entries_raw() == old(self).bucket(idx as int).entries_raw() - 1
            },
    {
        let r = self.buckets[idx].try_alloc_free_entry(mem);
        match r {
            Some(e) => Some(e.into_raw()),
            None => None,
        }
    }

    /// Appends `node` to the list of bucket `idx`.
    pub fn insert_node_in_bucket(&mut self, mem: &mut Memory, idx: usize, node: usize)
        requires
            old(self).inv(),
            idx < BUCKETS,
            old(self).bucket(idx as int).entries_raw() < usize::MAX,
            node % crate::memory::wsize() == 0,
        ensures
            final(self).inv(),
            final(self).cache_line_words() == old(self).cache_line_words(),
            final(self).free_chunks() == old(self).free_chunks(),
            forall|i: int| 0 <= i < BUCKETS && i != idx ==> #[trigger] final(self).bucket(i) == old(self).bucket(i),
            final(self).bucket(idx as int).entries_raw() == entries_after_insert(
                old(self).bucket(idx as int).head(),
                old(self).bucket(idx as int).entries_raw(),
            ),
            final(self).bucket(idx as int).head() == if old(self).bucket(idx as int).head() is None {
                Some(node)
            } else {
                old(self).bucket(idx as int).head()
            },
            final(self).bucket(idx as int).tail() == Some(node),
            final(mem)@ == if old(self).bucket(idx as int).head() is None {
                old(mem)@
            } else {
                old(mem)@.insert(old(self).bucket(idx as int).tail().unwrap(), node)
            },
    {
        self.buckets[idx].insert_node(mem, node);
    }
}

} // verus!
