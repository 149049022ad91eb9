//! Per-bucket lists of bitmap nodes. A node sits in the page of a bucket
//! allocation: the element size, the link to the next node, then the bitmap
//! words that mark the page's entries.
use vstd::prelude::*;
use crate::memory::{
    Memory, wsize, word_size, word_at, byte_at, word_base, byte_shift, with_byte, lemma_word_size,
    lemma_aligned, lemma_write_byte, lemma_word_base_offset, fill_bytes, write_byte_spec,
};
use crate::util::{trailing_zeros, trailing_zeros_spec, lemma_trailing_zeros_from_bounds};
use super::PAGE_SIZE;

verus! {

/// The top bit of the entry counter: set once the list got its first node.
pub const REGISTERED_FLAG: usize = 1usize << (usize::BITS - 1);

/// `a` divided by `b`, rounded up.
pub open spec fn div_ceil_spec(a: usize, b: usize) -> usize {
    (a / b + if a % b == 0 {
        0usize
    } else {
        1usize
    }) as usize
}

/// `a` divided by `b`, rounded up.
pub fn div_ceil(a: usize, b: usize) -> (r: usize)
    requires
        b > 0,
    ensures
        r == div_ceil_spec(a, b),
{
    proof {
        if b == 1 {
            assert(a / b == a);
            assert(a % b == 0);
        } else {
            assert(a / b < a || a == 0) by (nonlinear_arith)
                requires
                    b > 1,
            ;
        }
    }
    a / b + if a % b == 0 {
        0
    } else {
        1
    }
}

/// Number of bitmap words a node scans for elements of `element_size` bytes.
pub open spec fn bitmap_cnt_for(element_size: usize) -> usize {
    let c = div_ceil_spec((PAGE_SIZE / element_size) as usize, usize::BITS as usize);
    if c > 1 {
        c
    } else {
        1
    }
}

/// The entry found by scanning the node's bitmap words from word `i` on:
/// words are visited from the highest address down, and the first non-zero
/// word yields the entry at the position of its lowest set bit.
pub open spec fn entry_scan(m: Map<usize, usize>, node: usize, cnt: usize, i: usize) -> Option<usize>
    decreases cnt - i,
{
    if i >= cnt {
        None
    } else {
        let map = word_at(m, (node + (cnt - i) * wsize()) as usize);
        let idx = trailing_zeros_spec(map);
        if idx != usize::BITS {
            Some((node - (i * wsize() + idx) * wsize()) as usize)
        } else {
            entry_scan(m, node, cnt, (i + 1) as usize)
        }
    }
}

/// The number of bitmap words of the node at `node`, from its element size.
pub open spec fn node_bitmap_cnt(m: Map<usize, usize>, node: usize) -> usize {
    bitmap_cnt_for(word_at(m, (node - wsize()) as usize))
}

/// The entry that `alloc_free_entry` finds at the node at `node`.
pub open spec fn node_entry(m: Map<usize, usize>, node: usize) -> Option<usize> {
    entry_scan(m, node, node_bitmap_cnt(m, node), 0)
}

/// The node at `node` can be scanned: its words are addressable, its element
/// size is not zero, and every entry address it could compute is not below
/// zero.
pub open spec fn node_scannable(m: Map<usize, usize>, node: usize) -> bool {
    let cnt = node_bitmap_cnt(m, node);
    &&& node % wsize() == 0
    &&& node >= wsize()
    &&& word_at(m, (node - wsize()) as usize) != 0
    &&& node + cnt * wsize() <= usize::MAX
    &&& node >= (cnt * wsize() + usize::BITS) * wsize()
}

/// An entry of a bitmap node.
#[derive(Clone, Copy)]
pub struct BitMapEntry {
    pub ptr: usize,
}

impl BitMapEntry {
    /// The entry's address.
    pub fn into_raw(self) -> (r: usize)
        ensures
            r == self.ptr,
    {
        self.ptr
    }
}

/// A bitmap node, referred to by the address of its link word.
#[derive(Clone, Copy)]
pub struct BitMapListNode(pub usize);

/// The state of the bytes `start .. start + len` right after `create`: the
/// first `full` bytes all ones, then one byte holding the low `rem + 1` bits,
/// then zeros.
pub open spec fn created_bitmap(m: Map<usize, usize>, start: usize, len: usize, full: usize, bit_set: u8) -> bool {
    &&& forall|k: usize| k < full ==> #[trigger] byte_at(m, (start + k) as usize) == 0xffusize
    &&& byte_at(m, (start + full) as usize) == bit_set as usize
    &&& forall|k: usize| full < k < len ==> #[trigger] byte_at(m, (start + k) as usize) == 0usize
}

/// The byte that marks the entries of a partly used bitmap byte: the low
/// `entries_used % 8 + 1` bits set.
pub open spec fn partial_byte(entries_used: usize) -> u8 {
    (vstd::arithmetic::power2::pow2((entries_used % 8 + 1) as nat) - 1) as u8
}

/// Memory `m` after `create` laid out a node at `addr`.
pub open spec fn created_mem(m: Map<usize, usize>, addr: usize, element_size: usize, sub_maps: usize, entries_used: usize) -> Map<usize, usize> {
    let start = (addr + 2 * wsize()) as usize;
    let full = entries_used / 8;
    let m1 = m.insert(addr, element_size).insert((addr + wsize()) as usize, 0);
    let m2 = fill_bytes(m1, start, 0, full as nat, 0xffu8);
    let m3 = write_byte_spec(m2, (start + full) as usize, partial_byte(entries_used));
    fill_bytes(m3, start, (full + 1) as nat, (sub_maps * wsize()) as nat, 0u8)
}

/// Words outside `lo .. hi` are the same in both memories.
pub open spec fn same_outside(m1: Map<usize, usize>, m2: Map<usize, usize>, lo: int, hi: int) -> bool {
    forall|a: usize| (a < lo || a >= hi) ==> #[trigger] word_at(m1, a) == word_at(m2, a)
}

impl BitMapListNode {
    /// Whether the node can be scanned (see [`node_scannable`]).
    pub fn scannable(&self, mem: &Memory) -> (r: bool)
        ensures
            r == node_scannable(mem@, self.0),
    {
        proof {
            lemma_word_size();
        }
        let node = self.0;
        let w = word_size();
        if node % w != 0 || node < w {
            return false;
        }
        proof {
            lemma_aligned(node as int, wsize() as int);
        }
        let es = mem.read(node - w);
        if es == 0 {
            return false;
        }
        let q = PAGE_SIZE / es;
        let c = div_ceil(q, usize::BITS as usize);
        let cnt = if c > 1 {
            c
        } else {
            1
        };
        assert(cnt == node_bitmap_cnt(mem@, node));
        proof {
            assert(q <= PAGE_SIZE);
            assert(c <= PAGE_SIZE) by (nonlinear_arith)
                requires
                    c == q / (usize::BITS as usize) + if q % (usize::BITS as usize) == 0 {
                        0usize
                    } else {
                        1usize
                    },
                    q <= PAGE_SIZE,
                    usize::BITS >= 32,
            ;
        }
        let span = cnt * w;
        if node > usize::MAX - span {
            return false;
        }
        let low = (span + usize::BITS as usize) * w;
        node >= low
    }
}

impl BitMapListNode {
    /// Lays out a node at the bucket area `addr`: the element size, a null
    /// link, and `sub_maps` words of bitmap in which the first `entries_used`
    /// entries (those the metadata occupies) are marked, plus one more.
    /// Returns the node's address, one word after `addr`.
    pub fn create(mem: &mut Memory, addr: usize, element_size: usize, sub_maps: usize, entries_used: usize) -> (r: usize)
        requires
            addr % wsize() == 0,
            addr + 2 * wsize() + sub_maps * wsize() <= usize::MAX,
            entries_used % 8 < 7,
            sub_maps * wsize() >= entries_used / 8 + 1,
        ensures
            r == addr + wsize(),
            final(mem)@ == created_mem(old(mem)@, addr, element_size, sub_maps, entries_used),
            word_at(final(mem)@, addr) == element_size,
            word_at(final(mem)@, (addr + wsize()) as usize) == 0,
            created_bitmap(
                final(mem)@,
                (addr + 2 * wsize()) as usize,
                (sub_maps * wsize()) as usize,
                entries_used / 8,
                partial_byte(entries_used),
            ),
            same_outside(
                final(mem)@,
                old(mem)@,
                addr as int,
                addr + 2 * wsize() + sub_maps * wsize(),
            ),
    {
        proof {
            lemma_word_size();
            lemma_aligned(addr as int, wsize() as int);
        }
        let w = word_size();
        mem.write(addr, element_size);
        mem.write(addr + w, 0);
        let ghost m0 = mem@;
        let start = addr + 2 * w;
        let full_sub_map_bytes = entries_used / 8;
        let len = sub_maps * w;
        let mut k: usize = 0;
        while k < full_sub_map_bytes
            invariant
                k <= full_sub_map_bytes,
                full_sub_map_bytes < len,
                start == addr + 2 * wsize(),
                start % wsize() == 0,
                start + len <= usize::MAX,
                word_at(mem@, addr) == element_size,
                word_at(mem@, (addr + wsize()) as usize) == 0,
                forall|j: usize| j < k ==> #[trigger] byte_at(mem@, (start + j) as usize) == 0xffusize,
                same_outside(mem@, m0, start as int, start + len),
                mem@ == fill_bytes(m0, start, 0, k as nat, 0xffu8),
            decreases full_sub_map_bytes - k,
        {
            let ghost before = mem@;
            mem.write_byte(start + k, 0xff);
            proof {
                lemma_word_base_offset(start, k);
                lemma_write_byte(before, (start + k) as usize, 0xff, (start + k) as usize);
                assert forall|a: usize| (a < start || a >= start + len) implies #[trigger] word_at(
                    mem@,
                    a,
                ) == word_at(m0, a) by {
                    assert(word_at(mem@, a) == word_at(before, a));
                }
                assert forall|j: usize| j < k + 1 implies #[trigger] byte_at(mem@, (start + j) as usize)
                    == 0xffusize by {
                    lemma_write_byte(before, (start + k) as usize, 0xff, (start + j) as usize);
                }
            }
            k = k + 1;
        }
        let remaining = entries_used - full_sub_map_bytes * 8;
        assert(remaining < 7 ==> (1u8 << (remaining + 1)) >= 2u8) by (bit_vector);
        let bit_set: u8 = (1u8 << (remaining + 1)) - 1;
        let ghost before = mem@;
        mem.write_byte(start + full_sub_map_bytes, bit_set);
        proof {
            lemma_word_base_offset(start, full_sub_map_bytes);
            lemma_write_byte(before, (start + full_sub_map_bytes) as usize, bit_set, (start
                + full_sub_map_bytes) as usize);
            assert forall|j: usize| j < full_sub_map_bytes implies #[trigger] byte_at(
                mem@,
                (start + j) as usize,
            ) == 0xffusize by {
                lemma_write_byte(before, (start + full_sub_map_bytes) as usize, bit_set, (start
                    + j) as usize);
            }
            assert(remaining == entries_used % 8);
            let r = remaining as u8;
            assert forall|a: usize| (a < start || a >= start + len) implies #[trigger] word_at(
                mem@,
                a,
            ) == word_at(m0, a) by {
                assert(word_at(mem@, a) == word_at(before, a));
            }

            assert(r < 7 ==> (1u8 << (r + 1)) - 1 == (1u8 << (r + 1)) - 1u8) by (bit_vector);
            vstd::arithmetic::power2::lemma2_to64();
            assert(bit_set as int == vstd::arithmetic::power2::pow2((entries_used % 8 + 1) as nat) - 1)
                by {
                assert(r < 7 ==> ((1u8 << (r + 1)) as int == if r == 0 {
                    2int
                } else if r == 1 {
                    4int
                } else if r == 2 {
                    8int
                } else if r == 3 {
                    16int
                } else if r == 4 {
                    32int
                } else if r == 5 {
                    64int
                } else {
                    128int
                })) by (bit_vector);
            }
        }
        let ghost m2 = mem@;
        let mut k: usize = full_sub_map_bytes + 1;
        while k < len
            invariant
                full_sub_map_bytes < k <= len,
                start == addr + 2 * wsize(),
                start % wsize() == 0,
                start + len <= usize::MAX,
                word_at(mem@, addr) == element_size,
                word_at(mem@, (addr + wsize()) as usize) == 0,
                forall|j: usize| j < full_sub_map_bytes ==> #[trigger] byte_at(mem@, (start + j) as usize)
                    == 0xffusize,
                byte_at(mem@, (start + full_sub_map_bytes) as usize) == bit_set as usize,
                forall|j: usize|
                    full_sub_map_bytes < j < k ==> #[trigger] byte_at(mem@, (start + j) as usize)
                        == 0usize,
                same_outside(mem@, m0, start as int, start + len),
                mem@ == fill_bytes(m2, start, (full_sub_map_bytes + 1) as nat, k as nat, 0u8),
            decreases len - k,
        {
            let ghost before = mem@;
            mem.write_byte(start + k, 0);
            proof {
                lemma_word_base_offset(start, k);
                lemma_write_byte(before, (start + k) as usize, 0, (start + k) as usize);
                assert forall|a: usize| (a < start || a >= start + len) implies #[trigger] word_at(
                    mem@,
                    a,
                ) == word_at(m0, a) by {
                    assert(word_at(mem@, a) == word_at(before, a));
                }
                lemma_write_byte(before, (start + k) as usize, 0, (start + full_sub_map_bytes) as usize);
                assert forall|j: usize| j < full_sub_map_bytes implies #[trigger] byte_at(
                    mem@,
                    (start + j) as usize,
                ) == 0xffusize by {
                    lemma_write_byte(before, (start + k) as usize, 0, (start + j) as usize);
                }
                assert forall|j: usize| full_sub_map_bytes < j < k + 1 implies #[trigger] byte_at(
                    mem@,
                    (start + j) as usize,
                ) == 0usize by {
                    lemma_write_byte(before, (start + k) as usize, 0, (start + j) as usize);
                }
            }
            k = k + 1;
        }
        addr + w
    }

    /// The element size, stored in the word in front of the node.
    pub fn element_size(&self, mem: &Memory) -> (r: usize)
        requires
            self.0 >= wsize(),
            self.0 % wsize() == 0,
        ensures
            r == word_at(mem@, (self.0 - wsize()) as usize),
    {
        proof {
            lemma_aligned(self.0 as int, wsize() as int);
        }
        mem.read(self.0 - word_size())
    }

    /// Scans the node's bitmap words, highest first, and returns the entry at
    /// the lowest set bit of the first non-zero word.
    pub fn alloc_free_entry(&mut self, mem: &Memory) -> (r: Option<BitMapEntry>)
        requires
            node_scannable(mem@, old(self).0),
        ensures
            *final(self) == *old(self),
            r.is_some() == node_entry(mem@, old(self).0).is_some(),
            r.is_some() ==> node_entry(mem@, old(self).0) == Some(r.unwrap().ptr),
    {
        proof {
            lemma_word_size();
        }
        let curr = self.0;
        let w = word_size();
        let es = self.element_size(mem);
        let q = PAGE_SIZE / es;
        let c = div_ceil(q, usize::BITS as usize);
        let bitmap_cnt = if c > 1 {
            c
        } else {
            1
        };
        assert(bitmap_cnt == node_bitmap_cnt(mem@, curr));
        let end = curr + bitmap_cnt * w;
        let mut i: usize = 0;
        while i < bitmap_cnt
            invariant
                i <= bitmap_cnt,
                curr == old(self).0,
                bitmap_cnt == node_bitmap_cnt(mem@, curr),
                node_scannable(mem@, curr),
                end == curr + bitmap_cnt * wsize(),
                w == wsize(),
                wsize() == 4 || wsize() == 8,
                usize::BITS == 8 * wsize(),
                entry_scan(mem@, curr, bitmap_cnt, i) == node_entry(mem@, curr),
            decreases bitmap_cnt - i,
        {
            proof {
                assert(i * wsize() <= bitmap_cnt * wsize()) by (nonlinear_arith)
                    requires
                        i <= bitmap_cnt,
                ;
                assert((end - i * w) % (wsize() as int) == 0) by {
                    vstd::arithmetic::div_mod::lemma_mod_multiples_basic(bitmap_cnt as int, wsize() as int);
                    vstd::arithmetic::div_mod::lemma_mod_multiples_basic(i as int, wsize() as int);
                    lemma_aligned(curr as int, (bitmap_cnt * wsize()) as int);
                    lemma_aligned(end as int, (i * wsize()) as int);
                }
                assert((bitmap_cnt - i) * wsize() == bitmap_cnt * wsize() - i * wsize()) by (nonlinear_arith);
            }
            assert(end - i * w == (curr + (bitmap_cnt - i) * wsize()) as usize);
            let map = mem.read(end - i * w);
            let idx = trailing_zeros(map);
            if idx != usize::BITS {
                proof {
                    assert(i * w + idx < bitmap_cnt * w + usize::BITS);
                    assert((i * w + idx) * w <= (bitmap_cnt * w + usize::BITS) * w) by (nonlinear_arith)
                        requires
                            i * w + idx < bitmap_cnt * w + usize::BITS,
                    ;
                    assert(curr >= (bitmap_cnt * w + usize::BITS) * w);
                    assert((bitmap_cnt * w + usize::BITS) * w >= bitmap_cnt * w + usize::BITS)
                        by (nonlinear_arith)
                        requires
                            w >= 1,
                    ;
                    assert(curr >= (i * w + idx) * w);
                    assert(map == word_at(mem@, (curr + (bitmap_cnt - i) * wsize()) as usize));
                    assert(entry_scan(mem@, curr, bitmap_cnt, i) == Some(
                        (curr - (i * wsize() + trailing_zeros_spec(map)) * wsize()) as usize,
                    ));
                }
                let off = i * w + idx as usize;
                assert(off * w <= curr);
                let back = off * w;
                let ptr = curr - back;
                assert(ptr == (curr - (i * wsize() + trailing_zeros_spec(map)) * wsize()) as usize);
                assert(node_entry(mem@, curr) == Some(ptr));
                return Some(BitMapEntry { ptr });
            }
            i = i + 1;
        }
        None
    }
}

/// What `try_alloc_free_entry` returns for a list whose first node is
/// `head`, in memory `m`: the entry of the first node, or else the entry of
/// the node it links to.
pub open spec fn try_alloc_result_at(head: Option<usize>, m: Map<usize, usize>) -> Option<usize> {
    match head {
        None => None,
        Some(h) => if node_entry(m, h) is Some {
            node_entry(m, h)
        } else {
            node_entry(m, word_at(m, h))
        },
    }
}

/// Whether `try_alloc_free_entry` drops the first node `head` in memory `m`.
pub open spec fn try_alloc_drops_head_at(head: Option<usize>, m: Map<usize, usize>) -> bool {
    head matches Some(h) && node_entry(m, h) is None
}

/// What `try_alloc_free_entry` needs of memory `m`, for a list whose first
/// node is `head` and whose counter is `entries`: the first node, and the
/// second one when the first has no entry, can be scanned.
pub open spec fn try_alloc_ok_at(head: Option<usize>, entries: usize, m: Map<usize, usize>) -> bool {
    head matches Some(h) ==> {
        &&& node_scannable(m, h)
        &&& node_entry(m, h) is None ==> {
            &&& entries >= 1
            &&& word_at(m, h) != 0
            &&& node_scannable(m, word_at(m, h))
        }
    }
}

/// A list of bitmap nodes with links to its first and last node.
pub struct BitMapList {
    head: Option<usize>,
    tail: Option<usize>,
    entries: usize,
}

/// The entry counter after one more node was inserted into a list whose
/// head was `head` and counter `entries`.
pub open spec fn entries_after_insert(head: Option<usize>, entries: usize) -> usize {
    if head is None && (entries + 1) as usize & REGISTERED_FLAG == 0 {
        ((entries + 1) as usize | REGISTERED_FLAG) as usize
    } else {
        (entries + 1) as usize
    }
}

/// An insertion of `node` took the list from `before` to `after`: the
/// counter as [`entries_after_insert`] says, the node at the end, and at the
/// front too when the list had no node.
pub open spec fn inserted(before: BitMapList, after: BitMapList, node: usize) -> bool {
    &&& after.entries_raw() == entries_after_insert(before.head(), before.entries_raw())
    &&& after.head() == if before.head() is None {
        Some(node)
    } else {
        before.head()
    }
    &&& after.tail() == Some(node)
}

impl BitMapList {
    /// A list has a first node exactly when it has a last one, and the last
    /// node's link word is addressable.
    #[verifier::type_invariant]
    spec fn linked_ends(self) -> bool {
        &&& self.head.is_some() == self.tail.is_some()
        &&& self.tail matches Some(t) ==> t % wsize() == 0
    }

    /// The first node.
    pub closed spec fn head(self) -> Option<usize> {
        self.head
    }

    /// The last node.
    pub closed spec fn tail(self) -> Option<usize> {
        self.tail
    }

    /// The entry counter, with the registration flag.
    pub closed spec fn entries_raw(self) -> usize {
        self.entries
    }

    /// The list without nodes.
    pub fn new_empty() -> (r: Self)
        ensures
            r.head() is None,
            r.tail() is None,
            r.entries_raw() == 0,
    {
        BitMapList { head: None, tail: None, entries: 0 }
    }

    /// Appends `node` as the last node. The first insertion also sets the
    /// registration flag of the counter.
    pub fn insert_node(&mut self, mem: &mut Memory, node: usize)
        requires
            old(self).entries_raw() < usize::MAX,
            node % wsize() == 0,
        ensures
            inserted(*old(self), *final(self), node),
            final(mem)@ == if old(self).head() is None {
                old(mem)@
            } else {
                old(mem)@.insert(old(self).tail().unwrap(), node)
            },
    {
        proof {
            use_type_invariant(&*self);
        }
        let entries = self.entries + 1;
        if self.head.is_none() {
            let entries = if entries & REGISTERED_FLAG == 0 {
                entries | REGISTERED_FLAG
            } else {
                entries
            };
            *self = BitMapList { head: Some(node), tail: Some(node), entries };
            return ;
        }
        let old_tail = self.tail.unwrap();
        *self = BitMapList { head: self.head, tail: Some(node), entries };
        mem.write(old_tail, node);
    }

    /// What `try_alloc_free_entry` returns in memory `m`.
    pub open spec fn try_alloc_result(self, m: Map<usize, usize>) -> Option<usize> {
        try_alloc_result_at(self.head(), m)
    }

    /// Whether `try_alloc_free_entry` drops the first node in memory `m`.
    pub open spec fn try_alloc_drops_head(self, m: Map<usize, usize>) -> bool {
        try_alloc_drops_head_at(self.head(), m)
    }

    /// What `try_alloc_free_entry` needs of memory `m`.
    pub open spec fn try_alloc_ok(self, m: Map<usize, usize>) -> bool {
        try_alloc_ok_at(self.head(), self.entries_raw(), m)
    }

    /// Finds an entry at the first node; if it has none, drops that node from
    /// the front, counts one node less and looks at the next node.
    pub fn try_alloc_free_entry(&mut self, mem: &Memory) -> (r: Option<BitMapEntry>)
        requires
            old(self).try_alloc_ok(mem@),
        ensures
            r.is_some() == old(self).try_alloc_result(mem@).is_some(),
            r.is_some() ==> old(self).try_alloc_result(mem@) == Some(r.unwrap().ptr),
            !old(self).try_alloc_drops_head(mem@) ==> *final(self) == *old(self),
            old(self).try_alloc_drops_head(mem@) ==> {
                &&& final(self).head() == Some(word_at(mem@, old(self).head().unwrap()))
                &&& final(self).tail() == old(self).tail()
                &&& final(self).entries_raw() == old(self).entries_raw() - 1
            },
    {
        proof {
            use_type_invariant(&*self);
        }
        if self.head.is_none() {
            return None;
        }
        let head = self.head.unwrap();
        let mut node = BitMapListNode(head);
        let mut ret = node.alloc_free_entry(mem);
        if ret.is_none() {
            let next = mem.read(head);
            *self = BitMapList { head: Some(next), tail: self.tail, entries: self.entries - 1 };
            let mut next_node = BitMapListNode(next);
            ret = next_node.alloc_free_entry(mem);
        }
        ret
    }

    /// Whether the list can be searched for an entry (see
    /// [`BitMapList::try_alloc_ok`]).
    pub fn can_try_alloc(&self, mem: &Memory) -> (r: bool)
        ensures
            r == self.try_alloc_ok(mem@),
    {
        proof {
            use_type_invariant(self);
        }
        match self.head {
            None => true,
            Some(h) => {
                let mut node = BitMapListNode(h);
                if !node.scannable(mem) {
                    return false;
                }
                if node.alloc_free_entry(mem).is_some() {
                    return true;
                }
                if self.entries < 1 {
                    return false;
                }
                let next = mem.read(h);
                next != 0 && BitMapListNode(next).scannable(mem)
            },
        }
    }

    /// The number of nodes inserted and not dropped, without the
    /// registration flag.
    pub fn entries(&self) -> (r: usize)
        ensures
            r == self.entries_raw() & !REGISTERED_FLAG,
    {
        self.entries & !REGISTERED_FLAG
    }
}

/// Inserting into a list whose count is below the flag counts one node more.
pub proof fn lemma_insert_counts_one(head: Option<usize>, entries: usize)
    requires
        (entries & !REGISTERED_FLAG) + 1 < REGISTERED_FLAG,
    ensures
        entries_after_insert(head, entries) & !REGISTERED_FLAG == (entries & !REGISTERED_FLAG) + 1,
{
    assert((entries & !REGISTERED_FLAG) + 1 < REGISTERED_FLAG ==> (entries + 1) as usize == entries + 1
        && ((entries + 1) as usize & !REGISTERED_FLAG) == (entries & !REGISTERED_FLAG) + 1 && (((
    entries + 1) as usize | REGISTERED_FLAG) & !REGISTERED_FLAG) == (entries & !REGISTERED_FLAG) + 1)
        by (bit_vector);
}

/// Slots of one sub-map: the word's bit count or the cache-line size in
/// bytes, whichever is smaller.
pub fn sub_map_slots(cache_line_size: usize) -> (r: usize)
    ensures
        r == if usize::BITS < cache_line_size {
            usize::BITS as usize
        } else {
            cache_line_size
        },
{
    crate::util::min(usize::BITS as usize, cache_line_size)
}

/// One step of the sub-map count: `bits` rounded up in units of `step` is
/// one more than what is left after taking away one unit.
proof fn lemma_div_ceil_step(bits: usize, step: usize)
    requires
        bits > 0,
        step > 0,
    ensures
        div_ceil_spec(bits, step) == 1 + div_ceil_spec(
            if bits >= step {
                (bits - step) as usize
            } else {
                0usize
            },
            step,
        ),
{
    if bits >= step {
        let d = (bits - step) as usize;
        assert(d / step == bits / step - 1 && d % step == bits % step) by (nonlinear_arith)
            requires
                bits >= step,
                step > 0,
                d == bits - step,
        ;
    } else {
        assert(bits / step == 0 && bits % step == bits) by (nonlinear_arith)
            requires
                bits < step,
                step > 0,
        ;
    }
}

/// The number of sub-maps the bits of a cache line of `cache_line_size`
/// bytes make, each sub-map taking its slots and a word of bits.
pub fn calc_sub_maps(cache_line_size: usize) -> (r: usize)
    requires
        cache_line_size * 8 <= usize::MAX,
    ensures
        r == div_ceil_spec(
            (cache_line_size * 8) as usize,
            (usize::BITS + if usize::BITS < cache_line_size {
                usize::BITS as usize
            } else {
                cache_line_size
            }) as usize,
        ),
{
    proof {
        lemma_word_size();
    }
    let slots = sub_map_slots(cache_line_size);
    let mut sub_maps: usize = 0;
    let mut bits: usize = cache_line_size * 8;
    let ghost total = bits;
    let step: usize = slots + usize::BITS as usize;
    assert(total / step <= total && (total % step != 0 ==> total / step < total)) by (nonlinear_arith)
        requires
            step > 0,
    ;
    while bits > 0
        invariant
            step > 0,
            step == slots + usize::BITS,
            sub_maps + div_ceil_spec(bits, step) == div_ceil_spec(total, step),
            div_ceil_spec(total, step) <= total,
        decreases bits,
    {
        let sub_map_size = usize::BITS as usize;
        proof {
            lemma_div_ceil_step(bits, step);
        }
        bits = bits.saturating_sub(slots + sub_map_size);
        sub_maps += 1;
    }
    assert(div_ceil_spec(0, step) == 0) by (nonlinear_arith)
        requires
            step > 0,
    ;
    sub_maps
}

/// A list that starts empty and gets `nodes.len()` nodes inserted, with no
/// entry taken in between, counts exactly that many entries; from the first
/// insertion on, the registration flag is set and not counted.
/// `states[i + 1]` is the list after inserting `nodes[i]` into `states[i]`.
pub proof fn lemma_entries_count_inserts(states: Seq<BitMapList>, nodes: Seq<usize>)
    requires
        states.len() == nodes.len() + 1,
        states[0].head() is None,
        states[0].entries_raw() == 0,
        forall|i: int| 0 <= i < nodes.len() ==> inserted(states[i], states[i + 1], #[trigger] nodes[i]),
        nodes.len() + 1 < REGISTERED_FLAG,
    ensures
        states.last().entries_raw() & !REGISTERED_FLAG == nodes.len(),
        nodes.len() > 0 ==> states.last().entries_raw() & REGISTERED_FLAG != 0,
        nodes.len() > 0 ==> states.last().head() is Some,
        nodes.len() == 0 ==> states.last().entries_raw() == 0 && states.last().head() is None,
    decreases nodes.len(),
{
    if nodes.len() > 0 {
        let k = nodes.len() - 1;
        lemma_entries_count_inserts(states.drop_last(), nodes.drop_last());
        assert(states.drop_last().last() == states[k]);
        assert(inserted(states[k], states[k + 1], nodes[k]));
        let raw = states[k].entries_raw();
        let f = REGISTERED_FLAG;
        let new_raw = states[k + 1].entries_raw();
        assert(states.last() == states[k + 1]);
        assert(f == 1usize << (usize::BITS - 1) as usize);
        if k == 0 {
            assert(raw == 0);
            assert(states[k].head() is None);
            assert(((0usize + 1) as usize) & f == 0 && (((0usize + 1) as usize) | f) & !f == 1 && (((0usize
                + 1) as usize) | f) & f != 0) by (bit_vector)
                requires
                    f == 1usize << (usize::BITS - 1) as usize,
            ;
            assert(new_raw == ((0usize + 1) as usize) | f);
            assert(new_raw & !f == nodes.len());
        } else {
            let kk = k as usize;
            assert(states[k].head() is Some);
            assert(new_raw == (raw + 1) as usize);
            assert(((raw + 1) as usize) & !f == kk + 1 && ((raw + 1) as usize) & f != 0) by (bit_vector)
                requires
                    raw & !f == kk,
                    raw & f != 0,
                    kk + 1 < f,
                    f == 1usize << (usize::BITS - 1) as usize,
            ;
            assert(new_raw & !f == nodes.len());
        }
    } else {
        assert(states.last() == states[0]);
        assert(0usize & !REGISTERED_FLAG == 0) by (bit_vector);
    }
}

} // verus!
