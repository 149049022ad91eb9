//! A word-addressed memory: the place where the allocator keeps its metadata.
use vstd::prelude::*;
use vstd::hash_map::HashMapWithView;

verus! {

broadcast use vstd::std_specs::hash::group_hash_axioms;

/// Size of a machine word in bytes, as a mathematical value.
pub open spec fn wsize() -> usize {
    vstd::layout::size_of::<usize>() as usize
}

/// A machine word holds either four or eight bytes, and `usize::BITS` counts
/// its bits.
pub proof fn lemma_word_size()
    ensures
        wsize() == 4 || wsize() == 8,
        usize::BITS == 8 * wsize(),
{
    broadcast use vstd::layout::layout_of_primitives;
    assert(vstd::layout::size_of::<usize>() * 8 == usize::BITS);
}

/// Sums and differences of word-aligned values are word-aligned.
pub proof fn lemma_aligned(a: int, b: int)
    requires
        a % (wsize() as int) == 0,
        b % (wsize() as int) == 0,
    ensures
        (a + b) % (wsize() as int) == 0,
        (a - b) % (wsize() as int) == 0,
{
    lemma_word_size();
    if wsize() == 4 {
        assert((a + b) % 4 == 0);
        assert((a - b) % 4 == 0);
    } else {
        assert((a + b) % 8 == 0);
        assert((a - b) % 8 == 0);
    }
}

/// Size of a machine word in bytes.
pub fn word_size() -> (r: usize)
    ensures
        r == wsize(),
        r == 4 || r == 8,
        usize::BITS == 8 * r,
{
    proof {
        lemma_word_size();
    }
    core::mem::size_of::<usize>()
}

/// The word stored at `addr` in the abstract memory `m`: freshly mapped memory
/// reads as zero, so an address that was never written holds `0`.
pub open spec fn word_at(m: Map<usize, usize>, addr: usize) -> usize {
    if m.contains_key(addr) {
        m[addr]
    } else {
        0
    }
}

/// Word-granular memory. Every address that is read or written is a multiple
/// of the word size.
pub struct Memory {
    words: HashMapWithView<usize, usize>,
}

impl View for Memory {
    type V = Map<usize, usize>;

    closed spec fn view(&self) -> Map<usize, usize> {
        self.words@
    }
}

impl Memory {
    /// The word at `addr`.
    pub open spec fn word(&self, addr: usize) -> usize {
        word_at(self@, addr)
    }

    /// A memory in which every word reads as zero.
    pub fn new() -> (m: Self)
        ensures
            m@ == Map::<usize, usize>::empty(),
    {
        Memory { words: HashMapWithView::new() }
    }

    /// Reads the word at `addr`.
    pub fn read(&self, addr: usize) -> (v: usize)
        requires
            addr % wsize() == 0,
        ensures
            v == self.word(addr),
    {
        match self.words.get(&addr) {
            Some(v) => *v,
            None => 0,
        }
    }

    /// Writes `val` to the byte at `addr`, leaving the other bytes of its
    /// word alone.
    pub fn write_byte(&mut self, addr: usize, val: u8)
        ensures
            final(self)@ == old(self)@.insert(
                word_base(addr),
                with_byte(old(self).word(word_base(addr)), byte_shift(addr), val),
            ),
    {
        proof {
            lemma_word_size();
        }
        let w = word_size();
        proof {
            if w == 4 {
                assert(addr % 4 <= addr);
                assert((addr - addr % 4) % 4 == 0);
            } else {
                assert(addr % 8 <= addr);
                assert((addr - addr % 8) % 8 == 0);
            }
        }
        let base = addr - addr % w;
        let shift = 8 * (addr % w);
        let old_word = self.read(base);
        let new_word = (old_word & !(0xffusize << shift)) | ((val as usize) << shift);
        self.write(base, new_word);
    }

    /// Writes `val` to the word at `addr`.
    pub fn write(&mut self, addr: usize, val: usize)
        requires
            addr % wsize() == 0,
        ensures
            final(self)@ == old(self)@.insert(addr, val),
    {
        self.words.insert(addr, val);
    }
}

/// The word-aligned addresses in the `len` bytes from `addr`.
pub open spec fn region_words(addr: usize, len: usize) -> Set<usize> {
    Set::new(|a: usize| addr <= a < addr + len && a % wsize() == 0)
}

impl Memory {
    /// Forgets the words of the `len` bytes at `addr`, as after that region
    /// was unmapped: they read as zero again.
    pub fn forget_region(&mut self, addr: usize, len: usize)
        requires
            addr % wsize() == 0,
            addr + len + wsize() <= usize::MAX,
        ensures
            final(self)@ == old(self)@.remove_keys(region_words(addr, len)),
    {
        proof {
            lemma_word_size();
        }
        let w = word_size();
        let ghost m0 = self@;
        let mut a = addr;
        while a < addr + len
            invariant
                w == wsize(),
                addr % wsize() == 0,
                a % wsize() == 0,
                addr <= a <= addr + len + wsize(),
                addr + len + wsize() <= usize::MAX,
                a == addr || a - wsize() < addr + len,
                self@ == m0.remove_keys(region_words(addr, (a - addr) as usize)),
            decreases addr + len + wsize() - a,
        {
            let ghost before = self@;
            self.words.remove(&a);
            proof {
                lemma_aligned(a as int, wsize() as int);
                assert(self@ =~= m0.remove_keys(region_words(addr, (a + w - addr) as usize))) by {
                    assert forall|k: usize| #[trigger] region_words(addr, (a + w - addr) as usize).contains(k) <==> (
                        region_words(addr, (a - addr) as usize).contains(k) || k == a) by {
                        if addr <= k < a + w && k % wsize() == 0 && k != a {
                            if wsize() == 4 {
                                assert(k % 4 == 0 && a % 4 == 0);
                                assert(k < a);
                            } else {
                                assert(k % 8 == 0 && a % 8 == 0);
                                assert(k < a);
                            }
                        }
                    }
                }
            }
            a = a + w;
        }
        proof {
            assert(region_words(addr, (a - addr) as usize) =~= region_words(addr, len)) by {
                assert forall|k: usize| #[trigger] region_words(addr, (a - addr) as usize).contains(k) <==> region_words(
                    addr,
                    len,
                ).contains(k) by {
                    if addr + len <= k < a && k % wsize() == 0 {
                        if wsize() == 4 {
                            assert(k % 4 == 0 && a % 4 == 0);
                            assert(k <= a - 4);
                        } else {
                            assert(k % 8 == 0 && a % 8 == 0);
                            assert(k <= a - 8);
                        }
                        assert(false);
                    }
                }
            }
        }
    }
}

/// The address of the word that holds the byte at `addr`.
pub open spec fn word_base(addr: usize) -> usize {
    (addr - addr % wsize()) as usize
}

/// The bit position of the byte at `addr` within its word: words are
/// little-endian, so lower addresses hold lower bits.
pub open spec fn byte_shift(addr: usize) -> usize {
    (8 * (addr % wsize())) as usize
}

/// `w` with the byte at bit position `shift` replaced by `val`.
pub open spec fn with_byte(w: usize, shift: usize, val: u8) -> usize {
    (w & !(0xffusize << shift)) | ((val as usize) << shift)
}

/// The byte at `addr` in the abstract memory `m`.
pub open spec fn byte_at(m: Map<usize, usize>, addr: usize) -> usize {
    (word_at(m, word_base(addr)) >> byte_shift(addr)) & 0xffusize
}

/// After a byte write, the written byte reads back and every other byte is
/// unchanged.
pub proof fn lemma_write_byte(m: Map<usize, usize>, addr: usize, val: u8, other: usize)
    ensures
        byte_at(m.insert(word_base(addr), with_byte(word_at(m, word_base(addr)), byte_shift(addr), val)), addr)
            == val as usize,
        other != addr ==> byte_at(
            m.insert(word_base(addr), with_byte(word_at(m, word_base(addr)), byte_shift(addr), val)),
            other,
        ) == byte_at(m, other),
{
    lemma_word_size();
    let m2 = m.insert(word_base(addr), with_byte(word_at(m, word_base(addr)), byte_shift(addr), val));
    let w = word_at(m, word_base(addr));
    let s = byte_shift(addr);
    assert(s % 8 == 0 && s < usize::BITS);
    assert(s % 8 == 0 && s < usize::BITS ==> ((((w & !(0xffusize << s)) | ((val as usize) << s))
        >> s) & 0xffusize) == val as usize) by (bit_vector);
    if other != addr {
        if word_base(other) == word_base(addr) {
            let t = byte_shift(other);
            if wsize() == 4 {
                assert(other % 4 != addr % 4);
            } else {
                assert(other % 8 != addr % 8);
            }
            assert(t != s);
            assert(t % 8 == 0 && t < usize::BITS);
            assert(s % 8 == 0 && s < usize::BITS && t % 8 == 0 && t < usize::BITS && t != s ==> ((((w
                & !(0xffusize << s)) | ((val as usize) << s)) >> t) & 0xffusize) == (w >> t)
                & 0xffusize) by (bit_vector);
        }
    }
}

/// The word that holds byte `k` of a region starting on a word boundary
/// lies inside the region, at or below that byte.
pub proof fn lemma_word_base_offset(start: usize, k: usize)
    requires
        start % wsize() == 0,
        start + k <= usize::MAX,
    ensures
        word_base((start + k) as usize) == start + k - k % wsize(),
        start <= word_base((start + k) as usize) <= start + k,
        word_base((start + k) as usize) % wsize() == 0,
        byte_shift((start + k) as usize) == 8 * (k % wsize()),
{
    lemma_word_size();
    if wsize() == 4 {
        assert((start + k) % 4 == k % 4);
        assert((start + k - k % 4) % 4 == 0);
    } else {
        assert((start + k) % 8 == k % 8);
        assert((start + k - k % 8) % 8 == 0);
    }
}

/// `m` after writing `val` to the byte at `addr`.
pub open spec fn write_byte_spec(m: Map<usize, usize>, addr: usize, val: u8) -> Map<usize, usize> {
    m.insert(word_base(addr), with_byte(word_at(m, word_base(addr)), byte_shift(addr), val))
}

/// `m` after writing `val` to the bytes `start + from .. start + to`, in
/// increasing order.
pub open spec fn fill_bytes(m: Map<usize, usize>, start: usize, from: nat, to: nat, val: u8) -> Map<usize, usize>
    decreases to - from,
{
    if to <= from {
        m
    } else {
        write_byte_spec(fill_bytes(m, start, from, (to - 1) as nat, val), (start + to - 1) as usize, val)
    }
}

} // verus!
