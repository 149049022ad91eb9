//! Small arithmetic helpers on sizes and addresses.
use vstd::prelude::*;

verus! {

/// The start of the `req_len` bytes that end at the last `align` boundary
/// inside the `alloc_len` bytes starting at `ptr`.
pub open spec fn aligned_region_start(ptr: usize, alloc_len: usize, align: usize, req_len: usize) -> int {
    ptr + alloc_len - (((ptr + alloc_len) as int) % (align as int) + req_len)
}

/// Within the `alloc_len` bytes at `ptr`, the start of the last `req_len`
/// bytes that end on a multiple of `align`.
pub fn align_unaligned_ptr_up_to(ptr: usize, alloc_len: usize, align: usize, req_len: usize) -> (r: usize)
    requires
        align > 0,
        ptr + alloc_len <= usize::MAX,
        ((ptr + alloc_len) as int) % (align as int) + req_len <= alloc_len,
    ensures
        r == aligned_region_start(ptr, alloc_len, align, req_len),
        ptr <= r,
        r + req_len <= ptr + alloc_len,
        (r + req_len) % (align as int) == 0,
{
    let end = ptr + alloc_len;
    let additional = end % align;
    let region_start = ptr + (alloc_len - (additional + req_len));
    proof {
        vstd::arithmetic::div_mod::lemma_fundamental_div_mod(end as int, align as int);
        assert((region_start + req_len) == end - additional);
        let q = end as int / align as int;
        vstd::arithmetic::div_mod::lemma_mod_multiples_basic(q, align as int);
        vstd::arithmetic::mul::lemma_mul_is_commutative(q, align as int);
        assert(end - additional == align * q);
        assert((region_start + req_len) % (align as int) == (q * align) % (align as int));
    }
    region_start
}

/// `val` rounded up past the next multiple of `to`: a value that already is a
/// multiple moves on to the following one.
pub fn round_up_to_multiple_of(val: usize, to: usize) -> (r: usize)
    requires
        to > 0,
        val + to - val % to <= usize::MAX,
    ensures
        r == val + to - val % to,
        r % to == 0,
        val < r <= val + to,
{
    let diff = val % to;
    proof {
        vstd::arithmetic::div_mod::lemma_fundamental_div_mod(val as int, to as int);
        vstd::arithmetic::div_mod::lemma_mod_multiples_basic(val as int / to as int + 1, to as int);
        assert(val + to - diff == to * (val as int / to as int + 1)) by (nonlinear_arith)
            requires
                val == to * (val as int / to as int) + diff,
        ;
    }
    val + (to - diff)
}

/// `val` rounded down to a multiple of `to`.
pub fn round_down_to_multiple_of(val: usize, to: usize) -> (r: usize)
    requires
        to > 0,
    ensures
        r == val - val % to,
        r % to == 0,
        r <= val < r + to,
{
    let diff = val % to;
    proof {
        vstd::arithmetic::div_mod::lemma_fundamental_div_mod(val as int, to as int);
        let q = val as int / to as int;
        vstd::arithmetic::div_mod::lemma_mod_multiples_basic(q, to as int);
        vstd::arithmetic::mul::lemma_mul_is_commutative(q, to as int);
        assert((val - diff) % (to as int) == (q * to) % (to as int));
    }
    val - diff
}

/// The smaller of the two.
pub fn min(left: usize, right: usize) -> (r: usize)
    ensures
        r == if left > right {
            right
        } else {
            left
        },
{
    if left > right {
        right
    } else {
        left
    }
}

/// The number of trailing zero bits of `x` from bit `k` upwards, plus `k`:
/// the index of the lowest set bit at or above `k`, or `usize::BITS` if there
/// is none.
pub open spec fn trailing_zeros_from(x: usize, k: nat) -> nat
    decreases usize::BITS - k,
{
    if k >= usize::BITS {
        usize::BITS as nat
    } else if (x >> k) & 1usize == 1usize {
        k
    } else {
        trailing_zeros_from(x, k + 1)
    }
}

/// The index of the lowest set bit of `x`, or `usize::BITS` when `x` is zero.
pub open spec fn trailing_zeros_spec(x: usize) -> nat {
    trailing_zeros_from(x, 0)
}

/// The index of the lowest set bit of `x`, or `usize::BITS` when `x` is zero.
pub fn trailing_zeros(x: usize) -> (r: u32)
    ensures
        r == trailing_zeros_spec(x),
        r <= usize::BITS,
{
    let mut k: u32 = 0;
    while k < usize::BITS
        invariant
            k <= usize::BITS,
            trailing_zeros_from(x, k as nat) == trailing_zeros_from(x, 0),
        decreases usize::BITS - k,
    {
        if (x >> k) & 1 == 1 {
            return k;
        }
        k = k + 1;
    }
    k
}

/// `trailing_zeros_from` never goes below its start nor above the word width.
pub proof fn lemma_trailing_zeros_from_bounds(x: usize, k: nat)
    requires
        k <= usize::BITS,
    ensures
        k <= trailing_zeros_from(x, k) <= usize::BITS,
    decreases usize::BITS - k,
{
    if k < usize::BITS && (x >> k) & 1usize != 1usize {
        lemma_trailing_zeros_from_bounds(x, k + 1);
    }
}

/// A word whose lowest set bit is not below `k` has nothing but zeros from
/// bit `k` up, when no bit at or above `k` is set.
proof fn lemma_no_bit_from(x: usize, k: nat)
    requires
        k < usize::BITS,
        trailing_zeros_from(x, k) == usize::BITS,
    ensures
        x >> k == 0,
    decreases usize::BITS - k,
{
    let ku = k as usize;
    if k + 1 == usize::BITS {
        assert(ku + 1 == usize::BITS ==> x >> ku <= 1) by (bit_vector);
        assert((x >> ku) & 1usize != 1usize);
        assert(x >> ku <= 1 && (x >> ku) & 1usize != 1usize ==> x >> ku == 0) by (bit_vector);
    } else {
        lemma_no_bit_from(x, k + 1);
        assert(ku + 1 < usize::BITS && x >> (ku + 1) == 0 && (x >> ku) & 1usize != 1usize ==> x >> ku
            == 0) by (bit_vector);
    }
}

/// A non-zero word has a set bit below the word width.
pub proof fn lemma_trailing_zeros_nonzero(x: usize)
    requires
        x != 0,
    ensures
        trailing_zeros_spec(x) < usize::BITS,
{
    lemma_trailing_zeros_from_bounds(x, 0);
    if trailing_zeros_spec(x) == usize::BITS {
        lemma_no_bit_from(x, 0);
        assert(x >> 0usize == x) by (bit_vector);
    }
}

/// The exponent of the least power of two that is at least `size`.
pub open spec fn is_ceil_log2(size: nat, k: nat) -> bool {
    &&& vstd::arithmetic::power2::pow2(k) >= size
    &&& (k == 0 || vstd::arithmetic::power2::pow2((k - 1) as nat) < size)
}

/// The exponent of the least power of two that is at least `size`.
pub fn ceil_log2(size: usize) -> (r: u32)
    requires
        size <= vstd::arithmetic::power2::pow2((usize::BITS - 1) as nat),
    ensures
        is_ceil_log2(size as nat, r as nat),
        r < usize::BITS,
{
    proof {
        vstd::arithmetic::power2::lemma_pow2(0);
        vstd::arithmetic::power::lemma_pow0(2);
    }
    let mut k: u32 = 0;
    let mut p: usize = 1;
    while p < size
        invariant
            p == vstd::arithmetic::power2::pow2(k as nat),
            k < usize::BITS,
            size <= vstd::arithmetic::power2::pow2((usize::BITS - 1) as nat),
            k == 0 || vstd::arithmetic::power2::pow2((k - 1) as nat) < size,
        decreases usize::BITS - k,
    {
        proof {
            vstd::arithmetic::power2::lemma_pow2_unfold((k + 1) as nat);
            if k >= usize::BITS - 1 {
                if k > usize::BITS - 1 {
                    vstd::arithmetic::power2::lemma_pow2_strictly_increases(
                        (usize::BITS - 1) as nat,
                        k as nat,
                    );
                }
                assert(false);
            }
            if k + 1 < usize::BITS - 1 {
                vstd::arithmetic::power2::lemma_pow2_strictly_increases(
                    (k + 1) as nat,
                    (usize::BITS - 1) as nat,
                );
            }
            vstd::arithmetic::power2::lemma2_to64();
            vstd::arithmetic::power2::lemma2_to64_rest();
            assert(vstd::arithmetic::power2::pow2((usize::BITS - 1) as nat) <= usize::MAX);
        }
        p = p * 2;
        k = k + 1;
    }
    k
}

} // verus!
