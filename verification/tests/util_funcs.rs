use allocator::util::{align_unaligned_ptr_up_to, ceil_log2, min, round_down_to_multiple_of, round_up_to_multiple_of, trailing_zeros};

#[test]
fn round_up_moves_past_multiples() {
    assert_eq!(round_up_to_multiple_of(10, 8), 16);
    assert_eq!(round_up_to_multiple_of(16, 8), 24);
    assert_eq!(round_up_to_multiple_of(0, 8), 8);
}

#[test]
fn round_down_values() {
    assert_eq!(round_down_to_multiple_of(10, 8), 8);
    assert_eq!(round_down_to_multiple_of(16, 8), 16);
    assert_eq!(round_down_to_multiple_of(70000, 65536), 65536);
}

#[test]
fn min_values() {
    assert_eq!(min(3, 9), 3);
    assert_eq!(min(9, 3), 3);
    assert_eq!(min(4, 4), 4);
}

#[test]
fn trailing_zeros_values() {
    assert_eq!(trailing_zeros(0), usize::BITS);
    assert_eq!(trailing_zeros(1), 0);
    assert_eq!(trailing_zeros(8), 3);
    assert_eq!(trailing_zeros(0b1010000), 4);
}

#[test]
fn ceil_log2_values() {
    assert_eq!(ceil_log2(1), 0);
    assert_eq!(ceil_log2(2), 1);
    assert_eq!(ceil_log2(3), 2);
    assert_eq!(ceil_log2(100), 7);
    assert_eq!(ceil_log2(128), 7);
    assert_eq!(ceil_log2(129), 8);
}

#[test]
fn aligned_region_ends_on_boundary() {
    // 2 pages mapped at 0x11000; the last page-aligned 0x10000 bytes end at 0x30000
    let r = align_unaligned_ptr_up_to(0x11000, 0x20000, 0x10000, 0x10000);
    assert_eq!(r, 0x20000);
    let r2 = align_unaligned_ptr_up_to(0x10000, 0x20000, 0x10000, 0x10000);
    assert_eq!(r2, 0x20000);
}
