use allocator::chunk_ref::meta::ChunkMeta;
use allocator::chunk_ref::ChunkRef;
use allocator::memory::Memory;

#[test]
fn meta_new_sets_only_flags() {
    let m = ChunkMeta::new(4096, true, false, true);
    assert_eq!(m.into_raw(), 5);
    assert!(m.is_first());
    assert!(!m.is_last());
    assert!(m.is_free());
    assert_eq!(m.size(), 0);
}

#[test]
fn meta_empty_is_zero() {
    let m = ChunkMeta::empty();
    assert_eq!(m.into_raw(), 0);
    assert!(!m.is_first() && !m.is_last() && !m.is_free());
}

#[test]
fn meta_set_size_keeps_flags() {
    let m = ChunkMeta::new(0, true, true, false).set_size(4096);
    assert_eq!(m.size(), 4096);
    assert!(m.is_first());
    assert!(m.is_last());
    assert!(!m.is_free());
    assert_eq!(m.into_raw(), 4096 | 3);
}

#[test]
fn meta_set_size_ors_unaligned_bits() {
    // the size bits are or-ed in: low bits of an unaligned size land in the flags
    let m = ChunkMeta::empty().set_size(4097);
    assert_eq!(m.size(), 4096);
    assert!(m.is_first());
}

#[test]
fn meta_flag_setters_toggle_one_flag() {
    let m = ChunkMeta::from_raw(8192 | 7);
    let a = m.set_first(false);
    assert_eq!(a.into_raw(), 8192 | 6);
    let b = m.set_last(false);
    assert_eq!(b.into_raw(), 8192 | 5);
    let c = m.set_free(false);
    assert_eq!(c.into_raw(), 8192 | 3);
    let d = ChunkMeta::from_raw(8192).set_free(true);
    assert_eq!(d.into_raw(), 8192 | 4);
    assert_eq!(d.size(), 8192);
}

#[test]
fn chunk_setup_writes_both_ends() {
    let mut mem = Memory::new();
    let mut c = ChunkRef::new_start(0x1000);
    let meta = ChunkMeta::empty().set_size(64).set_first(true);
    c.setup(&mut mem, meta);
    assert_eq!(mem.read(0x1000), 65);
    let w = std::mem::size_of::<usize>();
    assert_eq!(mem.read(0x1000 + 64 - w), 65);
    assert_eq!(c.read_size(&mem), 64);
    assert!(c.is_first(&mem));
    assert!(!c.is_last(&mem));
    c.set_free(&mut mem, true);
    assert!(c.is_free(&mem));
    assert_eq!(mem.read(0x1000), 69);
}

#[test]
fn chunk_end_refers_back_to_start() {
    let c = ChunkRef::new_start(0x2000);
    let end = c.into_end(256);
    assert_eq!(end.into_raw(), 0x2100);
    let start = end.into_start(256);
    assert_eq!(start.into_raw(), 0x2000);
    let w = std::mem::size_of::<usize>();
    assert_eq!(ChunkRef::new_start(0x2000).into_content_start(), 0x2000 + w);
}
