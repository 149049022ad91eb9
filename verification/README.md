# allocator

A general-purpose memory allocator for Linux whose bookkeeping is verified
with Verus.

Small requests are served from buckets of equally sized elements, one
64 KiB page per bucket node, tracked by bitmaps. The thread cache keeps
lists for the ten buckets of 8 to 4096 bytes; requests from 4097 to 16384
bytes name a bucket the cache does not keep and are not accepted
(`sys::linux::alloc_ok_check` tells). Requests above 16 KiB, and
over-aligned ones, get a mapping of their own, laid out as chunks with
metadata words at both ends. Freed pages go onto a per-thread stack of free
chunks. The crate also holds a binary tree whose nodes live in the memory
they index and carry a red/black colour bit; its insertion recolours and
rotates as its code says, and the contracts state that code's effect rather
than red-black balance, which it does not keep. Last, the reference counts
of a strong/weak shared value.

The library keeps its metadata in a word-addressed model of memory
(`memory::Memory`). It never maps or unmaps memory itself: an allocation that
needs fresh pages says how many bytes to map, and the caller hands the mapped
address to the matching `..._mapped` function; regions to unmap are returned
to the caller.

Layout:

- `src/` — the verified library (`lib.rs` is the entry point; `sys/linux.rs`
  holds the allocation and free paths, `sys/linux/` the per-thread cache and
  bitmap lists, `chunk_ref`, `alloc_ref`, `page_ref` the metadata words,
  `implicit_rb_tree.rs` the tree, `weak_rc.rs` the counts).
- `tests/` — tests of the library on concrete values.
- `app/` — a small program that runs the allocator with real `mmap`/`munmap`
  calls and a thread-local state.
