# os_kernel

The verified core of a small x86_64 kernel's memory management and
interrupt set-up.

- `src/allocator.rs`: where the heap lies, the pages it needs mapped
  (`heap_pages`), `align_up`, and the `Layout` of a request.
- `src/allocator/fixed_size_block.rs`: the fixed-size-block allocator. Each
  of the nine block sizes has a free list of block addresses; requests that
  fit no block size, and fresh blocks, come from the `linked_list_allocator`
  heap.
- `src/allocator/linked_list.rs`: the free-region list of a linked-list
  allocator.
- `src/interrupts.rs`: the interrupt vectors of the chained PICs and the
  decoding of keyboard scancodes with `pc_keyboard`.
- `app/`: the kernel itself: entry point, page tables, frame allocation,
  the global allocator, and the interrupt handlers.
