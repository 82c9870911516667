use std::mem::MaybeUninit;

use os_kernel::allocator::fixed_size_block::{
    block_size_of, list_index, FixedSizeBlockAllocator, BLOCK_SIZES, NUM_BLOCK_SIZES,
};
use os_kernel::allocator::linked_list::{LinkedListAllocator, ListNode};
use os_kernel::allocator::{align_up, heap_pages, is_power_of_two, Layout, HEAP_SIZE, HEAP_START};

fn layout(size: usize, align: usize) -> Layout {
    Layout::from_size_align(size, align).unwrap()
}

fn leaked_memory(bytes: usize) -> &'static mut [MaybeUninit<u8>] {
    Box::leak(vec![MaybeUninit::<u8>::uninit(); bytes].into_boxed_slice())
}

#[test]
fn align_up_rounds_to_next_multiple() {
    assert_eq!(align_up(0, 8), 0);
    assert_eq!(align_up(1, 8), 8);
    assert_eq!(align_up(8, 8), 8);
    assert_eq!(align_up(9, 8), 16);
    assert_eq!(align_up(4097, 4096), 8192);
    assert_eq!(align_up(13, 5), 15);
    assert_eq!(align_up(usize::MAX, 1), usize::MAX);
}

#[test]
fn align_up_is_idempotent() {
    for addr in 0..100usize {
        for align in 1..20usize {
            let once = align_up(addr, align);
            assert_eq!(align_up(once, align), once);
            assert_eq!(once % align, 0);
            assert!(addr <= once && once < addr + align);
        }
    }
}

#[test]
fn power_of_two_check() {
    assert!(!is_power_of_two(0));
    assert!(is_power_of_two(1));
    assert!(is_power_of_two(2));
    assert!(is_power_of_two(4096));
    assert!(!is_power_of_two(3));
    assert!(!is_power_of_two(12));
    assert!(is_power_of_two(1usize << 63));
}

#[test]
fn layout_validity() {
    assert!(Layout::from_size_align(16, 8).is_some());
    assert!(Layout::from_size_align(0, 1).is_some());
    assert!(Layout::from_size_align(16, 0).is_none());
    assert!(Layout::from_size_align(16, 3).is_none());
    assert!(Layout::from_size_align(isize::MAX as usize, 1).is_some());
    assert!(Layout::from_size_align(isize::MAX as usize + 1, 1).is_none());
    assert!(Layout::from_size_align(isize::MAX as usize, 2).is_none());
    let l = layout(24, 8);
    assert_eq!(l.size(), 24);
    assert_eq!(l.align(), 8);
}

#[test]
fn block_sizes_are_the_documented_ones() {
    assert_eq!(NUM_BLOCK_SIZES, 9);
    assert_eq!(BLOCK_SIZES, [8, 16, 32, 64, 128, 256, 512, 1024, 2048]);
    for i in 0..NUM_BLOCK_SIZES {
        assert_eq!(block_size_of(i), BLOCK_SIZES[i]);
    }
}

#[test]
fn list_index_picks_smallest_fitting_class() {
    assert_eq!(list_index(&layout(1, 1)), Some(0));
    assert_eq!(list_index(&layout(8, 8)), Some(0));
    assert_eq!(list_index(&layout(9, 1)), Some(1));
    assert_eq!(list_index(&layout(4, 64)), Some(3));
    assert_eq!(list_index(&layout(100, 8)), Some(4));
    assert_eq!(list_index(&layout(2048, 8)), Some(8));
    assert_eq!(list_index(&layout(0, 2048)), Some(8));
    assert_eq!(list_index(&layout(2049, 8)), None);
    assert_eq!(list_index(&layout(8, 4096)), None);
}

#[test]
fn freed_block_is_handed_out_again() {
    let mut allocator = FixedSizeBlockAllocator::new();
    allocator.init(leaked_memory(16 * 1024));
    let l = layout(24, 8);
    let block = allocator.allocate(&l);
    assert_ne!(block, 0);
    assert!(allocator.deallocate(block, &l));
    assert_eq!(allocator.allocate(&l), block);
}


#[test]
fn free_lists_are_last_in_first_out() {
    let mut allocator = FixedSizeBlockAllocator::new();
    allocator.init(leaked_memory(16 * 1024));
    let l = layout(64, 64);
    let first = allocator.allocate(&l);
    let second = allocator.allocate(&l);
    assert_ne!(first, 0);
    assert_ne!(second, 0);
    assert_ne!(first, second);
    assert!(allocator.deallocate(first, &l));
    assert!(allocator.deallocate(second, &l));
    assert_eq!(allocator.allocate(&l), second);
    assert_eq!(allocator.allocate(&l), first);
}


#[test]
fn size_classes_are_kept_apart() {
    let mut allocator = FixedSizeBlockAllocator::new();
    allocator.init(leaked_memory(16 * 1024));
    let small = allocator.allocate(&layout(8, 8));
    let medium = allocator.allocate(&layout(16, 16));
    assert_ne!(small, 0);
    assert_ne!(medium, 0);
    assert!(allocator.deallocate(small, &layout(8, 8)));
    assert!(allocator.deallocate(medium, &layout(16, 16)));
    assert_eq!(allocator.allocate(&layout(12, 4)), medium);
    assert_eq!(allocator.allocate(&layout(3, 1)), small);
}


#[test]
fn empty_allocator_without_memory_returns_null() {
    let mut allocator = FixedSizeBlockAllocator::new();
    assert_eq!(allocator.allocate(&layout(8, 8)), 0);
    assert_eq!(allocator.allocate(&layout(4096, 8)), 0);
}

#[test]
fn large_blocks_are_left_to_the_fallback_heap() {
    let mut allocator = FixedSizeBlockAllocator::new();
    assert!(!allocator.deallocate(0x10000, &layout(4096, 8)));
    assert_eq!(allocator.allocate(&layout(4096, 8)), 0);
}

#[test]
fn fallback_heap_serves_fresh_blocks() {
    let mut allocator = FixedSizeBlockAllocator::new();
    allocator.init(leaked_memory(64 * 1024));
    let small = allocator.allocate(&layout(100, 8));
    assert_ne!(small, 0);
    assert_eq!(small % 128, 0);
    let other = allocator.allocate(&layout(100, 8));
    assert_ne!(other, 0);
    assert_ne!(other, small);
    let large = allocator.allocate(&layout(5000, 16));
    assert_ne!(large, 0);
    assert_eq!(large % 16, 0);
    assert!(allocator.deallocate(small, &layout(100, 8)));
    assert_eq!(allocator.allocate(&layout(128, 128)), small);
}

#[test]
fn fallback_heap_refuses_when_exhausted() {
    let mut allocator = FixedSizeBlockAllocator::new();
    allocator.init(leaked_memory(4096));
    assert_eq!(allocator.allocate(&layout(8192, 8)), 0);
}

#[test]
fn fallback_allocator_is_reachable() {
    let mut allocator = FixedSizeBlockAllocator::new();
    allocator.init(leaked_memory(4096));
    assert_eq!(allocator.fallback_allocator().size(), 4096);
}

#[test]
fn list_node_addresses() {
    let node = ListNode::new(0x1000, 0x200);
    assert_eq!(node.start_addr(), 0x1000);
    assert_eq!(node.end_addr(), 0x1200);
}

#[test]
fn linked_list_allocator_starts_empty() {
    let allocator = LinkedListAllocator::new();
    assert!(allocator.free_regions().is_empty());
}

#[test]
fn linked_list_allocator_adds_regions_at_the_front() {
    let mut allocator = LinkedListAllocator::new();
    allocator.init(0x10000, 0x1000);
    assert_eq!(allocator.free_regions(), vec![(0x10000, 0x1000)]);
    allocator.add_free_region(0x20000, 64);
    assert_eq!(allocator.free_regions(), vec![(0x20000, 64), (0x10000, 0x1000)]);
}

#[test]
fn heap_constants() {
    assert_eq!(HEAP_START, 0x4444_4444_0000);
    assert_eq!(HEAP_SIZE, 100 * 1024);
}

#[test]
fn heap_pages_of_the_kernel_heap() {
    let pages = heap_pages(HEAP_START, HEAP_SIZE as u64);
    assert_eq!(pages.len(), 25);
    for (i, page) in pages.iter().enumerate() {
        assert_eq!(*page, HEAP_START + 4096 * i as u64);
    }
}

#[test]
fn heap_pages_of_an_unaligned_heap() {
    assert_eq!(heap_pages(0x1ff0, 0x20), vec![0x1000, 0x2000]);
    assert_eq!(heap_pages(0x1000, 1), vec![0x1000]);
    assert_eq!(heap_pages(0x1fff, 1), vec![0x1000]);
    assert_eq!(heap_pages(0x1fff, 2), vec![0x1000, 0x2000]);
}

#[test]
fn handed_out_block_leaves_the_free_list() {
    let mut allocator = FixedSizeBlockAllocator::new();
    allocator.init(leaked_memory(16 * 1024));
    let l = layout(32, 32);
    let block = allocator.allocate(&l);
    assert_ne!(block, 0);
    assert!(allocator.deallocate(block, &l));
    assert_eq!(allocator.allocate(&l), block);
    let fresh = allocator.allocate(&l);
    assert_ne!(fresh, 0);
    assert!(fresh + 32 <= block || block + 32 <= fresh);
}


#[test]
fn allocate_then_deallocate_restores_the_free_list() {
    let mut allocator = FixedSizeBlockAllocator::new();
    allocator.init(leaked_memory(16 * 1024));
    let l = layout(256, 8);
    let first = allocator.allocate(&l);
    let second = allocator.allocate(&l);
    assert!(allocator.deallocate(first, &l));
    assert!(allocator.deallocate(second, &l));
    let block = allocator.allocate(&l);
    assert_eq!(block, second);
    assert!(allocator.deallocate(block, &l));
    assert_eq!(allocator.allocate(&l), second);
    assert_eq!(allocator.allocate(&l), first);
}


#[test]
fn too_short_memory_gives_an_empty_fallback_heap() {
    let mut allocator = FixedSizeBlockAllocator::new();
    assert_eq!(allocator.fallback_allocator().size(), 0);
    allocator.init(leaked_memory(8));
    assert_eq!(allocator.fallback_allocator().size(), 0);
    assert_eq!(allocator.allocate(&layout(8, 8)), 0);
    assert_eq!(allocator.allocate(&layout(4096, 8)), 0);
}

#[test]
fn fallback_blocks_lie_in_the_heap_and_apart() {
    let memory = leaked_memory(32 * 1024);
    let bottom = memory.as_ptr() as usize;
    let mut allocator = FixedSizeBlockAllocator::new();
    allocator.init(memory);
    let mut blocks: Vec<(usize, usize)> = Vec::new();
    for size in [8usize, 100, 3000, 2048, 5000, 64] {
        let l = layout(size, 8);
        let block = allocator.allocate(&l);
        assert_ne!(block, 0);
        let taken = if size <= 2048 { size.next_power_of_two().max(8) } else { size };
        assert!(bottom <= block && block + taken <= bottom + 32 * 1024);
        for &(other, other_size) in &blocks {
            assert!(block + taken <= other || other + other_size <= block);
        }
        blocks.push((block, taken));
    }
}

#[test]
fn heap_pages_in_the_upper_half() {
    assert_eq!(
        heap_pages(0xffff_ffff_ffff_e800, 0x1800),
        vec![0xffff_ffff_ffff_e000, 0xffff_ffff_ffff_f000]
    );
    assert_eq!(heap_pages(0xffff_8000_0000_0000, 1), vec![0xffff_8000_0000_0000]);
}
