use kernel_memory::fixed_size_block::FixedSizeBlockAllocator;
use kernel_memory::heap::Allocator;
use std::mem::MaybeUninit;

fn allocator_with_heap(size: usize) -> FixedSizeBlockAllocator {
    let mut a = FixedSizeBlockAllocator::new();
    let mem: &'static mut [MaybeUninit<u8>] =
        Box::leak(vec![MaybeUninit::uninit(); size].into_boxed_slice());
    a.init(mem);
    a
}

#[test]
fn empty_fallback_fails_every_fresh_allocation() {
    let mut a = FixedSizeBlockAllocator::new();
    assert_eq!(a.allocate(8, 8), None);
    assert_eq!(a.allocate(5000, 8), None);
}

#[test]
fn class_blocks_are_aligned_to_their_class() {
    let mut a = allocator_with_heap(64 * 1024);
    for (size, align, class) in [(1usize, 1usize, 8usize), (24, 8, 32), (100, 4, 128), (2000, 16, 2048)] {
        let p = a.allocate(size, align).unwrap();
        assert_ne!(p, 0);
        assert_eq!(p % class, 0, "size {} align {}", size, align);
    }
}

#[test]
fn freed_block_is_handed_out_again_first() {
    let mut a = allocator_with_heap(16 * 1024);
    let p = a.allocate(40, 8).unwrap();
    let q = a.allocate(40, 8).unwrap();
    assert_ne!(p, q);
    assert!(a.deallocate(p, 40, 8));
    assert_eq!(a.allocate(40, 8), Some(p));
    assert!(a.deallocate(q, 40, 8));
    assert!(a.deallocate(p, 40, 8));
    assert_eq!(a.allocate(64, 64), Some(p));
    assert_eq!(a.allocate(33, 1), Some(q));
}

#[test]
fn free_lists_are_kept_per_class() {
    let mut a = allocator_with_heap(16 * 1024);
    let small = a.allocate(8, 8).unwrap();
    assert!(a.deallocate(small, 8, 8));
    let large = a.allocate(16, 8).unwrap();
    assert_ne!(large, small);
    assert_eq!(a.allocate(8, 8), Some(small));
}

#[test]
fn oversized_block_goes_back_to_the_fallback() {
    let mut a = allocator_with_heap(64 * 1024);
    let p = a.allocate(5000, 8).unwrap();
    assert!(!a.deallocate(p, 5000, 8));
}

#[test]
fn heap_of_4096_bytes_serves_eight_byte_blocks_lifo() {
    let mut a = allocator_with_heap(4096);
    let mut blocks = Vec::new();
    for _ in 0..300 {
        if let Some(p) = a.allocate(8, 8) {
            blocks.push(p);
        }
    }
    // The fallback allocator spends at least 16 bytes on a block.
    assert!(blocks.len() >= 250);
    let mut sorted = blocks.clone();
    sorted.sort();
    sorted.dedup();
    assert_eq!(sorted.len(), blocks.len());
    assert!(blocks.iter().all(|p| p % 8 == 0));
    for &p in &blocks {
        assert!(a.deallocate(p, 8, 8));
    }
    assert_eq!(a.allocate(8, 8), Some(*blocks.last().unwrap()));
}

#[test]
fn request_above_largest_class_is_served_unrounded() {
    let mut a = allocator_with_heap(32 * 1024 * 1024);
    let before = a.fallback_allocator.used();
    let p = a.allocate(5000, 8).unwrap();
    assert_eq!(p % 8, 0);
    assert_eq!(a.fallback_allocator.used() - before, 5000);
    let q = a.allocate(5000, 4096).unwrap();
    assert_eq!(q % 4096, 0);
}

#[test]
fn small_heap_runs_out_instead_of_overlapping() {
    let mut a = allocator_with_heap(64);
    let bottom = a.fallback_allocator.bottom().addr();
    let top = a.fallback_allocator.top().addr();
    let mut got = Vec::new();
    let mut failed = false;
    for _ in 0..4 {
        match a.allocate(64, 64) {
            Some(p) => got.push(p),
            None => {
                failed = true;
                break;
            }
        }
    }
    assert!(failed);
    assert!(got.len() <= 1);
    for &p in &got {
        assert!(p >= bottom && p + 64 <= top);
    }
}

#[test]
fn reallocate_moves_to_new_block_and_frees_old() {
    let mut a = allocator_with_heap(16 * 1024);
    let p = a.allocate(100, 8).unwrap();
    let r = a.reallocate(p, 100, 8, 20).unwrap();
    assert_ne!(r.new_addr, p);
    assert_eq!(r.new_addr % 32, 0);
    assert_eq!(r.copy_len, 20);
    assert!(r.old_kept);
    assert_eq!(a.allocate(100, 8), Some(p));
}

#[test]
fn reallocate_to_larger_size_copies_old_size() {
    let mut a = allocator_with_heap(64 * 1024);
    let p = a.allocate(16, 8).unwrap();
    let r = a.reallocate(p, 16, 8, 3000).unwrap();
    assert_eq!(r.copy_len, 16);
    assert!(r.old_kept);
    assert_eq!(r.new_addr % 8, 0);
    let back = a.reallocate(r.new_addr, 3000, 8, 10).unwrap();
    assert_eq!(back.new_addr, p);
    assert_eq!(back.copy_len, 10);
    assert!(!back.old_kept);
}

#[test]
fn failed_reallocate_changes_nothing() {
    let mut a = allocator_with_heap(64);
    let p = a.allocate(8, 8).unwrap();
    assert!(a.reallocate(p, 8, 8, 4096).is_none());
    assert!(a.deallocate(p, 8, 8));
    assert_eq!(a.allocate(8, 8), Some(p));
}

#[test]
fn init_hands_the_memory_to_the_fallback() {
    let a = allocator_with_heap(4096);
    assert_eq!(a.fallback_allocator.used(), 0);
    let size = a.fallback_allocator.size();
    assert!(size <= 4096 && 4096 < size + 16);
}

#[test]
fn miss_takes_one_class_block_from_the_fallback() {
    let mut a = allocator_with_heap(16 * 1024);
    let before = a.fallback_allocator.used();
    let p = a.allocate(100, 8).unwrap();
    assert_eq!(a.fallback_allocator.used() - before, 128);
    assert_eq!(p % 128, 0);
    let bottom = a.fallback_allocator.bottom().addr();
    assert!(p >= bottom && p + 128 <= bottom + a.fallback_allocator.size());
}

#[test]
fn free_blocks_are_known() {
    let mut a = allocator_with_heap(16 * 1024);
    let p = a.allocate(8, 8).unwrap();
    let q = a.allocate(8, 8).unwrap();
    assert!(!a.holds_free_block(p));
    assert!(a.deallocate(p, 8, 8));
    assert!(a.holds_free_block(p));
    assert!(!a.holds_free_block(q));
    assert_eq!(a.allocate(8, 8), Some(p));
    assert!(!a.holds_free_block(p));
}

#[test]
fn huge_alignment_fails_without_panicking() {
    let mut a = allocator_with_heap(16 * 1024);
    assert_eq!(a.allocate(8, 1 << 48), None);
    assert_eq!(a.allocate(8, 1 << 63), None);
    assert_eq!(a.allocate(3000, 1 << 40), None);
    assert!(a.allocate(3000, 8).is_some());
}

#[test]
fn full_small_heap_refuses_and_keeps_lists() {
    let mut a = allocator_with_heap(64);
    let mut got = 0;
    while a.allocate(16, 8).is_some() {
        got += 1;
        assert!(got <= 4);
    }
    assert!(a.fallback_allocator.used() <= a.fallback_allocator.size());
    assert!(!a.holds_free_block(0));
    assert_eq!(a.allocate(16, 8), None);
}
