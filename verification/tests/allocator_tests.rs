use kernel_core::allocator::align_up;
use kernel_core::allocator::bump::BumpAllocator;
use kernel_core::allocator::fixed_size_block::{list_index, FixedSizeBlockAllocator};
use kernel_core::allocator::linked_list::LinkedListAllocator;

#[test]
fn align_up_rounds_to_next_multiple() {
    assert_eq!(align_up(5, 8), 8);
    assert_eq!(align_up(16, 16), 16);
    assert_eq!(align_up(17, 16), 32);
    assert_eq!(align_up(0, 4096), 0);
    assert_eq!(align_up(1, 1), 1);
    assert_eq!(align_up(4097, 2048), 6144);
}

#[test]
fn size_class_selection_picks_smallest_fitting_class() {
    assert_eq!(list_index(8, 1), Some(0));
    assert_eq!(list_index(1, 1), Some(0));
    assert_eq!(list_index(9, 1), Some(1));
    assert_eq!(list_index(16, 8), Some(1));
    assert_eq!(list_index(1, 32), Some(2));
    assert_eq!(list_index(100, 64), Some(4));
    assert_eq!(list_index(2000, 1), Some(8));
    assert_eq!(list_index(2048, 2048), Some(8));
    assert_eq!(list_index(2049, 1), None);
    assert_eq!(list_index(1, 4096), None);
}

#[test]
fn bump_allocates_monotonically_and_resets_only_on_full_drain() {
    let mut bump = BumpAllocator::new();
    bump.init(1000, 512);
    let a = bump.allocate(100, 4);
    assert_eq!(a, Some(1000));
    let b = bump.allocate(50, 8);
    assert_eq!(b, Some(1104));
    // one free does not reclaim: the cursor keeps marching
    bump.deallocate(1000, 100, 4);
    let c = bump.allocate(10, 1);
    assert_eq!(c, Some(1154));
    // draining every live allocation resets the cursor to the start
    bump.deallocate(1104, 50, 8);
    bump.deallocate(1154, 10, 1);
    let d = bump.allocate(8, 1);
    assert_eq!(d, Some(1000));
}

#[test]
fn bump_fails_when_region_exhausted() {
    let mut bump = BumpAllocator::new();
    bump.init(0x1000, 64);
    assert_eq!(bump.allocate(65, 1), None);
    assert_eq!(bump.allocate(64, 1), Some(0x1000));
    assert_eq!(bump.allocate(1, 1), None);
}

#[test]
fn first_fit_splits_and_coalescing_restores_the_region() {
    let mut heap = LinkedListAllocator::new();
    heap.init(4096, 256);
    let a = heap.allocate(64, 1).unwrap();
    let b = heap.allocate(64, 1).unwrap();
    let c = heap.allocate(128, 1).unwrap();
    assert_eq!(a, 4096);
    assert_eq!(b, 4160);
    assert_eq!(c, 4224);
    // exhausted: allocation failure is reported, never a crash
    assert_eq!(heap.allocate(1, 1), None);
    // free in an order that merges left and right neighbours
    heap.deallocate(b, 64, 1);
    heap.deallocate(a, 64, 1);
    heap.deallocate(c, 128, 1);
    // the whole region is one region again
    assert_eq!(heap.allocate(256, 1), Some(4096));
}

#[test]
fn first_fit_respects_alignment() {
    let mut heap = LinkedListAllocator::new();
    heap.init(4100, 1000);
    let a = heap.allocate(16, 64).unwrap();
    assert_eq!(a % 64, 0);
    assert_eq!(a, 4160);
    // the unaligned front stub is still usable
    assert_eq!(heap.allocate(60, 4), Some(4100));
}

#[test]
fn fixed_size_block_serves_classes_and_reuses_freed_blocks() {
    let mut heap = FixedSizeBlockAllocator::new();
    heap.init(4096, 4096);
    // every first touch of a class falls back for a fresh class block
    let a1 = heap.allocate(8, 1);
    assert_eq!(a1, Some(4096));
    let a2 = heap.allocate(16, 1);
    assert_eq!(a2, Some(4112));
    let a3 = heap.allocate(8, 1);
    assert_eq!(a3, Some(4104));
    // 2000 bytes still fits the largest class boundary: it is served
    // by the fallback as one fresh 2048-byte class block
    let a4 = heap.allocate(2000, 1);
    assert_eq!(a4, Some(6144));
    // freed class blocks park on their class list...
    heap.deallocate(4096, 8, 1);
    heap.deallocate(4104, 8, 1);
    // ...and the next same-class request reuses one of them without
    // growing the backing region
    let r5 = heap.allocate(8, 1);
    assert_eq!(r5, Some(4104));
    let r6 = heap.allocate(8, 1);
    assert_eq!(r6, Some(4096));
}

#[test]
fn fixed_size_block_delegates_oversized_requests_and_coalesces_them() {
    let mut heap = FixedSizeBlockAllocator::new();
    heap.init(8192, 16384);
    // beyond the largest class: the request goes to the fallback as is
    let a = heap.allocate(3000, 1);
    assert_eq!(a, Some(8192));
    // oversized frees return to the coalescing fallback, so the whole
    // region can be handed out again in one piece
    heap.deallocate(8192, 3000, 1);
    assert_eq!(heap.allocate(16384, 1), Some(8192));
}

#[test]
fn fixed_size_block_reports_exhaustion() {
    let mut heap = FixedSizeBlockAllocator::new();
    heap.init(4096, 128);
    assert_eq!(heap.allocate(3000, 1), None);
    assert_eq!(heap.allocate(64, 1), Some(4096));
    // a class miss that the fallback cannot serve fails cleanly
    assert_eq!(heap.allocate(128, 1), None);
}
