use rsbmalloc::layout::Layout;
use rsbmalloc::page_allocator::{PageAllocator, PageReallocStep};

const PAGE: usize = 4096;

#[test]
fn requests_round_to_whole_pages() {
    let pa = PageAllocator::new(PAGE);
    let l = Layout::from_size_align(100, 8).unwrap();
    let mapped = pa.alloc_layout(l).unwrap();
    assert_eq!(mapped.size, PAGE);
    assert_eq!(mapped.align, PAGE);
    let l = Layout::from_size_align(PAGE + 1, 8).unwrap();
    let mapped = pa.alloc_layout(l).unwrap();
    assert_eq!(mapped.size, 2 * PAGE);
    assert_eq!(pa.dealloc_layout(l).unwrap(), mapped);
}

#[test]
fn stronger_alignments_survive_rounding() {
    let pa = PageAllocator::new(PAGE);
    let l = Layout::from_size_align(100, 16384).unwrap();
    let mapped = pa.alloc_layout(l).unwrap();
    assert_eq!(mapped.align, 16384);
    assert_eq!(mapped.size, 16384);
}

#[test]
fn growing_a_region_extends_at_its_end() {
    let pa = PageAllocator::new(PAGE);
    let ptr: usize = 0x4000_0000;
    let mib = 1 << 20;
    let l = Layout::from_size_align(mib, 8).unwrap();
    match pa.realloc_plan(ptr, l, 4 * mib) {
        PageReallocStep::Grow { hint, extend_len, full_layout, copy_len, old_len } => {
            assert_eq!(hint, ptr + mib);
            assert_eq!(extend_len, 3 * mib);
            assert_eq!(full_layout.size, 4 * mib);
            assert_eq!(full_layout.align, PAGE);
            assert_eq!(copy_len, mib);
            assert_eq!(old_len, mib);
        }
        other => panic!("expected growth, got {:?}", other),
    }
}

#[test]
fn shrinking_a_region_keeps_it_and_trims_the_tail() {
    let pa = PageAllocator::new(PAGE);
    let ptr: usize = 0x4000_0000;
    let mib = 1 << 20;
    let l = Layout::from_size_align(mib, 8).unwrap();
    match pa.realloc_plan(ptr, l, 256 * 1024) {
        PageReallocStep::Keep { unmap_at, unmap_len } => {
            assert_eq!(unmap_at, ptr + 256 * 1024);
            assert_eq!(unmap_len, mib - 256 * 1024);
        }
        other => panic!("expected the region to be kept, got {:?}", other),
    }
    // A new size within the same pages trims nothing.
    let l = Layout::from_size_align(100, 8).unwrap();
    match pa.realloc_plan(ptr, l, 200) {
        PageReallocStep::Keep { unmap_at, unmap_len } => {
            assert_eq!(unmap_at, ptr + PAGE);
            assert_eq!(unmap_len, 0);
        }
        other => panic!("expected the region to be kept, got {:?}", other),
    }
}

#[test]
fn unrepresentable_reallocations_fail_without_touching_the_block() {
    let pa = PageAllocator::new(PAGE);
    let l = Layout::from_size_align(100, 8).unwrap();
    assert_eq!(pa.realloc_plan(0x4000_0000, l, usize::MAX), PageReallocStep::Fail);
}
