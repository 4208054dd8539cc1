use rsbmalloc::layout::Layout;
use rsbmalloc::{AllocStep, CHUNK_SIZE, DeallocStep, RSBMalloc, ReallocStep};

/// Drives one small allocation to completion, mapping chunks at fresh
/// addresses handed out by `next_chunk`.
fn alloc_small(m: &mut RSBMalloc, layout: Layout, next_chunk: &mut usize) -> usize {
    match m.allocate(layout) {
        AllocStep::Done { ptr } => ptr,
        AllocStep::NeedChunk { class, chunk_layout } => {
            assert_eq!(chunk_layout.size, CHUNK_SIZE);
            let base = *next_chunk;
            *next_chunk += CHUNK_SIZE;
            m.provide_chunk(class, base)
        }
        other => panic!("small request was not served: {:?}", other),
    }
}

#[test]
fn serves_small_requests_nonnull_and_aligned() {
    let mut m = RSBMalloc::new();
    let mut next_chunk: usize = 0x100000;
    for align in [1usize, 2, 4, 8, 16, 64, 512, 4096] {
        let layout = Layout::from_size_align(100, align).unwrap();
        let p = alloc_small(&mut m, layout, &mut next_chunk);
        assert!(p != 0);
        assert_eq!(p % align, 0);
    }
}

#[test]
fn rejects_alignment_over_the_cap() {
    let mut m = RSBMalloc::new();
    let layout = Layout::from_size_align(16, 8192).unwrap();
    assert_eq!(m.allocate(layout), AllocStep::Fail);
    assert_eq!(RSBMalloc::realloc_plan(layout, 64), ReallocStep::Fail);
}

#[test]
fn rejects_zero_size() {
    let mut m = RSBMalloc::new();
    let layout = Layout::from_size_align(0, 8).unwrap();
    assert_eq!(m.allocate(layout), AllocStep::Fail);
}

#[test]
fn large_requests_go_to_the_page_allocator() {
    let mut m = RSBMalloc::new();
    let layout = Layout::from_size_align(CHUNK_SIZE + 1, 8).unwrap();
    assert_eq!(m.allocate(layout), AllocStep::Large { layout });
    assert_eq!(m.dealloc(0x100000, layout), DeallocStep::Large { layout });
}

#[test]
fn no_two_live_blocks_overlap() {
    let mut m = RSBMalloc::new();
    let mut next_chunk: usize = 0x100000;
    let layout = Layout::from_size_align(48, 8).unwrap();
    let stride = 64;
    let mut held: Vec<usize> = Vec::new();
    for _ in 0..300 {
        let p = alloc_small(&mut m, layout, &mut next_chunk);
        for q in &held {
            assert!(p + stride <= *q || *q + stride <= p, "blocks overlap");
        }
        held.push(p);
    }
}

#[test]
fn freshly_freed_block_is_reused_first() {
    let mut m = RSBMalloc::new();
    let mut next_chunk: usize = 0x100000;
    let layout = Layout::from_size_align(512, 8).unwrap();
    let mut blocks: Vec<usize> = Vec::new();
    for _ in 0..256 {
        blocks.push(alloc_small(&mut m, layout, &mut next_chunk));
    }
    for i in 0..128 {
        assert_eq!(m.dealloc(blocks[i], layout), DeallocStep::Done);
    }
    // The free list is a stack: the most recently freed block comes back
    // first, then the one freed before it, and so on.
    for i in (0..128).rev() {
        let p = alloc_small(&mut m, layout, &mut next_chunk);
        assert_eq!(p, blocks[i]);
    }
    for b in blocks {
        assert_eq!(m.dealloc(b, layout), DeallocStep::Done);
    }
}

#[test]
fn chunk_exhaustion_asks_for_a_new_chunk() {
    let mut m = RSBMalloc::new();
    let mut next_chunk: usize = 0x100000;
    let layout = Layout::from_size_align(512, 8).unwrap();
    // A chunk of 64 KiB holds exactly 128 slots of 512 bytes.
    let first = alloc_small(&mut m, layout, &mut next_chunk);
    for i in 1..128usize {
        let p = alloc_small(&mut m, layout, &mut next_chunk);
        assert_eq!(p, first + i * 512);
    }
    match m.allocate(layout) {
        AllocStep::NeedChunk { class, chunk_layout } => {
            assert_eq!(class, 7);
            assert_eq!(chunk_layout.size, CHUNK_SIZE);
            assert_eq!(chunk_layout.align, 512);
        }
        other => panic!("expected a chunk request, got {:?}", other),
    }
}

#[test]
fn realloc_moves_small_blocks_and_copies_the_overlap() {
    // Growing 100 i32 values to 20 000 leaves the small classes, but the
    // old block is small, so the block moves and 400 bytes follow it.
    let layout = Layout::from_size_align(400, 4).unwrap();
    match RSBMalloc::realloc_plan(layout, 80_000) {
        ReallocStep::AllocCopyFree { new_layout, copy_len } => {
            assert_eq!(new_layout.size, 80_000);
            assert_eq!(new_layout.align, 4);
            assert_eq!(copy_len, 400);
        }
        other => panic!("expected a moving reallocation, got {:?}", other),
    }
    // Shrinking to 50 i32 values copies only what survives.
    let big = Layout::from_size_align(80_000, 4).unwrap();
    match RSBMalloc::realloc_plan(big, 200) {
        ReallocStep::AllocCopyFree { new_layout, copy_len } => {
            assert_eq!(new_layout.size, 200);
            assert_eq!(copy_len, 200);
        }
        other => panic!("expected a moving reallocation, got {:?}", other),
    }
}

#[test]
fn realloc_beyond_the_classes_stays_with_the_page_allocator() {
    let layout = Layout::from_size_align(100_000, 8).unwrap();
    assert_eq!(RSBMalloc::realloc_plan(layout, 200_000), ReallocStep::PageRealloc);
    assert_eq!(RSBMalloc::realloc_plan(layout, usize::MAX), ReallocStep::Fail);
}

#[test]
fn realloc_flow_grows_shrinks_and_frees() {
    let mut m = RSBMalloc::new();
    let mut next_chunk: usize = 0x100000;
    // 100 numbers of four bytes each.
    let small = Layout::from_size_align(400, 4).unwrap();
    let p1 = alloc_small(&mut m, small, &mut next_chunk);
    // Growing to 20 000 numbers moves the block to the page allocator.
    let (grown, copy1) = match RSBMalloc::realloc_plan(small, 80_000) {
        ReallocStep::AllocCopyFree { new_layout, copy_len } => (new_layout, copy_len),
        other => panic!("expected a moving reallocation, got {:?}", other),
    };
    assert_eq!(copy1, 400);
    assert_eq!(m.allocate(grown), AllocStep::Large { layout: grown });
    assert_eq!(m.dealloc(p1, small), DeallocStep::Done);
    // Shrinking to 50 numbers moves it back into a bin.
    let (shrunk, copy2) = match RSBMalloc::realloc_plan(grown, 200) {
        ReallocStep::AllocCopyFree { new_layout, copy_len } => (new_layout, copy_len),
        other => panic!("expected a moving reallocation, got {:?}", other),
    };
    assert_eq!(copy2, 200);
    let p2 = alloc_small(&mut m, shrunk, &mut next_chunk);
    assert!(p2 != 0);
    assert_eq!(m.dealloc(0x4000_0000, grown), DeallocStep::Large { layout: grown });
    assert_eq!(m.dealloc(p2, shrunk), DeallocStep::Done);
}
