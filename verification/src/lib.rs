//! A binned memory allocator core: size-class dispatch, per-bin free-list
//! and bump-cursor bookkeeping, page-allocator planning, and thread-cache
//! hashing, all stated over plain addresses and verified.
//!
//! Small requests are served from one bin per power-of-two size class;
//! requests beyond the largest class go to the page allocator. The facade
//! here decides everything — which bin serves a request, which address
//! comes back, what a refill or a reallocation must do — while the caller
//! that owns real memory maps chunks and performs the copies the returned
//! steps call for.

use vstd::prelude::*;

pub mod bin;
pub mod classes;
pub mod layout;
pub mod page_allocator;
pub mod shim;
pub mod thread_cache;

verus! {

use crate::bin::{Bin, bin_alloc_rel, bin_dealloc_rel, ranges_disjoint};
use crate::classes::{
    NUM_CLASSES,
    class_align,
    class_align_of,
    class_stride,
    class_stride_of,
    lemma_bin_index_fits,
    lemma_class_facts,
    spec_bin_index,
};
use crate::layout::{Layout, lemma_mod_divides_transfer, lemma_pow2_divides, round_up};
use vstd::arithmetic::div_mod::lemma_fundamental_div_mod;

/// Size of every chunk a bin carves into slots.
pub const CHUNK_SIZE: usize = 0x10000;

/// Largest alignment the allocator accepts; larger requests are rejected.
pub const MAX_ALIGN: usize = 0x1000;

/// The smaller of two machine words.
pub open spec fn min_usize_spec(a: usize, b: usize) -> usize {
    if a <= b {
        a
    } else {
        b
    }
}

/// One bin per size class, in class order.
pub struct Bins {
    pub bins: Vec<Bin>,
}

impl Bins {
    /// Every class has its bin, carrying that class's stride and alignment.
    pub open spec fn wf(self) -> bool {
        &&& self.bins@.len() == NUM_CLASSES
        &&& forall|i: int| 0 <= i < NUM_CLASSES ==> (#[trigger] self.bins@[i]).wf()
        &&& forall|i: int|
            0 <= i < NUM_CLASSES ==> (#[trigger] self.bins@[i]).slot_size == class_stride(i)
        &&& forall|i: int|
            0 <= i < NUM_CLASSES ==> (#[trigger] self.bins@[i]).slot_align == class_align(i)
    }

    /// A bin that owns nothing yet.
    pub open spec fn bin_is_empty(b: Bin) -> bool {
        &&& b.free@.len() == 0
        &&& b.live@ == Set::<usize>::empty()
        &&& b.chunks@.len() == 0
        &&& b.cursor_ptr == 0
        &&& b.cursor_len == 0
    }

    /// Builds the fifteen empty bins.
    pub fn new() -> (r: Bins)
        ensures
            r.wf(),
            forall|i: int| 0 <= i < NUM_CLASSES ==> Bins::bin_is_empty(#[trigger] r.bins@[i]),
    {
        let mut v: Vec<Bin> = Vec::new();
        let mut i: usize = 0;
        while i < NUM_CLASSES
            invariant
                i <= NUM_CLASSES,
                v@.len() == i,
                forall|j: int| 0 <= j < i ==> (#[trigger] v@[j]).wf(),
                forall|j: int| 0 <= j < i ==> (#[trigger] v@[j]).slot_size == class_stride(j),
                forall|j: int| 0 <= j < i ==> (#[trigger] v@[j]).slot_align == class_align(j),
                forall|j: int| 0 <= j < i ==> Bins::bin_is_empty(#[trigger] v@[j]),
            decreases NUM_CLASSES - i,
        {
            proof {
                lemma_class_facts(i as int);
            }
            let b = Bin::new(class_stride_of(i), class_align_of(i));
            v.push(b);
            i = i + 1;
        }
        Bins { bins: v }
    }
}

/// Chunks of different bins never overlap: a slot of one class cannot
/// intrude on the storage of another.
pub open spec fn cross_bin_chunks_disjoint(bins: Bins) -> bool {
    forall|i: int, j: int, k: int, l: int|
        0 <= i < bins.bins@.len() && 0 <= j < bins.bins@.len() && i != j && 0 <= k
            < bins.bins@[i].chunks@.len() && 0 <= l < bins.bins@[j].chunks@.len()
            ==> ranges_disjoint(
            #[trigger] bins.bins@[i].chunks@[k] as int,
            CHUNK_SIZE as int,
            #[trigger] bins.bins@[j].chunks@[l] as int,
            CHUNK_SIZE as int,
        )
}

/// What one allocation asks of the caller.
#[derive(Clone, Copy, Debug, PartialEq, Eq, Structural)]
pub enum AllocStep {
    /// The block at `ptr` is the caller's until it is deallocated.
    Done { ptr: usize },
    /// The bin of `class` ran dry: map `chunk_layout`, then hand its base
    /// to [`RSBMalloc::provide_chunk`].
    NeedChunk { class: usize, chunk_layout: Layout },
    /// The request exceeds the largest class: serve `layout` from the page
    /// allocator.
    Large { layout: Layout },
    /// The request is refused: alignment over the cap, or a zero size.
    Fail,
}

/// What one deallocation asks of the caller.
#[derive(Clone, Copy, Debug, PartialEq, Eq, Structural)]
pub enum DeallocStep {
    /// The block went back on its bin's free list.
    Done,
    /// The block came from the page allocator: unmap it there under
    /// `layout`.
    Large { layout: Layout },
}

/// What one reallocation asks of the caller.
#[derive(Clone, Copy, Debug, PartialEq, Eq, Structural)]
pub enum ReallocStep {
    /// The request is refused: alignment over the cap, or the new size not
    /// representable at the old alignment.
    Fail,
    /// Old and new block both exceed the largest class: let the page
    /// allocator regrow in place.
    PageRealloc,
    /// Allocate `new_layout`, copy the first `copy_len` bytes over, then
    /// deallocate the old block. On allocation failure the old block is
    /// kept and null returned.
    AllocCopyFree { new_layout: Layout, copy_len: usize },
}

/// The allocator facade: dispatches each request by its padded size to a
/// bin or to the page allocator.
pub struct RSBMalloc {
    pub bins: Bins,
}

impl RSBMalloc {
    /// The bins are well formed and no two bins' chunks overlap.
    pub open spec fn wf(self) -> bool {
        &&& self.bins.wf()
        &&& cross_bin_chunks_disjoint(self.bins)
    }

    /// A request the bins serve: non-zero, alignment within the cap, and a
    /// padded size no larger than the largest class.
    pub open spec fn is_small(layout: Layout) -> bool {
        &&& layout.size > 0
        &&& layout.align <= MAX_ALIGN
        &&& layout.spec_padded_size() <= CHUNK_SIZE
    }

    /// The bin index serving `layout`.
    pub open spec fn class_of(layout: Layout) -> int {
        spec_bin_index(layout.spec_padded_size())
    }

    /// An allocator that owns nothing yet.
    pub fn new() -> (r: RSBMalloc)
        ensures
            r.wf(),
            forall|i: int| 0 <= i < NUM_CLASSES ==> Bins::bin_is_empty(#[trigger] r.bins.bins@[i]),
    {
        RSBMalloc { bins: Bins::new() }
    }

    /// Serves one allocation request, or says what the caller must do
    /// first. A returned block is non-null, aligned as requested, and was
    /// not live before this call.
    pub fn allocate(&mut self, layout: Layout) -> (r: AllocStep)
        requires
            old(self).wf(),
            layout.valid(),
        ensures
            final(self).wf(),
            layout.align > MAX_ALIGN || layout.size == 0 ==> r == AllocStep::Fail && *final(self)
                == *old(self),
            layout.align <= MAX_ALIGN && layout.size > 0 && layout.spec_padded_size() > CHUNK_SIZE
                ==> r == (AllocStep::Large { layout }) && *final(self) == *old(self),
            Self::is_small(layout) ==> {
                let idx = Self::class_of(layout);
                match old(self).bins.bins@[idx].alloc_result() {
                    Some(p) => {
                        &&& r == (AllocStep::Done { ptr: p })
                        &&& p != 0
                        &&& p % layout.align == 0
                        &&& bin_alloc_rel(
                            old(self).bins.bins@[idx],
                            final(self).bins.bins@[idx],
                            p,
                        )
                        &&& final(self).bins.bins@ =~= old(self).bins.bins@.update(
                            idx,
                            final(self).bins.bins@[idx],
                        )
                    },
                    None => {
                        &&& r == (AllocStep::NeedChunk {
                            class: idx as usize,
                            chunk_layout: Layout {
                                size: CHUNK_SIZE,
                                align: class_align(idx) as usize,
                            },
                        })
                        &&& *final(self) == *old(self)
                    },
                }
            },
    {
        if layout.align > MAX_ALIGN || layout.size == 0 {
            return AllocStep::Fail;
        }
        let padded = layout.pad_to_align();
        if padded > CHUNK_SIZE {
            return AllocStep::Large { layout };
        }
        proof {
            lemma_bin_index_fits(padded as int);
        }
        let idx = match crate::classes::bin_index(padded) {
            Some(i) => i,
            None => 0,  // unreachable: padded is within the largest class
        };
        proof {
            lemma_class_facts(idx as int);
        }
        if self.bins.bins[idx].free.len() == 0 && self.bins.bins[idx].cursor_len
            < self.bins.bins[idx].slot_size {
            return AllocStep::NeedChunk {
                class: idx,
                chunk_layout: Layout { size: CHUNK_SIZE, align: class_align_of(idx) },
            };
        }
        let ghost prev = *self;
        let r = self.bins.bins[idx].allocate();
        let p = match r {
            Some(p) => p,
            None => 0,  // unreachable: the bin had a free slot or cursor room
        };
        proof {
            lemma_alignment_fits(layout, idx as int);
            let b0 = prev.bins.bins@[idx as int];
            let b1 = self.bins.bins@[idx as int];
            assert(b1.slot_align == class_align(idx as int));
            assert(p % b1.slot_align == 0);
            lemma_mod_divides_transfer(p as int, class_align(idx as int), layout.align as int);
            lemma_facade_wf_after_bin_step(prev, *self, idx as int);
        }
        AllocStep::Done { ptr: p }
    }

    /// Installs a freshly mapped chunk into the bin of `class` and hands
    /// out its first slot, completing an allocation that answered
    /// `NeedChunk`. The chunk must be aligned for the class, must not wrap
    /// the address space, and must be disjoint from every chunk any bin
    /// owns — which holds of a fresh mapping.
    pub fn provide_chunk(&mut self, class: usize, base: usize) -> (p: usize)
        requires
            old(self).wf(),
            class < NUM_CLASSES,
            base != 0,
            base % (class_align(class as int) as usize) == 0,
            base + CHUNK_SIZE <= usize::MAX,
            forall|j: int, l: int|
                0 <= j < NUM_CLASSES && 0 <= l < old(self).bins.bins@[j].chunks@.len()
                    ==> ranges_disjoint(
                    base as int,
                    CHUNK_SIZE as int,
                    #[trigger] old(self).bins.bins@[j].chunks@[l] as int,
                    CHUNK_SIZE as int,
                ),
        ensures
            final(self).wf(),
            p == base,
            final(self).bins.bins@ =~= old(self).bins.bins@.update(
                class as int,
                final(self).bins.bins@[class as int],
            ),
            ({
                let b0 = old(self).bins.bins@[class as int];
                let b1 = final(self).bins.bins@[class as int];
                &&& b1.chunks@ == b0.chunks@.push(base)
                &&& b1.free@ == b0.free@
                &&& !b0.live@.contains(base)
                &&& b1.live@ == b0.live@.insert(base)
                &&& b1.cursor_ptr == base + b0.slot_size
                &&& b1.cursor_len == CHUNK_SIZE - b0.slot_size
            }),
    {
        proof {
            lemma_class_facts(class as int);
        }
        let ghost prev = *self;
        let b = &mut self.bins.bins[class];
        proof {
            assert(forall|i: int|
                0 <= i < b.chunks@.len() ==> ranges_disjoint(
                    base as int,
                    CHUNK_SIZE as int,
                    #[trigger] b.chunks@[i] as int,
                    CHUNK_SIZE as int,
                ));
        }
        b.install_chunk(base);
        let p = b.take_from_cursor();
        proof {
            lemma_facade_wf_after_chunk(prev, *self, class as int, base);
        }
        p
    }

    /// Returns one block to the allocator. The caller hands back the same
    /// layout it allocated with; a block of a bin class becomes the new
    /// head of that bin's free list, and a large block goes back to the
    /// page allocator.
    pub fn dealloc(&mut self, ptr: usize, layout: Layout) -> (r: DeallocStep)
        requires
            old(self).wf(),
            layout.valid(),
            layout.size > 0,
            layout.align <= MAX_ALIGN,
            Self::is_small(layout) ==> old(self).bins.bins@[Self::class_of(
                layout,
            )].live@.contains(ptr),
        ensures
            final(self).wf(),
            !Self::is_small(layout) ==> r == (DeallocStep::Large { layout }) && *final(self)
                == *old(self),
            Self::is_small(layout) ==> {
                let idx = Self::class_of(layout);
                &&& r == DeallocStep::Done
                &&& bin_dealloc_rel(old(self).bins.bins@[idx], final(self).bins.bins@[idx], ptr)
                &&& final(self).bins.bins@ =~= old(self).bins.bins@.update(
                    idx,
                    final(self).bins.bins@[idx],
                )
            },
    {
        let padded = layout.pad_to_align();
        if padded > CHUNK_SIZE {
            return DeallocStep::Large { layout };
        }
        proof {
            lemma_bin_index_fits(padded as int);
        }
        let idx = match crate::classes::bin_index(padded) {
            Some(i) => i,
            None => 0,  // unreachable: padded is within the largest class
        };
        let ghost prev = *self;
        self.bins.bins[idx].dealloc(ptr);
        proof {
            lemma_facade_wf_after_bin_step(prev, *self, idx as int);
        }
        DeallocStep::Done
    }

    /// Decides how to reallocate a block to `new_size` bytes at its old
    /// alignment: blocks beyond the largest class regrow through the page
    /// allocator; everything else moves to a fresh block, carrying the
    /// first `min(old size, new size)` bytes.
    pub fn realloc_plan(layout: Layout, new_size: usize) -> (r: ReallocStep)
        requires
            layout.valid(),
        ensures
            layout.align > MAX_ALIGN ==> r == ReallocStep::Fail,
            layout.align <= MAX_ALIGN && new_size + layout.align - 1 > isize::MAX ==> r
                == ReallocStep::Fail,
            layout.align <= MAX_ALIGN && new_size + layout.align - 1 <= isize::MAX ==> {
                if layout.spec_padded_size() > CHUNK_SIZE && round_up(
                    new_size as int,
                    layout.align as int,
                ) > CHUNK_SIZE {
                    r == ReallocStep::PageRealloc
                } else {
                    r == (ReallocStep::AllocCopyFree {
                        new_layout: Layout { size: new_size, align: layout.align },
                        copy_len: min_usize_spec(layout.size, new_size),
                    })
                }
            },
    {
        if layout.align > MAX_ALIGN {
            return ReallocStep::Fail;
        }
        let new_layout = match Layout::from_size_align(new_size, layout.align) {
            Some(l) => l,
            None => {
                return ReallocStep::Fail;
            },
        };
        if layout.pad_to_align() > CHUNK_SIZE && new_layout.pad_to_align() > CHUNK_SIZE {
            return ReallocStep::PageRealloc;
        }
        let copy_len = if layout.size <= new_size {
            layout.size
        } else {
            new_size
        };
        ReallocStep::AllocCopyFree { new_layout, copy_len }
    }
}

/// A small request's alignment divides the alignment its class guarantees.
proof fn lemma_alignment_fits(layout: Layout, idx: int)
    requires
        layout.valid(),
        RSBMalloc::is_small(layout),
        idx == RSBMalloc::class_of(layout),
    ensures
        0 <= idx < NUM_CLASSES,
        layout.align <= class_align(idx),
        class_align(idx) % (layout.align as int) == 0,
{
    let padded = layout.spec_padded_size();
    crate::layout::lemma_round_up_props(layout.size as int, layout.align as int);
    // A positive multiple of the alignment is at least the alignment.
    crate::layout::lemma_pow2_pos(layout.align as int);
    assert(padded >= layout.align) by {
        lemma_fundamental_div_mod(padded, layout.align as int);
        let q = padded / (layout.align as int);
        assert(padded == layout.align * q);
        assert(q >= 1 ==> layout.align * q >= layout.align) by (nonlinear_arith)
            requires
                layout.align >= 1,
        ;
        assert(q >= 1) by (nonlinear_arith)
            requires
                padded == layout.align * q,
                padded >= 1,
                layout.align >= 1,
        ;
    }
    lemma_bin_index_fits(padded);
    lemma_class_facts(idx);
    lemma_pow2_divides(layout.align as int, class_align(idx));
}

/// Stepping one bin while leaving its chunks alone keeps the facade well
/// formed.
proof fn lemma_facade_wf_after_bin_step(m0: RSBMalloc, m1: RSBMalloc, idx: int)
    requires
        m0.wf(),
        0 <= idx < NUM_CLASSES,
        m1.bins.bins@.len() == m0.bins.bins@.len(),
        forall|j: int|
            0 <= j < NUM_CLASSES && j != idx ==> #[trigger] m1.bins.bins@[j] == m0.bins.bins@[j],
        m1.bins.bins@[idx].wf(),
        m1.bins.bins@[idx].slot_size == m0.bins.bins@[idx].slot_size,
        m1.bins.bins@[idx].slot_align == m0.bins.bins@[idx].slot_align,
        m1.bins.bins@[idx].chunks@ == m0.bins.bins@[idx].chunks@,
    ensures
        m1.wf(),
{
    assert forall|i: int, j: int, k: int, l: int|
        0 <= i < m1.bins.bins@.len() && 0 <= j < m1.bins.bins@.len() && i != j && 0 <= k
            < m1.bins.bins@[i].chunks@.len() && 0 <= l
            < m1.bins.bins@[j].chunks@.len() implies ranges_disjoint(
        #[trigger] m1.bins.bins@[i].chunks@[k] as int,
        CHUNK_SIZE as int,
        #[trigger] m1.bins.bins@[j].chunks@[l] as int,
        CHUNK_SIZE as int,
    ) by {
        assert(m1.bins.bins@[i].chunks@ == m0.bins.bins@[i].chunks@);
        assert(m1.bins.bins@[j].chunks@ == m0.bins.bins@[j].chunks@);
        assert(ranges_disjoint(
            m0.bins.bins@[i].chunks@[k] as int,
            CHUNK_SIZE as int,
            m0.bins.bins@[j].chunks@[l] as int,
            CHUNK_SIZE as int,
        ));
    }
}

/// Installing a chunk disjoint from everything any bin owns keeps the
/// facade well formed.
proof fn lemma_facade_wf_after_chunk(m0: RSBMalloc, m1: RSBMalloc, idx: int, base: usize)
    requires
        m0.wf(),
        0 <= idx < NUM_CLASSES,
        m1.bins.bins@.len() == m0.bins.bins@.len(),
        forall|j: int|
            0 <= j < NUM_CLASSES && j != idx ==> #[trigger] m1.bins.bins@[j] == m0.bins.bins@[j],
        m1.bins.bins@[idx].wf(),
        m1.bins.bins@[idx].slot_size == m0.bins.bins@[idx].slot_size,
        m1.bins.bins@[idx].slot_align == m0.bins.bins@[idx].slot_align,
        m1.bins.bins@[idx].chunks@ == m0.bins.bins@[idx].chunks@.push(base),
        forall|j: int, l: int|
            0 <= j < NUM_CLASSES && 0 <= l < m0.bins.bins@[j].chunks@.len() ==> ranges_disjoint(
                base as int,
                CHUNK_SIZE as int,
                #[trigger] m0.bins.bins@[j].chunks@[l] as int,
                CHUNK_SIZE as int,
            ),
    ensures
        m1.wf(),
{
    let n = m0.bins.bins@[idx].chunks@.len() as int;
    assert forall|i: int, j: int, k: int, l: int|
        0 <= i < m1.bins.bins@.len() && 0 <= j < m1.bins.bins@.len() && i != j && 0 <= k
            < m1.bins.bins@[i].chunks@.len() && 0 <= l
            < m1.bins.bins@[j].chunks@.len() implies ranges_disjoint(
        #[trigger] m1.bins.bins@[i].chunks@[k] as int,
        CHUNK_SIZE as int,
        #[trigger] m1.bins.bins@[j].chunks@[l] as int,
        CHUNK_SIZE as int,
    ) by {
        if i == idx && k == n {
            assert(m1.bins.bins@[i].chunks@[k] == base);
            assert(m1.bins.bins@[j].chunks@ == m0.bins.bins@[j].chunks@);
            assert(ranges_disjoint(
                base as int,
                CHUNK_SIZE as int,
                m0.bins.bins@[j].chunks@[l] as int,
                CHUNK_SIZE as int,
            ));
        } else if j == idx && l == n {
            assert(m1.bins.bins@[j].chunks@[l] == base);
            assert(m1.bins.bins@[i].chunks@ == m0.bins.bins@[i].chunks@);
            assert(ranges_disjoint(
                base as int,
                CHUNK_SIZE as int,
                m0.bins.bins@[i].chunks@[k] as int,
                CHUNK_SIZE as int,
            ));
        } else {
            assert(m1.bins.bins@[i].chunks@[k] == m0.bins.bins@[i].chunks@[k]);
            assert(m1.bins.bins@[j].chunks@[l] == m0.bins.bins@[j].chunks@[l]);
            assert(ranges_disjoint(
                m0.bins.bins@[i].chunks@[k] as int,
                CHUNK_SIZE as int,
                m0.bins.bins@[j].chunks@[l] as int,
                CHUNK_SIZE as int,
            ));
        }
    }
}

/// A small request is served from a class whose slots hold it: the stride
/// of the serving bin covers the padded request, so a returned block
/// addresses at least `layout.size` bytes of its chunk.
pub proof fn lemma_small_block_covers(layout: Layout)
    requires
        layout.valid(),
        RSBMalloc::is_small(layout),
    ensures
        0 <= RSBMalloc::class_of(layout) < NUM_CLASSES,
        layout.size <= layout.spec_padded_size(),
        layout.spec_padded_size() <= class_stride(RSBMalloc::class_of(layout)),
{
    crate::layout::lemma_pow2_pos(layout.align as int);
    crate::layout::lemma_round_up_props(layout.size as int, layout.align as int);
    lemma_bin_index_fits(layout.spec_padded_size());
    lemma_class_facts(RSBMalloc::class_of(layout));
}

/// Every block out with a caller really serves its request: it is
/// non-null, aligned as the request asked, and all `layout.size` bytes of
/// it lie inside a chunk its bin owns.
pub proof fn lemma_allocator_block_serves_request(m: RSBMalloc, layout: Layout, p: usize)
    requires
        m.wf(),
        layout.valid(),
        RSBMalloc::is_small(layout),
        m.bins.bins@[RSBMalloc::class_of(layout)].live@.contains(p),
    ensures
        p != 0,
        p % layout.align == 0,
        ({
            let b = m.bins.bins@[RSBMalloc::class_of(layout)];
            exists|i: int|
                0 <= i < b.chunks@.len() && (#[trigger] b.chunks@[i]) <= p && p + layout.size
                    <= b.chunks@[i] + CHUNK_SIZE
        }),
{
    let idx = RSBMalloc::class_of(layout);
    let b = m.bins.bins@[idx];
    crate::bin::lemma_live_block_in_bounds(b, p);
    lemma_small_block_covers(layout);
    lemma_alignment_fits(layout, idx);
    lemma_mod_divides_transfer(p as int, class_align(idx), layout.align as int);
    let i = choose|i: int|
        0 <= i < b.chunks@.len() && b.chunk_holds_slot(#[trigger] b.chunks@[i], p);
    assert(b.chunks@[i] <= p && p + layout.size <= b.chunks@[i] + CHUNK_SIZE);
}

/// No two live blocks overlap, whatever their bins: each pair of distinct
/// blocks out with callers occupies disjoint byte ranges.
pub proof fn lemma_allocator_live_blocks_disjoint(
    m: RSBMalloc,
    i: int,
    j: int,
    a1: usize,
    a2: usize,
)
    requires
        m.wf(),
        0 <= i < NUM_CLASSES,
        0 <= j < NUM_CLASSES,
        m.bins.bins@[i].live@.contains(a1),
        m.bins.bins@[j].live@.contains(a2),
        i != j || a1 != a2,
    ensures
        ranges_disjoint(
            a1 as int,
            m.bins.bins@[i].slot_size as int,
            a2 as int,
            m.bins.bins@[j].slot_size as int,
        ),
{
    let b1 = m.bins.bins@[i];
    let b2 = m.bins.bins@[j];
    if i == j {
        crate::bin::lemma_live_blocks_disjoint(b1, a1, a2);
    } else {
        crate::bin::lemma_live_block_in_bounds(b1, a1);
        crate::bin::lemma_live_block_in_bounds(b2, a2);
        let k = choose|k: int|
            0 <= k < b1.chunks@.len() && b1.chunk_holds_slot(#[trigger] b1.chunks@[k], a1);
        let l = choose|l: int|
            0 <= l < b2.chunks@.len() && b2.chunk_holds_slot(#[trigger] b2.chunks@[l], a2);
        assert(ranges_disjoint(
            m.bins.bins@[i].chunks@[k] as int,
            CHUNK_SIZE as int,
            m.bins.bins@[j].chunks@[l] as int,
            CHUNK_SIZE as int,
        ));
    }
}

} // verus!
