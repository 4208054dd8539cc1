//! The page allocator's arithmetic: every request is rounded up to whole
//! pages at page (or stronger) alignment, and a reallocation is turned into
//! the exact mapping steps the caller must take — keep and trim, extend in
//! place, or map afresh and copy.

use vstd::prelude::*;

verus! {

use crate::layout::{
    Layout,
    is_power_of_two,
    lemma_mod_divides_transfer,
    lemma_pow2_divides,
    lemma_pow2_pos,
    lemma_round_up_least,
    lemma_round_up_props,
    max_usize_spec,
    round_up,
};
use crate::min_usize_spec;

/// Rounds every layout it is given up to whole pages. It holds no memory of
/// its own: the caller maps and unmaps the regions the returned layouts and
/// steps describe.
pub struct PageAllocator {
    pub page_size: usize,
}

/// How the caller reallocates a page-allocator block from `old` bytes to
/// `new` bytes.
#[derive(Clone, Copy, Debug, PartialEq, Eq, Structural)]
pub enum PageReallocStep {
    /// The rounded layout is not representable: return null, leaving the
    /// old block untouched.
    Fail,
    /// The new size fits in the pages already mapped: keep the old
    /// pointer, and release the trailing `unmap_len` bytes at `unmap_at`
    /// when that length is not zero.
    Keep { unmap_at: usize, unmap_len: usize },
    /// The block must grow: ask the system for `extend_len` bytes exactly
    /// at `hint`. If the system grants that address the old pointer simply
    /// grew. Otherwise release the stray mapping, map `full_layout`
    /// afresh, copy the first `copy_len` bytes over, and release the old
    /// `old_len` bytes.
    Grow { hint: usize, extend_len: usize, full_layout: Layout, copy_len: usize, old_len: usize },
}

impl PageAllocator {
    /// The page size reported by the system is a power of two.
    pub open spec fn wf(self) -> bool {
        is_power_of_two(self.page_size as int)
    }

    /// A page allocator for the given system page size.
    pub fn new(page_size: usize) -> (r: PageAllocator)
        requires
            is_power_of_two(page_size as int),
        ensures
            r.page_size == page_size,
            r.wf(),
    {
        PageAllocator { page_size }
    }

    /// The size `layout` occupies once rounded to whole pages at the
    /// larger of its own and page alignment.
    pub open spec fn spec_page_rounded(self, layout: Layout) -> int {
        round_up(layout.size as int, max_usize_spec(layout.align, self.page_size) as int)
    }

    /// Whether `layout` stays representable once raised to page alignment.
    pub open spec fn spec_roundable(self, layout: Layout) -> bool {
        layout.size + max_usize_spec(layout.align, self.page_size) - 1 <= isize::MAX
    }

    /// The layout the caller must map for `layout`: alignment raised to at
    /// least a page, size padded to a multiple of that alignment. `None`
    /// when the padding overflows; the allocation then fails with null.
    pub fn alloc_layout(&self, layout: Layout) -> (r: Option<Layout>)
        requires
            self.wf(),
            layout.valid(),
        ensures
            r is Some <==> self.spec_roundable(layout),
            r is Some ==> r.unwrap() == (Layout {
                size: self.spec_page_rounded(layout) as usize,
                align: max_usize_spec(layout.align, self.page_size),
            }),
            r is Some ==> layout.size <= r.unwrap().size,
            r is Some ==> (r.unwrap().size as int) % (r.unwrap().align as int) == 0,
    {
        let aligned = match layout.align_to(self.page_size) {
            Some(l) => l,
            None => {
                return None;
            },
        };
        let size = aligned.pad_to_align();
        Some(Layout { size, align: aligned.align })
    }

    /// The layout whose size the caller must release when `layout` is
    /// deallocated: the same rounding as at allocation.
    pub fn dealloc_layout(&self, layout: Layout) -> (r: Option<Layout>)
        requires
            self.wf(),
            layout.valid(),
        ensures
            r is Some <==> self.spec_roundable(layout),
            r is Some ==> r.unwrap() == (Layout {
                size: self.spec_page_rounded(layout) as usize,
                align: max_usize_spec(layout.align, self.page_size),
            }),
    {
        self.alloc_layout(layout)
    }

    /// Decides how a block of `layout` at `ptr` reaches `new_size` bytes:
    /// shrink in place, grow in place at a hint, or map afresh and copy.
    /// The old mapping spans `ptr` up to its page-rounded size, so that
    /// end address exists.
    pub fn realloc_plan(&self, ptr: usize, layout: Layout, new_size: usize) -> (r:
        PageReallocStep)
        requires
            self.wf(),
            layout.valid(),
            self.spec_roundable(layout) ==> ptr + self.spec_page_rounded(layout) <= usize::MAX,
        ensures
            !self.spec_roundable(layout) ==> r == PageReallocStep::Fail,
            self.spec_roundable(layout) && new_size + self.page_size - 1 > isize::MAX ==> r
                == PageReallocStep::Fail,
            self.spec_roundable(layout) && new_size + self.page_size - 1 <= isize::MAX ==> {
                let old_al = self.spec_page_rounded(layout);
                let new_al = round_up(new_size as int, self.page_size as int);
                if new_size <= old_al {
                    r == (PageReallocStep::Keep {
                        unmap_at: (ptr + new_al) as usize,
                        unmap_len: (old_al - new_al) as usize,
                    })
                } else {
                    r == (PageReallocStep::Grow {
                        hint: (ptr + old_al) as usize,
                        extend_len: (new_al - old_al) as usize,
                        full_layout: Layout { size: new_al as usize, align: self.page_size },
                        copy_len: min_usize_spec(layout.size, new_size),
                        old_len: old_al as usize,
                    })
                }
            },
    {
        let old_aligned = match self.alloc_layout(layout) {
            Some(l) => l,
            None => {
                return PageReallocStep::Fail;
            },
        };
        let new_rounded = match Layout::from_size_align(new_size, self.page_size) {
            Some(l) => l,
            None => {
                return PageReallocStep::Fail;
            },
        };
        let new_al = new_rounded.pad_to_align();
        let old_al = old_aligned.size;
        proof {
            let a_old = max_usize_spec(layout.align, self.page_size) as int;
            let pg = self.page_size as int;
            lemma_pow2_pos(pg);
            lemma_pow2_pos(layout.align as int);
            lemma_round_up_props(layout.size as int, a_old);
            lemma_round_up_props(new_size as int, pg);
            // The old rounded size is a whole number of pages, so when the
            // new size fits under it, so does its page rounding.
            lemma_pow2_divides(pg, a_old);
            lemma_mod_divides_transfer(old_al as int, a_old, pg);
            if new_size <= old_al {
                lemma_round_up_least(new_size as int, pg, old_al as int);
            }
        }
        if new_size <= old_al {
            PageReallocStep::Keep { unmap_at: ptr + new_al, unmap_len: old_al - new_al }
        } else {
            let copy_len = if layout.size <= new_size {
                layout.size
            } else {
                new_size
            };
            PageReallocStep::Grow {
                hint: ptr + old_al,
                extend_len: new_al - old_al,
                full_layout: Layout { size: new_al, align: self.page_size },
                copy_len,
                old_len: old_al,
            }
        }
    }
}

} // verus!
