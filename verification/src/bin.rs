//! A bin: the free list and bump cursor serving one size class, together
//! with the claims that keep every slot it ever hands out inside a chunk it
//! owns and disjoint from every other slot that is out at the same time.
//!
//! Addresses are plain machine words here. The caller that maps real memory
//! feeds chunk base addresses in through [`Bin::install_chunk`] and performs
//! loads and stores itself; everything this module states is about which
//! addresses may be in use at once.

use vstd::prelude::*;

verus! {

use vstd::arithmetic::div_mod::{
    lemma_add_mod_noop,
    lemma_fundamental_div_mod,
    lemma_fundamental_div_mod_converse,
    lemma_mod_add_multiples_vanish,
    lemma_mod_self_0,
    lemma_mod_sub_multiples_vanish,
    lemma_small_mod,
};

use crate::CHUNK_SIZE;

/// A nullable slot address: the head of an intrusive free list. Address 0
/// stands for the empty list.
#[derive(Clone, Copy, Debug, PartialEq, Eq, Structural)]
pub struct FreeList {
    pub ptr: usize,
}

impl FreeList {
    /// Whether the list has a head slot.
    pub fn has_head(&self) -> (b: bool)
        ensures
            b == (self.ptr != 0),
    {
        self.ptr != 0
    }

    /// The empty list.
    pub fn null() -> (r: FreeList)
        ensures
            r.ptr == 0,
    {
        FreeList { ptr: 0 }
    }

    /// The head address, or `None` for the empty list.
    pub fn option_nn(&self) -> (r: Option<usize>)
        ensures
            r == (if self.ptr == 0 {
                Option::<usize>::None
            } else {
                Option::<usize>::Some(self.ptr)
            }),
    {
        if self.ptr == 0 {
            None
        } else {
            Some(self.ptr)
        }
    }
}

impl From<Option<usize>> for FreeList {
    /// The list whose head is the given address, empty for `None`.
    fn from(value: Option<usize>) -> (r: FreeList) {
        FreeList {
            ptr: match value {
                Some(p) => p,
                None => 0,
            },
        }
    }
}

impl vstd::std_specs::convert::FromSpecImpl<Option<usize>> for FreeList {
    open spec fn obeys_from_spec() -> bool {
        true
    }

    open spec fn from_spec(value: Option<usize>) -> FreeList {
        FreeList {
            ptr: match value {
                Some(p) => p,
                None => 0,
            },
        }
    }
}

/// Two half-open address ranges that do not overlap.
pub open spec fn ranges_disjoint(a1: int, l1: int, a2: int, l2: int) -> bool {
    a1 + l1 <= a2 || a2 + l2 <= a1
}

/// The free list and bump cursor of one size class.
///
/// `free` is the stack of slot addresses returned by `dealloc` and not yet
/// handed out again; its last element is the head, so reuse is last-in
/// first-out. The cursor `(cursor_ptr, cursor_len)` is the untouched tail of
/// the most recent chunk. `chunks` records every chunk base this bin was
/// ever given, and `live` the slot addresses currently out with callers.
pub struct Bin {
    pub slot_size: usize,
    pub slot_align: usize,
    pub free: Vec<usize>,
    pub cursor_ptr: usize,
    pub cursor_len: usize,
    pub chunks: Ghost<Seq<usize>>,
    pub live: Ghost<Set<usize>>,
}

impl Bin {
    /// The size class itself: the stride holds a free-list pointer, divides
    /// the chunk evenly, and is a multiple of the promised alignment.
    pub open spec fn wf_class(self) -> bool {
        &&& 8 <= self.slot_size <= CHUNK_SIZE
        &&& 1 <= self.slot_align
        &&& self.slot_size % self.slot_align == 0
        &&& (CHUNK_SIZE as int) % (self.slot_size as int) == 0
    }

    /// A chunk base this bin may carve: non-null, aligned for the class,
    /// and with the whole chunk addressable.
    pub open spec fn chunk_wf(self, c: usize) -> bool {
        &&& c != 0
        &&& c % self.slot_align == 0
        &&& c + CHUNK_SIZE <= usize::MAX
    }

    /// Slot `a` lies within the chunk based at `c`, a whole number of slots
    /// from its base.
    pub open spec fn chunk_holds_slot(self, c: usize, a: usize) -> bool {
        &&& c <= a
        &&& a + self.slot_size <= c + CHUNK_SIZE
        &&& (a - c) % (self.slot_size as int) == 0
    }

    /// Slot `a` lies in one of this bin's chunks.
    pub open spec fn slot_in_chunks(self, a: usize) -> bool {
        exists|i: int|
            0 <= i < self.chunks@.len() && self.chunk_holds_slot(#[trigger] self.chunks@[i], a)
    }

    /// Slot `a` does not intersect the untouched cursor region.
    pub open spec fn cursor_avoids(self, a: usize) -> bool {
        ||| self.cursor_len == 0
        ||| a + self.slot_size <= self.cursor_ptr
        ||| self.cursor_ptr + self.cursor_len <= a
    }

    /// A slot on the free list: inside a chunk, clear of the cursor, and
    /// not simultaneously out with a caller.
    pub open spec fn free_slot_ok(self, a: usize) -> bool {
        &&& self.slot_in_chunks(a)
        &&& self.cursor_avoids(a)
        &&& !self.live@.contains(a)
    }

    /// A slot out with a caller: inside a chunk and clear of the cursor.
    pub open spec fn live_slot_ok(self, a: usize) -> bool {
        &&& self.slot_in_chunks(a)
        &&& self.cursor_avoids(a)
    }

    /// The cursor region: empty, or a slot-aligned tail of one chunk.
    pub open spec fn cursor_ok(self) -> bool {
        &&& self.cursor_len % self.slot_size == 0
        &&& self.cursor_len > 0 ==> exists|i: int|
            0 <= i < self.chunks@.len() && self.cursor_in_chunk(#[trigger] self.chunks@[i])
    }

    /// The cursor region lies at a whole number of slots inside the chunk
    /// based at `c`.
    pub open spec fn cursor_in_chunk(self, c: usize) -> bool {
        &&& c <= self.cursor_ptr
        &&& self.cursor_ptr + self.cursor_len <= c + CHUNK_SIZE
        &&& (self.cursor_ptr - c) % (self.slot_size as int) == 0
    }

    /// Everything the bin maintains across its operations.
    pub open spec fn wf(self) -> bool {
        &&& self.wf_class()
        &&& forall|i: int|
            0 <= i < self.chunks@.len() ==> self.chunk_wf(#[trigger] self.chunks@[i])
        &&& forall|i: int, j: int|
            0 <= i < self.chunks@.len() && 0 <= j < self.chunks@.len() && i != j
                ==> ranges_disjoint(
                #[trigger] self.chunks@[i] as int,
                CHUNK_SIZE as int,
                #[trigger] self.chunks@[j] as int,
                CHUNK_SIZE as int,
            )
        &&& self.cursor_ok()
        &&& forall|k: int|
            0 <= k < self.free@.len() ==> self.free_slot_ok(#[trigger] self.free@[k])
        &&& forall|k: int, l: int|
            0 <= k < self.free@.len() && 0 <= l < self.free@.len() && k != l
                ==> #[trigger] self.free@[k] != #[trigger] self.free@[l]
        &&& forall|a: usize| #[trigger] self.live@.contains(a) ==> self.live_slot_ok(a)
    }

    /// An empty bin for the class of stride `slot_size` and alignment
    /// `slot_align`: no chunk, no free slot, nothing live.
    pub fn new(slot_size: usize, slot_align: usize) -> (r: Bin)
        requires
            8 <= slot_size <= CHUNK_SIZE,
            1 <= slot_align,
            slot_size % slot_align == 0,
            (CHUNK_SIZE as int) % (slot_size as int) == 0,
        ensures
            r.wf(),
            r.slot_size == slot_size,
            r.slot_align == slot_align,
            r.free@ =~= Seq::<usize>::empty(),
            r.cursor_ptr == 0,
            r.cursor_len == 0,
            r.chunks@ =~= Seq::<usize>::empty(),
            r.live@ =~= Set::<usize>::empty(),
    {
        let r = Bin {
            slot_size,
            slot_align,
            free: Vec::new(),
            cursor_ptr: 0,
            cursor_len: 0,
            chunks: Ghost(Seq::empty()),
            live: Ghost(Set::empty()),
        };
        proof {
            lemma_small_mod(0, slot_size as nat);
        }
        r
    }

    /// Returns a freed slot to the head of the free list. The caller hands
    /// back an address it got from this bin and has stopped using; it is
    /// the next one `allocate` will hand out.
    pub fn dealloc(&mut self, ptr: usize)
        requires
            old(self).wf(),
            old(self).live@.contains(ptr),
        ensures
            final(self).wf(),
            final(self).free@ =~= old(self).free@.push(ptr),
            final(self).live@ =~= old(self).live@.remove(ptr),
            final(self).slot_size == old(self).slot_size,
            final(self).slot_align == old(self).slot_align,
            final(self).cursor_ptr == old(self).cursor_ptr,
            final(self).cursor_len == old(self).cursor_len,
            final(self).chunks@ == old(self).chunks@,
    {
        self.free.push(ptr);
        proof {
            self.live@ = self.live@.remove(ptr);
        }
        proof {
            let prev = *old(self);
            assert forall|k: int| 0 <= k < self.free@.len() implies self.free_slot_ok(
                #[trigger] self.free@[k],
            ) by {
                let a = self.free@[k];
                if k < prev.free@.len() {
                    assert(prev.free_slot_ok(a));
                    lemma_slot_transfers(prev, *self, a);
                } else {
                    assert(a == ptr);
                    assert(prev.live_slot_ok(a));
                    lemma_slot_transfers(prev, *self, a);
                }
            }
            assert forall|a: usize| #[trigger] self.live@.contains(a) implies self.live_slot_ok(
                a,
            ) by {
                assert(prev.live@.contains(a));
                assert(prev.live_slot_ok(a));
                lemma_slot_transfers(prev, *self, a);
            }
            assert forall|k: int, l: int|
                0 <= k < self.free@.len() && 0 <= l < self.free@.len() && k != l implies #[trigger]
            self.free@[k] != #[trigger] self.free@[l] by {
                if k < prev.free@.len() && l < prev.free@.len() {
                } else if k < prev.free@.len() {
                    assert(prev.free_slot_ok(prev.free@[k]));
                } else {
                    assert(prev.free_slot_ok(prev.free@[l]));
                }
            }
            lemma_cursor_transfers(prev, *self);
        }
    }
}

impl Bin {
    /// What the next `allocate` hands out: the head of the free list when one
    /// is there, else the cursor slot when the cursor still has room, else
    /// nothing until a chunk is installed.
    pub open spec fn alloc_result(self) -> Option<usize> {
        if self.free@.len() > 0 {
            Some(self.free@.last())
        } else if self.cursor_len >= self.slot_size {
            Some(self.cursor_ptr)
        } else {
            None
        }
    }

    /// Hands out a slot: the most recently freed one if any, else the next
    /// cursor slot. Returns `None` when both are exhausted; the caller then
    /// obtains a fresh chunk and calls [`Bin::install_chunk`].
    ///
    /// A returned address was not live before the call, so it overlaps no
    /// slot a caller still holds.
    pub fn allocate(&mut self) -> (r: Option<usize>)
        requires
            old(self).wf(),
        ensures
            final(self).wf(),
            r == old(self).alloc_result(),
            final(self).slot_size == old(self).slot_size,
            final(self).slot_align == old(self).slot_align,
            final(self).chunks@ == old(self).chunks@,
            r is Some ==> {
                let p = r.unwrap();
                &&& !old(self).live@.contains(p)
                &&& final(self).live@ =~= old(self).live@.insert(p)
                &&& p != 0
                &&& p % old(self).slot_align == 0
                &&& old(self).slot_in_chunks(p)
            },
            r is Some && old(self).free@.len() > 0 ==> {
                &&& final(self).free@ =~= old(self).free@.drop_last()
                &&& final(self).cursor_ptr == old(self).cursor_ptr
                &&& final(self).cursor_len == old(self).cursor_len
            },
            r is Some && old(self).free@.len() == 0 ==> {
                &&& final(self).free@ =~= old(self).free@
                &&& final(self).cursor_ptr == old(self).cursor_ptr + old(self).slot_size
                &&& final(self).cursor_len == old(self).cursor_len - old(self).slot_size
            },
            r is None ==> {
                &&& final(self).free@ =~= old(self).free@
                &&& final(self).cursor_ptr == old(self).cursor_ptr
                &&& final(self).cursor_len == old(self).cursor_len
                &&& final(self).live@ =~= old(self).live@
            },
    {
        let prev = Ghost(*self);
        if self.free.len() > 0 {
            let p = self.free.pop().unwrap();
            proof {
                self.live@ = self.live@.insert(p);
            }
            proof {
                let b0 = prev@;
                assert(b0.free_slot_ok(p));
                lemma_slot_props(b0, p);
                lemma_slot_transfers(b0, *self, p);
                lemma_cursor_transfers(b0, *self);
                assert forall|k: int| 0 <= k < self.free@.len() implies self.free_slot_ok(
                    #[trigger] self.free@[k],
                ) by {
                    let a = self.free@[k];
                    assert(a == b0.free@[k]);
                    assert(b0.free_slot_ok(a));
                    lemma_slot_transfers(b0, *self, a);
                    // The popped head is distinct from every remaining entry.
                    assert(a != p);
                }
                assert forall|a: usize| #[trigger]
                    self.live@.contains(a) implies self.live_slot_ok(a) by {
                    if a == p {
                        assert(b0.free_slot_ok(p));
                    } else {
                        assert(b0.live@.contains(a));
                        assert(b0.live_slot_ok(a));
                    }
                    lemma_slot_transfers(b0, *self, a);
                }
            }
            Some(p)
        } else if self.cursor_len >= self.slot_size {
            Some(self.take_from_cursor())
        } else {
            proof {
                lemma_cursor_transfers(prev@, *self);
            }
            None
        }
    }

    /// Carves the next slot off the cursor, advancing it by one stride.
    pub fn take_from_cursor(&mut self) -> (p: usize)
        requires
            old(self).wf(),
            old(self).cursor_len >= old(self).slot_size,
        ensures
            final(self).wf(),
            p == old(self).cursor_ptr,
            p != 0,
            p % old(self).slot_align == 0,
            old(self).slot_in_chunks(p),
            !old(self).live@.contains(p),
            final(self).live@ =~= old(self).live@.insert(p),
            final(self).free@ =~= old(self).free@,
            final(self).chunks@ == old(self).chunks@,
            final(self).slot_size == old(self).slot_size,
            final(self).slot_align == old(self).slot_align,
            final(self).cursor_ptr == old(self).cursor_ptr + old(self).slot_size,
            final(self).cursor_len == old(self).cursor_len - old(self).slot_size,
    {
        let ghost b0 = *self;
        let p = self.cursor_ptr;
        proof {
            lemma_cursor_bump_in_bounds(b0);
        }
        self.cursor_ptr = self.cursor_ptr + self.slot_size;
        self.cursor_len = self.cursor_len - self.slot_size;
        proof {
            self.live@ = self.live@.insert(p);
        }
        proof {
            let c = choose|i: int|
                0 <= i < b0.chunks@.len() && b0.cursor_in_chunk(#[trigger] b0.chunks@[i]);
            let cb = b0.chunks@[c];
            assert(b0.chunk_holds_slot(cb, p));
            assert(b0.slot_in_chunks(p));
            lemma_slot_props(b0, p);
            lemma_slot_transfers(b0, *self, p);
            // The old cursor slot was clear of every tracked slot, so p is
            // fresh.
            assert(!b0.live@.contains(p));
            // The shrunk cursor still sits on a slot boundary of the same
            // chunk.
            assert(self.cursor_len % self.slot_size == 0) by {
                lemma_mod_sub_multiples_vanish(b0.cursor_len as int, b0.slot_size as int);
            }
            if self.cursor_len > 0 {
                assert((self.cursor_ptr - cb) % (self.slot_size as int) == 0) by {
                    lemma_mod_add_multiples_vanish(b0.cursor_ptr - cb, b0.slot_size as int);
                }
                assert(self.cursor_in_chunk(self.chunks@[c]));
            }
            assert forall|k: int| 0 <= k < self.free@.len() implies self.free_slot_ok(
                #[trigger] self.free@[k],
            ) by {
                let a = self.free@[k];
                assert(b0.free_slot_ok(a));
                lemma_slot_transfers(b0, *self, a);
            }
            assert forall|a: usize| #[trigger] self.live@.contains(a) implies self.live_slot_ok(
                a,
            ) by {
                if a == p {
                } else {
                    assert(b0.live@.contains(a));
                    assert(b0.live_slot_ok(a));
                    lemma_slot_transfers(b0, *self, a);
                }
            }
        }
        p
    }

    /// Points the cursor at a freshly mapped chunk. The chunk must be
    /// aligned for the class, must not wrap the address space, and must be
    /// disjoint from every chunk this bin already owns; memory for it comes
    /// from the page allocator.
    pub fn install_chunk(&mut self, base: usize)
        requires
            old(self).wf(),
            base != 0,
            base % old(self).slot_align == 0,
            base + CHUNK_SIZE <= usize::MAX,
            forall|i: int|
                0 <= i < old(self).chunks@.len() ==> ranges_disjoint(
                    base as int,
                    CHUNK_SIZE as int,
                    #[trigger] old(self).chunks@[i] as int,
                    CHUNK_SIZE as int,
                ),
        ensures
            final(self).wf(),
            final(self).chunks@ =~= old(self).chunks@.push(base),
            final(self).cursor_ptr == base,
            final(self).cursor_len == CHUNK_SIZE,
            final(self).free@ =~= old(self).free@,
            final(self).live@ =~= old(self).live@,
            final(self).slot_size == old(self).slot_size,
            final(self).slot_align == old(self).slot_align,
            final(self).alloc_result() == old(self).alloc_result() || final(self).alloc_result()
                == Some(base),
    {
        let ghost b0 = *self;
        self.cursor_ptr = base;
        self.cursor_len = CHUNK_SIZE;
        proof {
            self.chunks@ = self.chunks@.push(base);
        }
        proof {
            let n = b0.chunks@.len() as int;
            assert(self.chunks@[n] == base);
            assert forall|i: int| 0 <= i < self.chunks@.len() implies self.chunk_wf(
                #[trigger] self.chunks@[i],
            ) by {
                if i < n {
                    assert(b0.chunk_wf(b0.chunks@[i]));
                }
            }
            assert(self.cursor_ok()) by {
                lemma_mod_self_0(self.slot_size as int);
                assert((self.cursor_ptr - base) % (self.slot_size as int) == 0) by {
                    lemma_small_mod(0, self.slot_size as nat);
                }
                assert(self.cursor_in_chunk(self.chunks@[n]));
            }
            assert forall|k: int| 0 <= k < self.free@.len() implies self.free_slot_ok(
                #[trigger] self.free@[k],
            ) by {
                let a = self.free@[k];
                assert(b0.free_slot_ok(a));
                lemma_slot_in_pushed_chunks(b0, *self, a);
                lemma_slot_avoids_fresh_chunk(b0, *self, a);
            }
            assert forall|a: usize| #[trigger] self.live@.contains(a) implies self.live_slot_ok(
                a,
            ) by {
                assert(b0.live@.contains(a));
                assert(b0.live_slot_ok(a));
                lemma_slot_in_pushed_chunks(b0, *self, a);
                lemma_slot_avoids_fresh_chunk(b0, *self, a);
            }
        }
    }
}

/// The cursor slot of a well-formed bin does not overflow the address
/// space.
proof fn lemma_cursor_bump_in_bounds(b: Bin)
    requires
        b.wf(),
        b.cursor_len >= b.slot_size,
    ensures
        b.cursor_ptr + b.slot_size <= usize::MAX,
{
    let i = choose|i: int| 0 <= i < b.chunks@.len() && b.cursor_in_chunk(#[trigger] b.chunks@[i]);
    assert(b.chunk_wf(b.chunks@[i]));
}

/// A slot within some chunk is non-null, aligned for the class, and fully
/// addressable.
proof fn lemma_slot_props(b: Bin, a: usize)
    requires
        b.wf_class(),
        forall|i: int| 0 <= i < b.chunks@.len() ==> b.chunk_wf(#[trigger] b.chunks@[i]),
        b.slot_in_chunks(a),
    ensures
        a != 0,
        a % b.slot_align == 0,
        a + b.slot_size <= usize::MAX,
{
    let i = choose|i: int|
        0 <= i < b.chunks@.len() && b.chunk_holds_slot(#[trigger] b.chunks@[i], a);
    let c = b.chunks@[i];
    assert(b.chunk_wf(c));
    let s = b.slot_size as int;
    let al = b.slot_align as int;
    // a - c is a multiple of the stride, and the stride a multiple of the
    // alignment, so a - c is a multiple of the alignment too.
    lemma_fundamental_div_mod(a - c, s);
    lemma_fundamental_div_mod(s, al);
    let q = (a - c) / s;
    let m = s / al;
    assert(a - c == s * q);
    assert(s == al * m);
    assert(a - c == al * (m * q)) by (nonlinear_arith)
        requires
            a - c == s * q,
            s == al * m,
    ;
    assert(0 <= m * q) by (nonlinear_arith)
        requires
            0 <= m,
            0 <= q,
            a - c == s * q,
            s == al * m,
            a - c >= 0,
            s > 0,
            al > 0,
    ;
    lemma_fundamental_div_mod_converse(a - c, al, m * q, 0);
    assert((a - c) % al == 0);
    lemma_add_mod_noop(c as int, a - c, al);
    lemma_mod_self_0(al);
    assert((c as int) % al == 0);
    assert(a as int == c + (a - c));
    lemma_small_mod(0, al as nat);
}

/// Membership in the chunks is kept when a further chunk is pushed.
proof fn lemma_slot_in_pushed_chunks(b1: Bin, b2: Bin, a: usize)
    requires
        b2.chunks@ == b1.chunks@.push(b2.chunks@[b1.chunks@.len() as int]),
        b1.slot_size == b2.slot_size,
        b1.slot_in_chunks(a),
    ensures
        b2.slot_in_chunks(a),
{
    let i = choose|i: int|
        0 <= i < b1.chunks@.len() && b1.chunk_holds_slot(#[trigger] b1.chunks@[i], a);
    assert(b2.chunk_holds_slot(b2.chunks@[i], a));
}

/// A slot inside an old chunk is clear of a cursor that spans a chunk
/// disjoint from all old chunks.
proof fn lemma_slot_avoids_fresh_chunk(b1: Bin, b2: Bin, a: usize)
    requires
        b1.slot_size == b2.slot_size,
        b1.slot_in_chunks(a),
        b1.wf_class(),
        b2.cursor_len == CHUNK_SIZE,
        forall|i: int|
            0 <= i < b1.chunks@.len() ==> ranges_disjoint(
                b2.cursor_ptr as int,
                CHUNK_SIZE as int,
                #[trigger] b1.chunks@[i] as int,
                CHUNK_SIZE as int,
            ),
    ensures
        b2.cursor_avoids(a),
{
    let i = choose|i: int|
        0 <= i < b1.chunks@.len() && b1.chunk_holds_slot(#[trigger] b1.chunks@[i], a);
    let c = b1.chunks@[i];
    assert(ranges_disjoint(b2.cursor_ptr as int, CHUNK_SIZE as int, c as int, CHUNK_SIZE as int));
}

/// Carries a slot's membership in the chunks across a state change that
/// leaves the chunk list and the class untouched.
proof fn lemma_slot_transfers(b1: Bin, b2: Bin, a: usize)
    requires
        b1.chunks@ == b2.chunks@,
        b1.slot_size == b2.slot_size,
        b1.slot_in_chunks(a),
    ensures
        b2.slot_in_chunks(a),
{
    let i = choose|i: int|
        0 <= i < b1.chunks@.len() && b1.chunk_holds_slot(#[trigger] b1.chunks@[i], a);
    assert(b2.chunk_holds_slot(b2.chunks@[i], a));
}

/// Carries the cursor claims across a state change that leaves the chunk
/// list, the class and the cursor untouched.
proof fn lemma_cursor_transfers(b1: Bin, b2: Bin)
    requires
        b1.chunks@ == b2.chunks@,
        b1.slot_size == b2.slot_size,
        b1.cursor_ptr == b2.cursor_ptr,
        b1.cursor_len == b2.cursor_len,
        b1.cursor_ok(),
    ensures
        b2.cursor_ok(),
{
    if b1.cursor_len > 0 {
        let i = choose|i: int|
            0 <= i < b1.chunks@.len() && b1.cursor_in_chunk(#[trigger] b1.chunks@[i]);
        assert(b2.cursor_in_chunk(b2.chunks@[i]));
    }
}

/// Two distinct slots that each lie on a slot boundary of some owned chunk
/// occupy disjoint byte ranges.
proof fn lemma_distinct_slots_disjoint(b: Bin, a1: usize, a2: usize)
    requires
        b.wf(),
        b.slot_in_chunks(a1),
        b.slot_in_chunks(a2),
        a1 != a2,
    ensures
        ranges_disjoint(a1 as int, b.slot_size as int, a2 as int, b.slot_size as int),
{
    let i1 = choose|i: int|
        0 <= i < b.chunks@.len() && b.chunk_holds_slot(#[trigger] b.chunks@[i], a1);
    let i2 = choose|i: int|
        0 <= i < b.chunks@.len() && b.chunk_holds_slot(#[trigger] b.chunks@[i], a2);
    let c1 = b.chunks@[i1];
    let c2 = b.chunks@[i2];
    let s = b.slot_size as int;
    if i1 == i2 {
        // Same chunk: both offsets are multiples of the stride, and two
        // distinct multiples are at least a stride apart.
        lemma_fundamental_div_mod(a1 - c1, s);
        lemma_fundamental_div_mod(a2 - c1, s);
        let q1 = (a1 - c1) / s;
        let q2 = (a2 - c1) / s;
        assert(a1 - c1 == s * q1);
        assert(a2 - c1 == s * q2);
        if q1 < q2 {
            assert(s * q1 + s <= s * q2) by (nonlinear_arith)
                requires
                    q1 + 1 <= q2,
                    s >= 1,
            ;
        } else {
            assert(q2 < q1);
            assert(s * q2 + s <= s * q1) by (nonlinear_arith)
                requires
                    q2 + 1 <= q1,
                    s >= 1,
            ;
        }
    } else {
        // Different chunks: the chunks are disjoint and each slot lies
        // wholly inside its chunk.
        assert(ranges_disjoint(c1 as int, CHUNK_SIZE as int, c2 as int, CHUNK_SIZE as int));
    }
}

/// No two blocks that are out with callers at the same time overlap: every
/// pair of distinct live addresses is at least a whole slot apart.
pub proof fn lemma_live_blocks_disjoint(b: Bin, a1: usize, a2: usize)
    requires
        b.wf(),
        b.live@.contains(a1),
        b.live@.contains(a2),
        a1 != a2,
    ensures
        ranges_disjoint(a1 as int, b.slot_size as int, a2 as int, b.slot_size as int),
{
    assert(b.live_slot_ok(a1));
    assert(b.live_slot_ok(a2));
    lemma_distinct_slots_disjoint(b, a1, a2);
}

/// Every block out with a caller is non-null, aligned as the class
/// promises, and addresses a whole slot inside a chunk the bin owns.
pub proof fn lemma_live_block_in_bounds(b: Bin, a: usize)
    requires
        b.wf(),
        b.live@.contains(a),
    ensures
        a != 0,
        a % b.slot_align == 0,
        a + b.slot_size <= usize::MAX,
        b.slot_in_chunks(a),
{
    assert(b.live_slot_ok(a));
    lemma_slot_props(b, a);
}

/// How one successful allocation steps a bin from `b0` to `b1`, handing out
/// `p`: the head of the free list goes, or else the cursor advances one
/// stride; `p` joins the live set and was not live before.
pub open spec fn bin_alloc_rel(b0: Bin, b1: Bin, p: usize) -> bool {
    &&& b0.alloc_result() == Some(p)
    &&& b1.slot_size == b0.slot_size
    &&& b1.slot_align == b0.slot_align
    &&& b1.chunks@ == b0.chunks@
    &&& !b0.live@.contains(p)
    &&& b1.live@ == b0.live@.insert(p)
    &&& if b0.free@.len() > 0 {
        &&& b1.free@ == b0.free@.drop_last()
        &&& b1.cursor_ptr == b0.cursor_ptr
        &&& b1.cursor_len == b0.cursor_len
    } else {
        &&& b1.free@ == b0.free@
        &&& b1.cursor_ptr == b0.cursor_ptr + b0.slot_size
        &&& b1.cursor_len == b0.cursor_len - b0.slot_size
    }
}

/// How one deallocation of `p` steps a bin from `b0` to `b1`: `p` leaves
/// the live set and becomes the new head of the free list.
pub open spec fn bin_dealloc_rel(b0: Bin, b1: Bin, p: usize) -> bool {
    &&& b1.slot_size == b0.slot_size
    &&& b1.slot_align == b0.slot_align
    &&& b1.chunks@ == b0.chunks@
    &&& b1.cursor_ptr == b0.cursor_ptr
    &&& b1.cursor_len == b0.cursor_len
    &&& b1.free@ == b0.free@.push(p)
    &&& b1.live@ == b0.live@.remove(p)
}

/// Reuse is last-in first-out: when a block is freed, the very next
/// allocation from the bin returns that block.
pub proof fn lemma_free_list_is_lifo(b0: Bin, b1: Bin, p: usize)
    requires
        b0.wf(),
        b0.live@.contains(p),
        b1.free@ == b0.free@.push(p),
    ensures
        b1.alloc_result() == Some(p),
{
    assert(b1.free@.len() > 0);
    assert(b1.free@.last() == p);
}

} // verus!
