//! Layout rules of the C interface: every block carries a word-sized
//! header in front of the payload so `free` and `realloc` can recover the
//! request from the pointer alone. The functions here compute the layouts
//! those headers call for; reading and writing the headers themselves is
//! the caller's pointer work.

use vstd::prelude::*;

verus! {

use crate::layout::{Layout, is_power_of_two, lemma_pow2_le_half};

/// Bytes reserved in front of a payload for the size header.
pub const HEADER_SIZE: usize = 8;

/// The largest power of two not above `n`.
pub open spec fn pow2_floor(n: int) -> int
    decreases n,
{
    if n < 2 {
        1
    } else {
        2 * pow2_floor(n / 2)
    }
}

/// `pow2_floor` really is the power of two sitting just below `n`.
pub proof fn lemma_pow2_floor_props(n: int)
    requires
        n >= 1,
    ensures
        is_power_of_two(pow2_floor(n)),
        pow2_floor(n) <= n < 2 * pow2_floor(n),
    decreases n,
{
    if n >= 2 {
        lemma_pow2_floor_props(n / 2);
        vstd::arithmetic::div_mod::lemma_fundamental_div_mod(n, 2);
    }
}

/// Only one power of two sits just below `n`.
pub proof fn lemma_pow2_floor_unique(n: int, p: int)
    requires
        n >= 1,
        is_power_of_two(p),
        p <= n < 2 * p,
    ensures
        p == pow2_floor(n),
{
    lemma_pow2_floor_props(n);
    let q = pow2_floor(n);
    if p < q {
        lemma_pow2_le_half(p, q);
        assert(2 * p <= q);
    } else if q < p {
        lemma_pow2_le_half(q, p);
        assert(2 * q <= p);
    }
}

/// The alignment the C interface grants a request of `size` bytes: the
/// power-of-two floor of the size, raised to at least the header word.
pub open spec fn shim_align(size: int) -> int {
    if pow2_floor(size) < 8 {
        8
    } else {
        pow2_floor(size)
    }
}

/// The largest power of two not above `size`.
pub fn get_align(size: usize) -> (r: usize)
    requires
        1 <= size,
    ensures
        r == pow2_floor(size as int),
        is_power_of_two(r as int),
        r <= size < 2 * r,
{
    let mut p: usize = 1;
    while p <= size / 2
        invariant
            1 <= p <= size,
            is_power_of_two(p as int),
        decreases size - p,
    {
        proof {
            vstd::arithmetic::div_mod::lemma_fundamental_div_mod(size as int, 2);
        }
        p = p * 2;
    }
    proof {
        vstd::arithmetic::div_mod::lemma_fundamental_div_mod(size as int, 2);
        lemma_pow2_floor_unique(size as int, p as int);
    }
    p
}

/// The layout backing `malloc(size)`: the payload plus its header, aligned
/// to the power-of-two floor of the size and at least to the header word.
/// The bound keeps the padded layout representable; `malloc` refuses a
/// zero size before computing a layout.
pub fn create_alloc_layout(size: usize) -> (r: Layout)
    requires
        1 <= size,
        size + HEADER_SIZE + shim_align(size as int) - 1 <= isize::MAX,
    ensures
        r == (Layout { size: (size + HEADER_SIZE) as usize, align: shim_align(size as int) as usize }),
        r.valid(),
{
    let a0 = get_align(size);
    let align = if a0 < 8 {
        8
    } else {
        a0
    };
    proof {
        assert(is_power_of_two(8)) by {
            reveal_with_fuel(is_power_of_two, 5);
        }
    }
    let r = Layout::from_size_align(size + HEADER_SIZE, align);
    r.unwrap()
}

/// The layout backing `calloc(count, size)`: `count * size` payload bytes
/// plus the header, aligned as a single element of `size` bytes would be.
pub fn create_calloc_layout(count: usize, size: usize) -> (r: Layout)
    requires
        1 <= size,
        count * size + HEADER_SIZE + shim_align(size as int) - 1 <= isize::MAX,
    ensures
        r == (Layout {
            size: (count * size + HEADER_SIZE) as usize,
            align: shim_align(size as int) as usize,
        }),
        r.valid(),
{
    let a0 = get_align(size);
    let align = if a0 < 8 {
        8
    } else {
        a0
    };
    proof {
        assert(is_power_of_two(8)) by {
            reveal_with_fuel(is_power_of_two, 5);
        }
        assert(count * size >= 0) by (nonlinear_arith);
    }
    let total = count * size;
    let r = Layout::from_size_align(total + HEADER_SIZE, align);
    r.unwrap()
}

/// The layout backing `aligned_alloc(alignment, size)` for alignments
/// beyond the header word: the payload is preceded by one whole alignment
/// unit that holds the headers. `None` when the alignment is not a power
/// of two or the padded layout is not representable; the allocation then
/// fails with null.
pub fn aligned_alloc_layout(alignment: usize, size: usize) -> (r: Option<Layout>)
    ensures
        size + alignment > usize::MAX ==> r is None,
        size + alignment <= usize::MAX ==> {
            if is_power_of_two(alignment as int) && size + alignment + alignment - 1
                <= isize::MAX {
                r == Some(Layout { size: (size + alignment) as usize, align: alignment })
            } else {
                r is None
            }
        },
{
    match size.checked_add(alignment) {
        None => None,
        Some(total) => Layout::from_size_align(total, alignment),
    }
}

} // verus!
